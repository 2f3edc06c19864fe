use oclive_host::openai::{
    append_stream_contents, chat_reply_content, classify_sse_line, normalize_model_ids, stream_reply,
    take_complete_lines, SseLine,
};

#[test]
fn sse_lines_split_classify_and_accumulate() {
    let mut pending = b"data: {\"a\":1}\r\n: keep-alive\n\ndata: [DONE]\nevent: x\ndata: par".to_vec();
    let lines = take_complete_lines(&mut pending);
    assert_eq!(
        lines,
        vec![b"data: {\"a\":1}".to_vec(), b": keep-alive".to_vec(), b"".to_vec(), b"data: [DONE]".to_vec(), b"event: x".to_vec()]
    );
    assert_eq!(pending, b"data: par".to_vec());
    assert_eq!(classify_sse_line("  data:  {\"a\":1} "), SseLine::Payload("{\"a\":1}".to_string()));
    assert_eq!(classify_sse_line(": keep-alive"), SseLine::Skip);
    assert_eq!(classify_sse_line("   "), SseLine::Skip);
    assert_eq!(classify_sse_line("event: x"), SseLine::Skip);
    assert_eq!(classify_sse_line("data: [DONE]"), SseLine::Done);
    let mut reply = String::new();
    let emitted = append_stream_contents(&mut reply, &vec![Some("hello".into()), None, Some(String::new())]);
    assert_eq!(reply, "hello");
    assert_eq!(emitted, vec!["hello".to_string()]);
    let emitted = append_stream_contents(&mut reply, &vec![Some(" world".into())]);
    assert_eq!(emitted, vec![" world".to_string()]);
    assert_eq!(stream_reply(reply), Ok("hello world".to_string()));
    assert_eq!(stream_reply(String::new()), Err("OpenAI stream ended without assistant content".to_string()));
}

#[test]
fn chat_content_is_trimmed_and_required() {
    assert_eq!(chat_reply_content(Some("  hi \n".into())), Ok("hi".to_string()));
    assert_eq!(
        chat_reply_content(Some("   ".into())),
        Err("OpenAI API response missing choices[0].message.content".to_string())
    );
    assert!(chat_reply_content(None).is_err());
}

#[test]
fn model_ids_are_trimmed_sorted_and_deduplicated() {
    let ids = normalize_model_ids(&vec![Some("gpt-4o-mini".into()), Some("gpt-4o".into())]).expect("ids");
    assert_eq!(ids, vec!["gpt-4o".to_string(), "gpt-4o-mini".to_string()]);
    let ids = normalize_model_ids(&vec![
        Some(" Zeta ".into()),
        None,
        Some("alpha".into()),
        Some("ALPHA".into()),
        Some("  ".into()),
        Some("beta".into()),
    ])
    .expect("ids");
    assert_eq!(ids, vec!["alpha".to_string(), "beta".to_string(), "Zeta".to_string()]);
    assert_eq!(
        normalize_model_ids(&vec![None, Some(" ".into())]),
        Err("OpenAI models list response contained no model ids".to_string())
    );
}
