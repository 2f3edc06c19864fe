use oclive_host::gguf::{gguf_base_model_architecture, inspect_gguf_adapter, inspect_gguf_metadata, GgufError};
use oclive_host::local_models::{adapters_root, model_name_from_gguf_path, model_name_from_stem};

fn push_string(bytes: &mut Vec<u8>, value: &str) {
    bytes.extend_from_slice(&(value.len() as u64).to_le_bytes());
    bytes.extend_from_slice(value.as_bytes());
}

fn header(version: u32, entries: u64) -> Vec<u8> {
    let mut bytes = Vec::new();
    bytes.extend_from_slice(b"GGUF");
    bytes.extend_from_slice(&version.to_le_bytes());
    bytes.extend_from_slice(&0_u64.to_le_bytes());
    bytes.extend_from_slice(&entries.to_le_bytes());
    bytes
}

fn minimal_gguf(general_type: &str) -> Vec<u8> {
    let mut bytes = header(3, 3);
    for (key, value) in [("general.type", general_type), ("adapter.type", "lora"), ("general.architecture", "llama")] {
        push_string(&mut bytes, key);
        bytes.extend_from_slice(&8_u32.to_le_bytes());
        push_string(&mut bytes, value);
    }
    bytes
}

#[test]
fn adapter_header_is_recognised_and_base_models_give_their_architecture() {
    let adapter = minimal_gguf("adapter");
    let meta = inspect_gguf_adapter(&adapter, adapter.len() as u64).expect("adapter");
    assert_eq!(meta.general_type.as_deref(), Some("adapter"));
    assert_eq!(meta.architecture.as_deref(), Some("llama"));
    assert_eq!(gguf_base_model_architecture(&adapter, adapter.len() as u64), Err(GgufError::BaseIsAdapter));
    let base = minimal_gguf("model");
    assert_eq!(gguf_base_model_architecture(&base, base.len() as u64), Ok(Some("llama".to_string())));
    assert!(matches!(inspect_gguf_adapter(&base, base.len() as u64), Err(GgufError::NotLoraAdapter)));
}

#[test]
fn short_reads_ask_for_more_and_short_files_fail() {
    let bytes = minimal_gguf("adapter");
    let len = bytes.len() as u64;
    assert_eq!(inspect_gguf_metadata(&bytes[..2], len), Err(GgufError::Incomplete(4)));
    assert_eq!(inspect_gguf_metadata(&bytes[..10], len), Err(GgufError::Incomplete(16)));
    match inspect_gguf_metadata(&bytes[..30], len) {
        Err(GgufError::Incomplete(n)) => assert!(n > 30 && n <= len),
        other => panic!("unexpected {other:?}"),
    }
    assert_eq!(inspect_gguf_metadata(&bytes[..40], 40), Err(GgufError::Truncated));
    assert_eq!(inspect_gguf_metadata(&bytes[..3], 3), Err(GgufError::UnexpectedEof));
    assert_eq!(inspect_gguf_metadata(&bytes, 17_179_869_185), Err(GgufError::TooLarge));
}

#[test]
fn malformed_headers_are_refused() {
    let mut wrong_magic = minimal_gguf("adapter");
    wrong_magic[0] = b'X';
    assert_eq!(inspect_gguf_metadata(&wrong_magic, wrong_magic.len() as u64), Err(GgufError::NotGguf));
    let old = header(1, 0);
    assert_eq!(inspect_gguf_metadata(&old, old.len() as u64), Err(GgufError::UnsupportedVersion(1)));
    let many = header(2, 100_001);
    assert_eq!(inspect_gguf_metadata(&many, many.len() as u64), Err(GgufError::TooManyEntries));
    let mut not_string = header(3, 1);
    push_string(&mut not_string, "general.architecture");
    not_string.extend_from_slice(&4_u32.to_le_bytes());
    not_string.extend_from_slice(&7_u32.to_le_bytes());
    assert_eq!(
        inspect_gguf_metadata(&not_string, not_string.len() as u64),
        Err(GgufError::KeyNotString("general.architecture".to_string()))
    );
    let mut bad_utf8 = header(3, 1);
    bad_utf8.extend_from_slice(&2_u64.to_le_bytes());
    bad_utf8.extend_from_slice(&[0xff, 0xfe]);
    assert_eq!(inspect_gguf_metadata(&bad_utf8, bad_utf8.len() as u64), Err(GgufError::InvalidUtf8));
    let mut odd_type = header(3, 1);
    push_string(&mut odd_type, "x");
    odd_type.extend_from_slice(&13_u32.to_le_bytes());
    assert_eq!(inspect_gguf_metadata(&odd_type, odd_type.len() as u64), Err(GgufError::UnsupportedValueType(13)));
}

#[test]
fn other_values_are_skipped_including_arrays() {
    let mut bytes = header(3, 4);
    push_string(&mut bytes, "tokenizer.tokens");
    bytes.extend_from_slice(&9_u32.to_le_bytes());
    bytes.extend_from_slice(&8_u32.to_le_bytes());
    bytes.extend_from_slice(&2_u64.to_le_bytes());
    push_string(&mut bytes, "a");
    push_string(&mut bytes, "bc");
    push_string(&mut bytes, "scores");
    bytes.extend_from_slice(&9_u32.to_le_bytes());
    bytes.extend_from_slice(&6_u32.to_le_bytes());
    bytes.extend_from_slice(&3_u64.to_le_bytes());
    bytes.extend_from_slice(&[0u8; 12]);
    push_string(&mut bytes, "context_length");
    bytes.extend_from_slice(&10_u32.to_le_bytes());
    bytes.extend_from_slice(&4096_u64.to_le_bytes());
    push_string(&mut bytes, "general.architecture");
    bytes.extend_from_slice(&8_u32.to_le_bytes());
    push_string(&mut bytes, "qwen2");
    let meta = inspect_gguf_metadata(&bytes, bytes.len() as u64).expect("metadata");
    assert_eq!(meta.architecture.as_deref(), Some("qwen2"));
    assert_eq!(meta.general_type, None);

    let mut nested = header(3, 1);
    push_string(&mut nested, "deep");
    nested.extend_from_slice(&9_u32.to_le_bytes());
    for _ in 0..3 {
        nested.extend_from_slice(&9_u32.to_le_bytes());
        nested.extend_from_slice(&1_u64.to_le_bytes());
    }
    nested.extend_from_slice(&[0u8; 16]);
    assert_eq!(inspect_gguf_metadata(&nested, nested.len() as u64), Err(GgufError::ArrayNesting));
}

#[test]
fn model_names_and_adapter_root() {
    assert_eq!(model_name_from_gguf_path("/models/Qwen 2.5 (q4).gguf"), "Qwen_2.5__q4_");
    assert_eq!(model_name_from_gguf_path("/models/llama-3_8b.Q4.gguf"), "llama-3_8b.Q4");
    assert_eq!(model_name_from_gguf_path("/"), "local-model");
    assert_eq!(model_name_from_gguf_path("/models/Qwen 2.5:7b.gguf"), "Qwen_2.5_7b");
    assert_eq!(adapters_root("/data/models"), "/data/models/adapters");
    assert_eq!(model_name_from_gguf_path("plain.gguf"), "plain");
    assert_eq!(model_name_from_stem(Some("a b")), "a_b");
    assert_eq!(model_name_from_stem(None), "local-model");
}

#[test]
fn growing_prefixes_reach_the_whole_file_answer() {
    let bytes = minimal_gguf("adapter");
    let len = bytes.len() as u64;
    let whole = inspect_gguf_metadata(&bytes, len);
    let mut have = 1usize;
    let mut rounds = 0;
    let answer = loop {
        match inspect_gguf_metadata(&bytes[..have], len) {
            Err(GgufError::Incomplete(n)) => {
                assert!(n as usize > have && n <= len);
                have = n as usize;
                rounds += 1;
            }
            other => break other,
        }
    };
    assert!(rounds > 3);
    assert_eq!(answer, whole);
}
