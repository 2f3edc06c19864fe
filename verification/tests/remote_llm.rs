use oclive_host::flags::skip_switch_enabled;
use oclive_host::gguf::GgufError;
use oclive_host::openai::{is_loopback_endpoint, local_runtime_chat_url, remote_llm_config, RemoteLlmEnv};

fn env() -> RemoteLlmEnv {
    RemoteLlmEnv {
        remote_llm_url: None,
        openai_api_base: None,
        openai_base_url: None,
        remote_llm_token: None,
        openai_api_key: None,
        cached_token: None,
        timeout_ms: None,
    }
}

#[test]
fn remote_config_prefers_the_oclive_url_and_token() {
    let c = remote_llm_config(&RemoteLlmEnv {
        remote_llm_url: Some(" https://relay.example/v1 ".into()),
        openai_api_base: Some("https://other.example".into()),
        remote_llm_token: Some("  secret ".into()),
        openai_api_key: Some("unused".into()),
        ..env()
    })
    .expect("configured");
    assert_eq!(c.chat_url, "https://relay.example/v1/chat/completions");
    assert_eq!(c.bearer_token.as_deref(), Some("secret"));
    assert_eq!(c.timeout_ms, 120_000);
}

#[test]
fn remote_config_falls_back_and_bounds_the_timeout() {
    let c = remote_llm_config(&RemoteLlmEnv {
        remote_llm_url: Some("   ".into()),
        openai_base_url: Some("https://api.example".into()),
        cached_token: Some("cached".into()),
        timeout_ms: Some("5".into()),
        ..env()
    })
    .expect("configured");
    assert_eq!(c.chat_url, "https://api.example/v1/chat/completions");
    assert_eq!(c.bearer_token.as_deref(), Some("cached"));
    assert_eq!(c.timeout_ms, 1000);

    let c = remote_llm_config(&RemoteLlmEnv {
        openai_api_base: Some("https://api.example".into()),
        remote_llm_token: Some("  ".into()),
        openai_api_key: Some("key".into()),
        timeout_ms: Some("9999999".into()),
        ..env()
    })
    .unwrap();
    assert_eq!(c.bearer_token, None);
    assert_eq!(c.timeout_ms, 600_000);

    let c = remote_llm_config(&RemoteLlmEnv {
        openai_api_base: Some("https://api.example".into()),
        timeout_ms: Some(" 3000".into()),
        ..env()
    })
    .unwrap();
    assert_eq!(c.timeout_ms, 120_000);
}

#[test]
fn remote_config_needs_a_base_url() {
    assert!(remote_llm_config(&env()).is_none());
    assert!(remote_llm_config(&RemoteLlmEnv { openai_api_base: Some("  ".into()), ..env() }).is_none());
}

#[test]
fn endpoint_hosts_are_classified() {
    assert!(is_loopback_endpoint("http://LOCALHOST:8080/v1"));
    assert!(is_loopback_endpoint("http://[::1]:8080/v1"));
    assert!(is_loopback_endpoint("http://127.0.0.1:11434"));
    assert!(is_loopback_endpoint("http://127.1:11434"));
    assert!(!is_loopback_endpoint("http://[::ffff:127.0.0.1]:1"));
    assert!(!is_loopback_endpoint("http://127.example.com"));
    assert!(!is_loopback_endpoint("http://10.0.0.1"));
    assert!(!is_loopback_endpoint("not a url"));
}

#[test]
fn local_runtime_must_be_loopback() {
    assert_eq!(
        local_runtime_chat_url("http://127.0.0.1:8080", true),
        Ok("http://127.0.0.1:8080/v1/chat/completions".to_string())
    );
    let refusal = Err("local LLM runtime endpoint must use localhost/127.0.0.1/[::1]".to_string());
    assert_eq!(local_runtime_chat_url("http://example.com", false), refusal);
    assert_eq!(local_runtime_chat_url("   ", true), refusal);
}

#[test]
fn skip_switches_accept_one_or_true_only() {
    assert!(skip_switch_enabled(Some("1")));
    assert!(skip_switch_enabled(Some("TRUE")));
    assert!(!skip_switch_enabled(Some(" 1")));
    assert!(!skip_switch_enabled(Some("yes")));
    assert!(!skip_switch_enabled(None));
}

#[test]
fn gguf_errors_have_host_messages() {
    assert_eq!(
        GgufError::UnsupportedVersion(4).message(),
        "unsupported GGUF version 4; expected version 2 or 3"
    );
    assert_eq!(
        GgufError::KeyNotString("general.type".into()).message(),
        "GGUF metadata 'general.type' must be a string"
    );
    assert!(GgufError::NotLoraAdapter.message().contains("not a llama.cpp LoRA adapter"));
    assert_eq!(GgufError::Incomplete(64).message(), "GGUF metadata needs the first 64 bytes");
}
