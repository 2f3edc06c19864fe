use oclive_host::llm_env::{
    cloud_api_token_configured, complete_user_llm_env_apply, global_ollama_model_choice, llm_env_plan,
    ollama_base_choice, provider_needs_token_check, remote_token_from_store, user_llm_env_apply_needed, LlmSettings,
};

#[test]
fn stable_snapshot_is_marked_clean() {
    let (applied, dirty) = complete_user_llm_env_apply(7, 7);
    assert_eq!(applied, 7);
    assert!(!dirty);
}

#[test]
fn newer_snapshot_remains_dirty_for_the_waiting_caller() {
    let (applied, dirty) = complete_user_llm_env_apply(8, 7);
    assert_eq!(applied, 7);
    assert!(dirty);
}

fn settings() -> LlmSettings {
    LlmSettings {
        ollama_base: Some(" http://gpu-box:11434 ".into()),
        remote_url: Some("https://api.example.com/v1".into()),
        remote_token: Some("SECRET-REDACTED".into()),
        cloud_style: Some("   ".into()),
        provider: None,
        local_model_path: None,
        local_lora_adapter_path: Some("/models/lora.gguf".into()),
    }
}

#[test]
fn stored_settings_win_over_environment_and_defaults() {
    assert_eq!(global_ollama_model_choice(Some("  llama3:8b "), Some("env-model")), "llama3:8b");
    assert_eq!(global_ollama_model_choice(Some("   "), Some("env-model")), "env-model");
    assert_eq!(global_ollama_model_choice(None, None), "qwen2.5:7b");
    assert_eq!(ollama_base_choice(None, None), "http://localhost:11434");
    assert_eq!(ollama_base_choice(Some("http://x:1"), Some("http://y:2")), "http://x:1");
}

#[test]
fn token_and_apply_markers() {
    assert!(cloud_api_token_configured(Some(" t "), None));
    assert!(!cloud_api_token_configured(Some("  "), Some(" ")));
    assert!(cloud_api_token_configured(None, Some("stored")));
    assert_eq!(remote_token_from_store(Some(" tok ".into())), Some(" tok ".to_string()));
    assert_eq!(remote_token_from_store(Some("  ".into())), None);
    assert!(!user_llm_env_apply_needed(false, 3, 3));
    assert!(user_llm_env_apply_needed(true, 3, 3));
    assert!(user_llm_env_apply_needed(false, 2, 3));
}

#[test]
fn missing_provider_with_url_and_token_becomes_cloud() {
    let s = settings();
    assert!(provider_needs_token_check(&s));
    let plan = llm_env_plan(&s, true);
    assert_eq!(plan.provider, "cloud");
    assert!(plan.persist_cloud_provider);
    let env: Vec<(&str, Option<&str>)> = plan.assignments.iter().map(|(k, v)| (k.as_str(), v.as_deref())).collect();
    assert_eq!(
        env,
        vec![
            ("OLLAMA_BASE_URL", Some("http://gpu-box:11434")),
            ("OCLIVE_REMOTE_LLM_URL", Some("https://api.example.com/v1")),
            ("OCLIVE_REMOTE_LLM_TOKEN", Some("SECRET-REDACTED")),
            ("OCLIVE_LLM_CLOUD_API_STYLE", None),
            ("OCLIVE_LOCAL_LLM_MODEL_PATH", None),
            ("OCLIVE_LOCAL_LLM_LORA_PATH", Some("/models/lora.gguf")),
            ("OCLIVE_LLM_BACKEND", Some("remote")),
        ]
    );
    let without_token = llm_env_plan(&s, false);
    assert_eq!(without_token.provider, "");
    assert!(!without_token.persist_cloud_provider);
    assert_eq!(without_token.assignments[6].1, None);
}

#[test]
fn local_provider_drops_the_remote_url_and_uses_ollama() {
    let mut s = settings();
    s.provider = Some(" Local ".into());
    assert!(!provider_needs_token_check(&s));
    let plan = llm_env_plan(&s, true);
    assert_eq!(plan.provider, "local");
    assert!(!plan.persist_cloud_provider);
    assert_eq!(plan.assignments[1], ("OCLIVE_REMOTE_LLM_URL".to_string(), None));
    assert_eq!(plan.assignments[6], ("OCLIVE_LLM_BACKEND".to_string(), Some("ollama".to_string())));
}
