use oclive_host::api::validate_api_auth_configuration;
use oclive_host::flags::{distro_allows_visual_presentation, env_flag_enabled, list_dev_roles_enabled};
use oclive_host::identity::{choose_identity_id, UserIdentityIndexEntry};
use oclive_host::openai::{chat_completions_url, models_list_url};
use oclive_host::storage::{
    cap_limit, escape_sqlite_glob_literal, highlight_snippet, try_highlight_snippet, manifest_sess_glob_pattern, normalize_scene_id,
    rows_to_stored,
    session_row_from_tuple, timestamp_ms_to_rfc3339, truncate_snippet, MessageRow,
};

#[test]
fn glob_escapes_metacharacters_in_role_id() {
    assert_eq!(escape_sqlite_glob_literal("a*b"), "a[*]b");
    assert_eq!(escape_sqlite_glob_literal("x?y"), "x[?]y");
    assert_eq!(manifest_sess_glob_pattern("r[id*"), "r[[]id[*]__sess__*");
}

#[test]
fn glob_pattern_trims_role_id_and_escapes_brackets() {
    assert_eq!(escape_sqlite_glob_literal("[]"), "[[][]]");
    assert_eq!(manifest_sess_glob_pattern("  mumu "), "mumu__sess__*");
}

#[test]
fn scene_ids_limits_and_snippets() {
    assert_eq!(normalize_scene_id("  "), "default");
    assert_eq!(normalize_scene_id(" home "), "home");
    assert_eq!(cap_limit(0), u32::MAX);
    assert_eq!(cap_limit(25), 25);
    assert_eq!(cap_limit(10_000), 10_000);
    assert_eq!(cap_limit(50_000), 10_000);
    assert_eq!(truncate_snippet("  你好世界  ", 2), "你好…");
    assert_eq!(truncate_snippet(" abc ", 3), "abc");
}

#[test]
fn rows_become_stored_messages_in_order() {
    let rows = vec![
        MessageRow {
            id: "m1".into(),
            session_id: "s".into(),
            turn_index: 0,
            sender: "user".into(),
            content: "hi".into(),
            metadata: None,
            created_at: "t0".into(),
        },
        MessageRow {
            id: "m2".into(),
            session_id: "s".into(),
            turn_index: 1,
            sender: "assistant".into(),
            content: "yo".into(),
            metadata: Some("{}".into()),
            created_at: "t1".into(),
        },
    ];
    let stored = rows_to_stored(rows);
    assert_eq!(stored.len(), 2);
    assert_eq!(stored[1].id, "m2");
    assert_eq!(stored[1].metadata.as_deref(), Some("{}"));
    let row = session_row_from_tuple(("s".into(), "r".into(), "sc".into(), "c".into(), "u".into(), 4));
    assert_eq!(row.message_count, 4);
    assert_eq!(row.scene_id, "sc");
}

#[test]
fn chat_completions_url_normalizes_base() {
    assert_eq!(chat_completions_url("https://api.openai.com"), "https://api.openai.com/v1/chat/completions");
    assert_eq!(chat_completions_url("https://api.openai.com/v1"), "https://api.openai.com/v1/chat/completions");
}

#[test]
fn models_list_url_normalizes_base() {
    assert_eq!(models_list_url("https://api.openai.com"), "https://api.openai.com/v1/models");
    assert_eq!(models_list_url("https://api.openai.com/v1"), "https://api.openai.com/v1/models");
    assert_eq!(models_list_url("https://api.openai.com/v1/chat/completions"), "https://api.openai.com/v1/models");
}

#[test]
fn endpoint_normalisation_edge_cases() {
    assert_eq!(chat_completions_url("   "), "");
    assert_eq!(chat_completions_url(" /// "), "");
    assert!(!chat_completions_url(" x/ ").is_empty());
    assert_eq!(chat_completions_url(" https://x.io/v1/chat/completions/// "), "https://x.io/v1/chat/completions");
    assert_eq!(chat_completions_url("https://relay.example/v1/openai"), "https://relay.example/v1/openai");
    assert_eq!(models_list_url("https://x.io/v1/models/"), "https://x.io/v1/models");
    assert_eq!(models_list_url("https://x.io/chat/completions"), "https://x.io/chat/completions/v1/models");
    assert_eq!(models_list_url("https://x.io/v2/"), "https://x.io/v2/v1/models");
}

#[test]
fn api_server_auth_configuration_fails_closed() {
    assert!(validate_api_auth_configuration(Some("long-random-token"), false).is_ok());
    assert!(validate_api_auth_configuration(None, true).is_ok());
    assert!(validate_api_auth_configuration(None, false).is_err());
    assert!(validate_api_auth_configuration(Some("   "), false).is_err());
}

#[test]
fn index_entry_maps_to_relation_default_is_identity_id() {
    let entry = UserIdentityIndexEntry {
        display_name: "x".to_string(),
        template_file: "x.md".to_string(),
        maps_to_relation_id: None,
        adult_eligible: true,
    };
    let id = "friend";
    let relation_key = entry.relation_key(id);
    assert_eq!(relation_key, "friend");
}

#[test]
fn identity_choice_prefers_stored_then_host_then_catalog() {
    let entry = UserIdentityIndexEntry {
        display_name: "x".to_string(),
        template_file: "x.md".to_string(),
        maps_to_relation_id: Some(String::new()),
        adult_eligible: false,
    };
    assert_eq!(entry.relation_key("kin"), "kin");
    assert_eq!(choose_identity_id(Some("db".into()), false, Some("host"), Some("cat")).as_deref(), Some("db"));
    assert_eq!(choose_identity_id(None, false, Some("host"), Some("cat")).as_deref(), Some("host"));
    assert_eq!(choose_identity_id(None, false, Some(""), Some("cat")).as_deref(), Some("cat"));
    assert_eq!(choose_identity_id(None, true, Some("host"), Some("cat")).as_deref(), Some("cat"));
    assert_eq!(choose_identity_id(None, true, None, None), None);
}

#[test]
fn env_flag_enabled_respects_truthy_tokens() {
    assert!(!env_flag_enabled(None));
    for v in ["1", "true", "TRUE", "yes", "on"] {
        assert!(env_flag_enabled(Some(v)), "v={v}");
    }
    assert!(!env_flag_enabled(Some("0")));
    assert!(list_dev_roles_enabled(Some(" On ")));
    assert!(!list_dev_roles_enabled(None));
}

#[test]
fn distro_off_or_blank_disables_visual_presentation() {
    assert!(!distro_allows_visual_presentation(""));
    assert!(!distro_allows_visual_presentation(" OFF "));
    assert!(distro_allows_visual_presentation("image_only"));
}

#[test]
fn stored_timestamps_render_as_rfc3339() {
    assert_eq!(
        timestamp_ms_to_rfc3339(0),
        "1970-01-01T00:00:00+00:00"
    );
    assert_eq!(
        timestamp_ms_to_rfc3339(1_700_000_000_123),
        "2023-11-14T22:13:20.123+00:00"
    );
    assert!(!timestamp_ms_to_rfc3339(i64::MAX).is_empty());
}

#[test]
fn highlight_snippet_cuts_around_the_first_match() {
    assert_eq!(highlight_snippet("Hello World foo", "world", 3), "…lo World fo…");
    assert_eq!(highlight_snippet("abc def", " ABC ", 2), "abc d…");
    assert_eq!(highlight_snippet("Hello World foo", "  ", 3), "Hello …");
    assert_eq!(highlight_snippet("Hello World foo", "zzz", 3), "Hello …");
    assert_eq!(highlight_snippet("short", "zzz", 10), "short");
    assert_eq!(highlight_snippet("Ünïcode text", "TEXT", 2), "…e text");
}

#[test]
fn highlight_refuses_a_window_off_character_boundaries() {
    assert_eq!(try_highlight_snippet("İ€€", "€", 0), None);
    assert_eq!(try_highlight_snippet("Hello World foo", "world", 3).as_deref(), Some("…lo World fo…"));
}

#[test]
fn chat_completions_url_applied_twice_is_applied_once() {
    for base in ["https://api.openai.com", " https://h/v1/ ", "http://h:1/v1/chat/completions", "https://relay.example/v1/openai", "", " x/ "] {
        let once = chat_completions_url(base);
        assert_eq!(chat_completions_url(&once), once);
    }
    // The one exception: `/v1/` inside and whitespace before the trailing slashes.
    assert_eq!(chat_completions_url("http://h/v1/x /"), "http://h/v1/x ");
    assert_eq!(chat_completions_url("http://h/v1/x "), "http://h/v1/x");
}
