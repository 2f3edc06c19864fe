use oclive_host::backends::{
    aggregated_warnings, collect_remote_backend_placeholder_warnings, validate_co_present_dialogue_backends,
    validate_plugin_backends_slots, AgentBackend, DirectoryPluginSlots, EmotionBackend, EventBackend, LlmBackend,
    MemoryBackend, PluginBackends, PromptBackend, RemoteEndpoints, RoleWarnings,
};
use oclive_host::backends::{
    plugin_backends_override_from_slot_session, BackendParses, SessionSlotOverride, StartupHealthCache,
    FAILURE_RETRY_TTL_MS,
};
use oclive_host::plugins::{
    plugin_ui_slot_dto_from_decl,
    find_plugin_asset_path,
    collect_subscribed_host_events, directory_plugin_bootstrap_dto, effective_plugin_config, merge_bridge_events,
    non_empty_config_json, order_plugin_slots, parse_ready_line, persisted_config_from_raw, pick_plugin_ui_slots,
    resolve_shell_plugin_id, rpc_url_is_loopback, BootstrapSources, HostPluginsFile, PluginSlotSource,
    PluginUiSlotDto, SlotDeclCandidate, SlotOrder, scan_plugins, plugin_scan_container_roots, plugin_scan_roots_from,
    ScannedPluginDir,
};

fn decl(slot_name: &str, appearance: &str, entry: &str, events: &[&str]) -> SlotDeclCandidate {
    SlotDeclCandidate {
        slot: slot_name.to_string(),
        appearance_id: appearance.to_string(),
        label: None,
        entry: entry.to_string(),
        vue_component: None,
        bridge_events: events.iter().map(|e| e.to_string()).collect(),
        asset_url: format!("plugin://asset/{}", entry.trim()),
    }
}

fn source(pid: &str, has_shell: bool, decls: Vec<SlotDeclCandidate>) -> PluginSlotSource {
    PluginSlotSource {
        plugin_id: pid.to_string(),
        manifest_loaded: true,
        has_shell,
        shell_url: if has_shell { Some(format!("plugin://{pid}/shell.html")) } else { None },
        shell_vue_entry: None,
        shell_bridge_events: vec![],
        decls,
        selected_appearances: vec![],
    }
}

fn slot(pid: &str, slot: &str, entry: &str) -> PluginUiSlotDto {
    PluginUiSlotDto {
        plugin_id: pid.to_string(),
        slot: slot.to_string(),
        appearance_id: String::new(),
        label: None,
        entry: entry.to_string(),
        vue_component: None,
        bridge_events: vec![],
        url: format!("plugin://{pid}/{entry}"),
    }
}

#[test]
fn empty_debug_config_does_not_mask_persisted_config() {
    assert_eq!(non_empty_config_json(None), None);
    assert_eq!(non_empty_config_json(Some("  \r\n")), None);
    assert_eq!(non_empty_config_json(Some(" {\"enabled\":true} ")).as_deref(), Some("{\"enabled\":true}"));
}

#[test]
fn persisted_plugin_config_requires_a_json_object() {
    assert_eq!(persisted_config_from_raw("[]".to_string()), None);
    assert_eq!(persisted_config_from_raw("not json".to_string()), None);
    assert_eq!(persisted_config_from_raw("{\"enabled\":true}".to_string()), Some("{\"enabled\":true}".to_string()));
    assert_eq!(effective_plugin_config(Some("  "), Some("{}".to_string())), Some("{}".to_string()));
    assert_eq!(effective_plugin_config(Some(" {\"a\":1} "), Some("{}".to_string())), Some("{\"a\":1}".to_string()));
    assert_eq!(effective_plugin_config(None, None), None);
}

#[test]
fn ready_line_requires_loopback_or_network_grant() {
    assert!(rpc_url_is_loopback("http://127.0.0.1:8080/rpc"));
    assert!(rpc_url_is_loopback("https://LocalHost:1"));
    assert!(!rpc_url_is_loopback("http://example.com"));
    assert!(!rpc_url_is_loopback("ftp://localhost"));
    assert_eq!(
        parse_ready_line("  READY http://localhost:9000/rpc ", "READY", false).as_deref(),
        Some("http://localhost:9000/rpc")
    );
    assert_eq!(parse_ready_line("READY https://remote.example/rpc", "READY", false), None);
    assert_eq!(
        parse_ready_line("READY https://remote.example/rpc", "READY", true).as_deref(),
        Some("https://remote.example/rpc")
    );
    assert_eq!(parse_ready_line("HELLO http://localhost", "READY", true), None);
    assert_eq!(parse_ready_line("READY ws://localhost", "READY", true), None);
}

#[test]
fn developer_mode_from_file_or_environment() {
    let host = HostPluginsFile { developer_mode: false, extra_plugin_roots: vec![], shell_plugin_id: Some(" shell.a ".into()) };
    assert!(!host.developer_effective(None));
    assert!(host.developer_effective(Some(" TRUE ")));
    assert!(!host.developer_effective(Some("on")));
    let dev = HostPluginsFile { developer_mode: true, extra_plugin_roots: vec![], shell_plugin_id: None };
    assert!(dev.developer_effective(None));
    assert_eq!(resolve_shell_plugin_id(Some(" env.s "), "role.s", &host, &vec![]).as_deref(), Some("env.s"));
    assert_eq!(resolve_shell_plugin_id(None, " role.s ", &host, &vec![]).as_deref(), Some("role.s"));
    assert_eq!(resolve_shell_plugin_id(Some(""), "", &host, &vec![]).as_deref(), Some("shell.a"));
    assert_eq!(resolve_shell_plugin_id(None, "", &host, &vec!["shell.a".to_string()]), None);
}

#[test]
fn subscribed_events_are_trimmed_sorted_and_unique() {
    let lists = vec![
        vec![" role:switched ".to_string(), "message:sent".to_string(), "".to_string()],
        vec!["message:sent".to_string(), "a:first".to_string()],
    ];
    assert_eq!(merge_bridge_events(&lists), vec!["a:first", "message:sent", "role:switched"]);
}

#[test]
fn subscribed_events_come_from_enabled_loaded_plugins() {
    let mut shell = source("shell.p", true, vec![decl("sidebar", "", "s.html", &[" theme:changed "])]);
    shell.shell_bridge_events = vec!["role:switched".into(), " ".into()];
    let slots = source("slots.p", false, vec![decl("not.embedded", "", "x.html", &["b:ev"])]);
    let off = source("off.p", false, vec![decl("sidebar", "", "o.html", &["off:ev"])]);
    let mut broken = source("broken.p", false, vec![decl("sidebar", "", "o.html", &["broken:ev"])]);
    broken.manifest_loaded = false;
    let plugins = vec![shell, slots, off, broken];
    assert_eq!(
        collect_subscribed_host_events(&plugins, &vec!["off.p".to_string()]),
        vec!["b:ev", "role:switched", "theme:changed"]
    );
}

#[test]
fn slot_picking_follows_role_state() {
    let mut a = source(
        "p.a",
        false,
        vec![
            decl("sidebar", "compact", "compact.html", &[]),
            decl("sidebar", "", "plain.html", &[]),
            decl("sidebar", "wide", "wide.html", &[]),
            decl("chat_toolbar", "x", "t1.html", &[]),
            decl("chat_toolbar", "y", "t2.html", &[]),
            decl("debug.dock", "", "  ", &[]),
            decl("custom.place", "", "c.html", &[]),
        ],
    );
    a.selected_appearances = vec![("sidebar".into(), " wide ".into())];
    let b = source("p.b", false, vec![decl("sidebar", "compact", "b.html", &[])]);
    let shell = source("p.shell", true, vec![decl("sidebar", "", "sh.html", &[])]);
    let off = source("p.off", false, vec![decl("sidebar", "", "off.html", &[])]);
    let mut c = source("p.c", false, vec![decl("sidebar", "", "c.html", &[]), decl("role.detail", "", "r.html", &[])]);
    c.selected_appearances = vec![("role.detail".into(), "missing".into())];
    let plugins = vec![a, b, shell, off, c];
    let picked = pick_plugin_ui_slots(
        &plugins,
        &vec!["p.off".to_string()],
        &vec![("sidebar".to_string(), "p.c".to_string())],
    );
    let got: Vec<(&str, &str, &str)> =
        picked.iter().map(|s| (s.plugin_id.as_str(), s.slot.as_str(), s.entry.as_str())).collect();
    assert_eq!(
        got,
        vec![
            ("p.a", "chat_toolbar", "t1.html"),
            ("p.a", "sidebar", "wide.html"),
            ("p.b", "sidebar", "b.html"),
            ("p.c", "role.detail", "r.html"),
        ]
    );
    assert_eq!(picked[1].appearance_id, "wide");
}

#[test]
fn slots_follow_configured_order_then_plugin_id() {
    let slots = vec![
        slot("zeta", "sidebar", "z.html"),
        slot("alpha", "sidebar", "a1.html"),
        slot("beta", "sidebar", "b.html"),
        slot("alpha", "sidebar", "a2.html"),
    ];
    let ordered = order_plugin_slots(slots, &vec!["beta".to_string(), "missing".to_string(), "beta".to_string()]);
    let ids: Vec<(&str, &str)> = ordered.iter().map(|s| (s.plugin_id.as_str(), s.entry.as_str())).collect();
    assert_eq!(ids, vec![("beta", "b.html"), ("alpha", "a2.html"), ("zeta", "z.html")]);
}

#[test]
fn bootstrap_lays_out_slots_and_filters_disabled_plugins() {
    let mut shell = source("p.a", true, vec![]);
    shell.shell_vue_entry = Some(" ui\\main.js ".into());
    shell.shell_bridge_events = vec!["x".into()];
    let c = source(
        "p.c",
        false,
        vec![decl("sidebar", "", "s.html", &[]), decl("chat_toolbar", "", "t.html", &[]), decl("unknown", "", "u.html", &[])],
    );
    let d = source("p.d", false, vec![decl("sidebar", "", "d.html", &[])]);
    let b = source("p.b", false, vec![decl("sidebar", "", "b.html", &["hidden"])]);
    let dto = directory_plugin_bootstrap_dto(BootstrapSources {
        plugins: vec![c, shell, b, d],
        disabled_plugin_ids: vec!["p.b".into()],
        disabled_contributions: vec![],
        force_iframe_mode: true,
        slot_orders: vec![SlotOrder { slot: "sidebar".into(), plugin_ids: vec!["p.d".into()] }],
        role_shell_plugin_id: " p.a ".into(),
        host: HostPluginsFile { developer_mode: false, extra_plugin_roots: vec![], shell_plugin_id: None },
        env_shell_plugin_id: None,
        env_developer: Some("yes".into()),
    });
    assert_eq!(dto.plugin_ids, vec!["p.a", "p.c", "p.d"]);
    assert_eq!(dto.shell_plugin_id.as_deref(), Some("p.a"));
    assert_eq!(dto.shell_url.as_deref(), Some("plugin://p.a/shell.html"));
    assert_eq!(dto.shell_vue_entry.as_deref(), Some("ui/main.js"));
    assert!(dto.force_iframe_mode);
    assert!(dto.developer_mode);
    assert_eq!(dto.subscribed_host_events, vec!["x"]);
    let slots: Vec<(&str, &str)> = dto.ui_slots.iter().map(|s| (s.slot.as_str(), s.plugin_id.as_str())).collect();
    assert_eq!(slots, vec![("chat_toolbar", "p.c"), ("sidebar", "p.d"), ("sidebar", "p.c")]);
}

#[test]
fn bootstrap_never_picks_a_disabled_shell() {
    let shell = source("p.a", true, vec![]);
    let dto = directory_plugin_bootstrap_dto(BootstrapSources {
        plugins: vec![shell],
        disabled_plugin_ids: vec!["p.a".into()],
        disabled_contributions: vec![],
        force_iframe_mode: false,
        slot_orders: vec![],
        role_shell_plugin_id: String::new(),
        host: HostPluginsFile { developer_mode: false, extra_plugin_roots: vec![], shell_plugin_id: Some("p.a".into()) },
        env_shell_plugin_id: Some("  ".into()),
        env_developer: None,
    });
    assert_eq!(dto.shell_plugin_id, None);
    assert_eq!(dto.shell_url, None);
    assert!(dto.plugin_ids.is_empty());
    assert!(!dto.developer_mode);
    assert!(dto.ui_slots.is_empty());
}

fn backends(llm: LlmBackend, prompt: PromptBackend) -> PluginBackends {
    PluginBackends {
        memory: MemoryBackend::Directory,
        emotion: EmotionBackend::Remote,
        event: EventBackend::Builtin,
        prompt,
        llm,
        agent: AgentBackend::Remote,
        directory_plugins: DirectoryPluginSlots {
            memory: Some("mem.plugin".into()),
            emotion: None,
            event: None,
            prompt: None,
            llm: Some("  ".into()),
            agent: None,
        },
    }
}

#[test]
fn directory_slots_need_plugin_ids() {
    assert!(validate_plugin_backends_slots(&backends(LlmBackend::Ollama, PromptBackend::Builtin)).is_ok());
    let err = validate_plugin_backends_slots(&backends(LlmBackend::Directory, PromptBackend::Builtin)).unwrap_err();
    assert!(err.contains("directory_plugins.llm"));
    assert!(validate_co_present_dialogue_backends(&backends(LlmBackend::Disabled, PromptBackend::Builtin)).is_err());
    assert!(validate_co_present_dialogue_backends(&backends(LlmBackend::Ollama, PromptBackend::Disabled)).is_err());
    assert!(validate_co_present_dialogue_backends(&backends(LlmBackend::Remote, PromptBackend::Remote)).is_ok());
}

#[test]
fn collect_remote_placeholder_warnings_when_env_missing() {
    let pb = backends(LlmBackend::Remote, PromptBackend::Builtin);
    let none = RemoteEndpoints { plugin_url_set: false, llm_url_set: false, agent_url_set: false };
    assert_eq!(collect_remote_backend_placeholder_warnings(&pb, &none).len(), 3);
    let all = RemoteEndpoints { plugin_url_set: true, llm_url_set: true, agent_url_set: true };
    assert!(collect_remote_backend_placeholder_warnings(&pb, &all).is_empty());
}

#[test]
fn aggregated_warnings_dedupes_across_roles() {
    let per_role = vec![
        RoleWarnings { role_id: "a".into(), warnings: vec!["w1".into(), "w2".into()] },
        RoleWarnings { role_id: "b".into(), warnings: vec!["w2".into(), "w3".into(), "w1".into()] },
    ];
    assert_eq!(aggregated_warnings(&per_role), vec!["w1", "w2", "w3"]);
}

#[test]
fn aggregated_warnings_empty_when_no_roles() {
    assert!(aggregated_warnings(&vec![]).is_empty());
}

#[test]
fn plugin_asset_paths_stay_under_the_root() {
    assert_eq!(find_plugin_asset_path("/plugins/p", ""), Err("empty rel".to_string()));
    assert_eq!(find_plugin_asset_path("/plugins/p", "a/../b"), Err("invalid rel path".to_string()));
    assert_eq!(find_plugin_asset_path("/plugins/p", "./x"), Err("invalid rel path".to_string()));
    assert_eq!(find_plugin_asset_path("/plugins/p", "ui/index.html"), Ok("/plugins/p/ui/index.html".to_string()));
    assert_eq!(find_plugin_asset_path("/plugins/p", "a//b/"), Ok("/plugins/p/a/b".to_string()));
    assert_eq!(find_plugin_asset_path("/plugins/p", "///"), Ok("/plugins/p".to_string()));
    assert_eq!(find_plugin_asset_path("/plugins/p", "a..b/c.d"), Ok("/plugins/p/a..b/c.d".to_string()));
    assert_eq!(find_plugin_asset_path("/plugins/p/", "x"), Ok("/plugins/p/x".to_string()));
}

#[test]
fn startup_health_cache_keeps_successes_and_retries_failures() {
    let mut cache = StartupHealthCache::new();
    assert_eq!(cache.cached_outcome("a", 0), None);
    cache.record("a", Err("db down".into()), vec![], 1_000);
    assert_eq!(cache.cached_outcome("a", 1_000 + FAILURE_RETRY_TTL_MS - 1), Some(Err("db down".to_string())));
    assert_eq!(cache.cached_outcome("a", 1_000 + FAILURE_RETRY_TTL_MS), None);
    cache.record("a", Ok(()), vec!["w1".into(), "w2".into()], 5_000);
    cache.record("b", Ok(()), vec!["w2".into(), "w3".into()], 6_000);
    assert_eq!(cache.cached_outcome("a", u64::MAX), Some(Ok(())));
    let mut all = cache.aggregated_warnings();
    all.sort();
    assert_eq!(all, vec!["w1", "w2", "w3"]);
    cache.record("b", Ok(()), vec![], 7_000);
    assert_eq!(cache.aggregated_warnings(), vec!["w1", "w2"]);
}

#[test]
fn session_slot_overrides_fold_into_six_slots() {
    let none = BackendParses { memory: None, emotion: None, event: None, prompt: None, llm: None, agent: None };
    let ov = |slot: Option<&str>, backend: Option<&str>, parses: BackendParses, provider: Option<&str>| SessionSlotOverride {
        slot_type: slot.map(|s| s.to_string()),
        backend: backend.map(|s| s.to_string()),
        parses,
        local_memory_provider_id: provider.map(|s| s.to_string()),
    };
    let overrides = vec![
        ov(Some("memory"), Some(" remote "), BackendParses { memory: Some(MemoryBackend::Remote), ..none }, Some(" p1 ")),
        ov(None, Some("builtin"), BackendParses { llm: Some(LlmBackend::Remote), ..none }, None),
        ov(Some("llm"), Some("  "), BackendParses { llm: Some(LlmBackend::Remote), ..none }, None),
        ov(Some("agent"), Some("bogus"), none, None),
    ];
    let out = plugin_backends_override_from_slot_session(true, &overrides).expect("override");
    assert_eq!(out.memory, Some(MemoryBackend::Remote));
    assert_eq!(out.local_memory_provider_id.as_deref(), Some("p1"));
    assert_eq!(out.llm, None);
    assert_eq!(out.agent, None);
    assert!(plugin_backends_override_from_slot_session(false, &overrides).is_none());
    let skipped = vec![ov(Some("llm"), Some(" "), none, None), ov(None, Some("x"), none, None)];
    assert!(plugin_backends_override_from_slot_session(true, &skipped).is_none());
    let cleared = vec![ov(Some("memory"), None, none, Some("  "))];
    assert!(plugin_backends_override_from_slot_session(true, &cleared).is_none());
}

#[test]
fn slot_dto_carries_its_bridge_event_allowlist() {
    let mut d = decl("sidebar", "", " \\/slots\\sidebar.html ", &[" role:switched ", "message:sent", ""]);
    d.vue_component = Some(" ui\\Panel.vue ".into());
    d.asset_url = "plugin://plugin.a/slots/sidebar.html".into();
    let dto = plugin_ui_slot_dto_from_decl("plugin.a", &d).expect("dto");
    assert_eq!(dto.plugin_id, "plugin.a");
    assert_eq!(dto.entry, "slots/sidebar.html");
    assert_eq!(dto.url, "plugin://plugin.a/slots/sidebar.html");
    assert_eq!(dto.vue_component.as_deref(), Some("ui/Panel.vue"));
    assert_eq!(dto.bridge_events, ["role:switched", "message:sent"]);
    assert!(plugin_ui_slot_dto_from_decl("plugin.a", &decl("sidebar", "", " /\\ ", &[])).is_none());
}

#[test]
fn scan_keeps_the_last_directory_per_trimmed_id_in_id_order() {
    let found = vec![
        ScannedPluginDir { id: "zeta".into(), dir: "/a/zeta".into() },
        ScannedPluginDir { id: " alpha ".into(), dir: "/a/alpha".into() },
        ScannedPluginDir { id: "alpha".into(), dir: "/b/alpha".into() },
        ScannedPluginDir { id: "mid".into(), dir: "/b/mid".into() },
    ];
    let summary = scan_plugins(&found);
    assert_eq!(summary.plugin_ids, vec!["alpha", "mid", "zeta"]);
    assert_eq!(summary.roots, vec!["/b/alpha", "/b/mid", "/a/zeta"]);
    let empty = scan_plugins(&Vec::new());
    assert!(empty.plugin_ids.is_empty() && empty.roots.is_empty());
}

#[test]
fn scan_roots_follow_the_roles_parent_cwd_app_data_and_developer_roots() {
    let host = HostPluginsFile {
        developer_mode: false,
        extra_plugin_roots: vec!["  /extra/one ".into()],
        shell_plugin_id: None,
    };
    assert_eq!(
        plugin_scan_container_roots("/data/roles", "/app", &host, None),
        vec!["/data/plugins", "plugins", "/app/plugins"]
    );
    assert_eq!(
        plugin_scan_container_roots("/data/roles", "/app/", &host, Some(" Yes ")),
        vec!["/data/plugins", "plugins", "/app/plugins", "/extra/one"]
    );
    assert_eq!(plugin_scan_roots_from(None, "", &host, None), vec!["plugins", "plugins"]);
    assert_eq!(plugin_scan_container_roots("", "/app", &host, None), vec!["plugins", "/app/plugins"]);
}
