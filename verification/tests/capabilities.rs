use oclive_host::capabilities::{
    build_capability_registry, dependency_report, provider_availability, provider_diagnostic,
    registered_consumers, versions_by_id, CapabilityConsumerKind, CapabilityPermissionDiagnostic,
    CapabilityProviderAvailability, CapabilityProviderInput, PluginManifestInfo,
};

fn manifest(id: &str, version: &str) -> PluginManifestInfo {
    PluginManifestInfo {
        id: id.to_string(),
        version: version.to_string(),
        schema_version: 1,
        provides: vec![],
        permissions: vec![],
        has_process: false,
        dependencies: None,
    }
}

fn voice_plugin() -> CapabilityProviderInput {
    CapabilityProviderInput {
        plugin_id: "com.example.voice".to_string(),
        manifest: PluginManifestInfo {
            provides: vec!["voice.asr".to_string()],
            permissions: vec!["process:spawn".to_string()],
            has_process: true,
            ..manifest("com.example.voice", "1.0.0")
        },
        disabled: false,
        spawn_declared: true,
        granted: vec![],
    }
}

#[test]
fn registry_reports_permission_gap_without_starting_provider() {
    let registry = build_capability_registry("desktop", &vec![voice_plugin()]);
    assert_eq!(registry.providers.len(), 1);
    assert_eq!(
        registry.providers[0].availability,
        CapabilityProviderAvailability::PermissionRequired
    );
    assert_eq!(
        registry.providers[0].permissions,
        vec![CapabilityPermissionDiagnostic {
            permission: "process:spawn".into(),
            granted: false,
        }]
    );
    assert!(registry
        .consumers
        .iter()
        .any(|consumer| consumer.capability == "voice.asr"));
}

#[test]
fn registered_consumers_are_distro_specific() {
    let desktop = registered_consumers("desktop");
    let vscode = registered_consumers("vscode");
    assert!(desktop
        .iter()
        .any(|consumer| consumer.capability == "voice.asr"));
    assert!(vscode.is_empty());
}

#[test]
fn default_and_blank_distros_host_the_voice_consumer() {
    for distro in ["", "  ", "default", "desktop-chat"] {
        let consumers = registered_consumers(distro);
        assert_eq!(consumers.len(), 1);
        assert_eq!(consumers[0].consumer_id, "chat_pro.voice");
        assert_eq!(consumers[0].kind, CapabilityConsumerKind::SideChannel);
    }
}

#[test]
fn granted_process_provider_is_ready() {
    let mut plugin = voice_plugin();
    plugin.granted = vec!["process:spawn".to_string()];
    let registry = build_capability_registry("vscode", &vec![plugin]);
    assert!(registry.consumers.is_empty());
    assert_eq!(registry.distro_id, "vscode");
    let provider = &registry.providers[0];
    assert_eq!(provider.availability, CapabilityProviderAvailability::Ready);
    assert!(provider.reason_codes.is_empty());
    assert_eq!(provider.provides, vec!["voice.asr".to_string()]);
    assert!(provider.permissions[0].granted);
}

#[test]
fn providers_come_out_ordered_by_id() {
    let mut b = voice_plugin();
    b.plugin_id = "b.plugin".to_string();
    let mut a = voice_plugin();
    a.plugin_id = "a.plugin".to_string();
    let registry = build_capability_registry("desktop", &vec![b, a]);
    let ids: Vec<&str> = registry
        .providers
        .iter()
        .map(|p| p.provider_id.as_str())
        .collect();
    assert_eq!(ids, vec!["a.plugin", "b.plugin"]);
}

#[test]
fn availability_prefers_manifest_incompatibility_and_lists_every_reason() {
    let permissions = vec![CapabilityPermissionDiagnostic {
        permission: "process:spawn".to_string(),
        granted: false,
    }];
    let (availability, reasons) = provider_availability(true, true, false, "missing", &permissions);
    assert_eq!(availability, CapabilityProviderAvailability::ManifestIncompatible);
    assert_eq!(
        reasons,
        vec![
            "provider_dependency_unavailable".to_string(),
            "provider_disabled".to_string(),
            "provider_manifest_incompatible".to_string(),
            "provider_permission_required".to_string(),
        ]
    );
}

#[test]
fn availability_of_each_single_reason() {
    let none: Vec<CapabilityPermissionDiagnostic> = vec![];
    assert_eq!(
        provider_availability(true, true, true, "ok", &none),
        (
            CapabilityProviderAvailability::Disabled,
            vec!["provider_disabled".to_string()]
        )
    );
    assert_eq!(
        provider_availability(false, false, true, "ok", &none),
        (
            CapabilityProviderAvailability::NotExecutable,
            vec!["provider_not_executable".to_string()]
        )
    );
    assert_eq!(
        provider_availability(false, true, true, "mismatch", &none),
        (
            CapabilityProviderAvailability::DependencyUnavailable,
            vec!["provider_dependency_unavailable".to_string()]
        )
    );
    assert_eq!(
        provider_availability(false, true, true, "ok", &none),
        (CapabilityProviderAvailability::Ready, vec![])
    );
}

#[test]
fn dependency_report_without_dependencies_is_ok() {
    let (status, issues) = dependency_report("me", &None, &vec![]);
    assert_eq!(status, "ok");
    assert!(issues.is_empty());
    let (status, issues) = dependency_report("me", &Some(vec![]), &vec![]);
    assert_eq!(status, "ok");
    assert!(issues.is_empty());
}

#[test]
fn dependency_report_finds_missing_and_mismatched_dependencies() {
    let versions = vec![("lib.a".to_string(), "1.2.0".to_string())];
    let deps = Some(vec![
        (" lib.a ".to_string(), ">=2.0".to_string()),
        ("lib.b".to_string(), " ^1 ".to_string()),
        ("me".to_string(), "^9".to_string()),
        ("".to_string(), "^1".to_string()),
    ]);
    let (status, issues) = dependency_report(" me ", &deps, &versions);
    assert_eq!(status, "missing");
    assert_eq!(
        issues,
        vec![
            "Dependency version mismatch: lib.a requires >=2.0, found 1.2.0".to_string(),
            "Missing dependency: lib.b (requires ^1)".to_string(),
        ]
    );
}

#[test]
fn dependency_report_accepts_satisfied_ranges() {
    let versions = vec![("lib.a".to_string(), "1.2.0".to_string())];
    let deps = Some(vec![("lib.a".to_string(), "^1.1".to_string())]);
    let (status, issues) = dependency_report("me", &deps, &versions);
    assert_eq!(status, "ok");
    assert!(issues.is_empty());
}

#[test]
fn dependency_report_flags_invalid_ranges_as_mismatch() {
    let deps = Some(vec![("lib.a".to_string(), "not a range".to_string())]);
    let (status, issues) = dependency_report("me", &deps, &vec![]);
    assert_eq!(status, "mismatch");
    assert_eq!(issues.len(), 1);
    assert!(issues[0].starts_with("Invalid semver range for dependency lib.a: not a range ("));
    assert!(issues[0].ends_with(')'));
}

#[test]
fn versions_by_id_skips_unparsable_versions() {
    let inputs = vec![
        CapabilityProviderInput {
            plugin_id: "good".to_string(),
            manifest: manifest("good", "2.0.1"),
            disabled: false,
            spawn_declared: false,
            granted: vec![],
        },
        CapabilityProviderInput {
            plugin_id: "bad".to_string(),
            manifest: manifest("bad", "two"),
            disabled: false,
            spawn_declared: false,
            granted: vec![],
        },
    ];
    assert_eq!(
        versions_by_id(&inputs),
        vec![("good".to_string(), "2.0.1".to_string())]
    );
}

#[test]
fn provider_diagnostic_trims_sorts_and_dedups() {
    let m = PluginManifestInfo {
        provides: vec![" b.cap".to_string(), "a.cap".to_string(), "b.cap ".to_string(), "  ".to_string()],
        permissions: vec!["net".to_string(), " fs ".to_string()],
        has_process: true,
        ..manifest("p", "0.1.0")
    };
    let d = provider_diagnostic(
        &"p".to_string(),
        &m,
        false,
        true,
        &vec!["fs".to_string()],
        &vec![],
    );
    assert_eq!(d.provides, vec!["a.cap".to_string(), "b.cap".to_string()]);
    assert_eq!(
        d.permissions,
        vec![
            CapabilityPermissionDiagnostic { permission: "fs".to_string(), granted: true },
            CapabilityPermissionDiagnostic { permission: "net".to_string(), granted: false },
        ]
    );
    assert_eq!(d.availability, CapabilityProviderAvailability::PermissionRequired);
    assert_eq!(d.manifest_schema_version, 1);
    assert_eq!(d.version, "0.1.0");
}
