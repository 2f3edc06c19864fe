use oclive_host::lora::{
    check_installed_architecture, check_installed_checksum, check_installed_id, check_manifest_size,
    check_not_active, check_package_checksum, check_packaged_adapter, check_replacement, count_copied,
    finish_package_manifest, import_source_kind, listed_directory, manifest_to_dto, normalize_optional,
    not_installed_message, order_adapter_listing, package_adapter_entry, package_manifest_entry,
    raw_manifest, validate_adapter_id, validate_manifest, validate_package_path, AdapterManifest,
    ImportSourceKind, LoraContentRating, ManifestPlace,
};

const SHA: &str = "0123456789abcdef0123456789abcdef0123456789abcdef0123456789abcdef";

fn packaged(adapter_file: &str, sha256: &str) -> AdapterManifest {
    AdapterManifest {
        schema_version: 1,
        id: "fixture.package".to_string(),
        name: "Packaged fixture".to_string(),
        version: "1.0.0".to_string(),
        format: "llama.cpp-lora-gguf".to_string(),
        adapter_file: adapter_file.to_string(),
        adapter_sha256: sha256.to_string(),
        base_model: Some("fixture-base".to_string()),
        architecture: Some("llama".to_string()),
        content_rating: LoraContentRating::Adult,
        description: Some("fixture".to_string()),
        license: Some("test-only".to_string()),
        source: None,
        installed_at: String::new(),
    }
}

#[test]
fn adapter_ids_are_trimmed_and_restricted() {
    assert_eq!(validate_adapter_id("  my.adapter_1-x "), Ok("my.adapter_1-x".to_string()));
    let message = "adapter id must contain only ASCII letters, digits, '.', '_' or '-'".to_string();
    assert_eq!(validate_adapter_id(".hidden"), Err(message.clone()));
    assert_eq!(validate_adapter_id("   "), Err(message.clone()));
    assert_eq!(validate_adapter_id("a/b"), Err(message.clone()));
    assert_eq!(validate_adapter_id("é"), Err(message.clone()));
    assert!(validate_adapter_id(&"a".repeat(96)).is_ok());
    assert_eq!(validate_adapter_id(&"a".repeat(97)), Err(message));
}

#[test]
fn package_paths_must_be_relative_gguf_without_traversal() {
    assert_eq!(
        validate_package_path("weights\\adapter.gguf"),
        Ok("weights/adapter.gguf".to_string())
    );
    assert_eq!(validate_package_path("adapter.GGUF"), Ok("adapter.GGUF".to_string()));
    assert_eq!(validate_package_path("sub/deeper//adapter.gguf"), Ok("sub/deeper//adapter.gguf".to_string()));
    let refusal = Err("adapterFile must be a relative GGUF path without parent traversal".to_string());
    assert_eq!(validate_package_path("../adapter.gguf"), refusal);
    assert_eq!(validate_package_path("/abs/adapter.gguf"), refusal);
    assert_eq!(validate_package_path("adapter.bin"), refusal);
    assert_eq!(validate_package_path(".gguf"), refusal);
    assert_eq!(validate_package_path(""), refusal);
}

#[test]
fn ocadapter_rejects_parent_traversal_in_its_manifest() {
    let error = validate_manifest(packaged("../adapter.gguf", SHA)).expect_err("traversal");
    assert!(error.contains("without parent traversal"));
}

#[test]
fn manifests_are_normalised() {
    let mut m = packaged("weights/adapter.gguf", &SHA.to_uppercase());
    m.id = "  fixture.package ".to_string();
    m.name = " Packaged fixture ".to_string();
    let v = validate_manifest(m).expect("valid manifest");
    assert_eq!(v.id, "fixture.package");
    assert_eq!(v.name, "Packaged fixture");
    assert_eq!(v.adapter_sha256, SHA);
    assert_eq!(v.adapter_file, "weights/adapter.gguf");
    assert_eq!(v.content_rating, LoraContentRating::Adult);
}

#[test]
fn validating_a_validated_manifest_changes_nothing() {
    let mut m = packaged("adapter.gguf", &SHA.to_uppercase());
    m.version = " 2.0 ".to_string();
    let once = validate_manifest(m).expect("first");
    let twice = validate_manifest(AdapterManifest {
        id: once.id.clone(),
        name: once.name.clone(),
        version: once.version.clone(),
        format: once.format.clone(),
        adapter_file: once.adapter_file.clone(),
        adapter_sha256: once.adapter_sha256.clone(),
        base_model: once.base_model.clone(),
        architecture: once.architecture.clone(),
        description: once.description.clone(),
        license: once.license.clone(),
        source: once.source.clone(),
        installed_at: once.installed_at.clone(),
        ..once
    })
    .expect("second");
    assert_eq!(twice.version, "2.0");
    assert_eq!(twice.adapter_sha256, SHA);
    assert_eq!(twice.id, "fixture.package");
}

#[test]
fn manifest_errors_come_in_order() {
    let mut m = packaged("adapter.gguf", SHA);
    m.schema_version = 2;
    m.format = "other".to_string();
    assert_eq!(
        validate_manifest(m).unwrap_err(),
        "unsupported .ocadapter schemaVersion 2; expected 1"
    );
    let mut m = packaged("adapter.gguf", SHA);
    m.format = " other ".to_string();
    assert_eq!(
        validate_manifest(m).unwrap_err(),
        "unsupported adapter format 'other'; expected llama.cpp-lora-gguf"
    );
    let mut m = packaged("adapter.gguf", SHA);
    m.name = "   ".to_string();
    assert_eq!(
        validate_manifest(m).unwrap_err(),
        "adapter name must contain 1 to 160 characters"
    );
    let mut m = packaged("adapter.gguf", SHA);
    m.version = "v".repeat(65);
    assert_eq!(
        validate_manifest(m).unwrap_err(),
        "adapter version must contain 1 to 64 characters"
    );
    let m = packaged("adapter.gguf", "0".repeat(63).as_str());
    assert_eq!(
        validate_manifest(m).unwrap_err(),
        "adapterSha256 must be a 64-character SHA-256"
    );
}

#[test]
fn raw_import_manifest_uses_request_name_or_file_stem() {
    let m = raw_manifest(
        Some(" Fixture adapter "),
        "/tmp/import/fixture.gguf",
        SHA,
        Some("  fixture-base.gguf ".to_string()),
        Some("llama".to_string()),
        LoraContentRating::General,
        "2024-01-01T00:00:00+00:00".to_string(),
    )
    .expect("raw manifest");
    assert_eq!(m.id, "local.lora.0123456789abcdef");
    assert_eq!(m.name, "Fixture adapter");
    assert_eq!(m.version, "0.0.0-local");
    assert_eq!(m.adapter_file, "adapter.gguf");
    assert_eq!(m.base_model.as_deref(), Some("fixture-base.gguf"));
    assert_eq!(m.architecture.as_deref(), Some("llama"));

    let m = raw_manifest(
        Some("   "),
        "/tmp/import/fixture.gguf",
        SHA,
        Some("   ".to_string()),
        None,
        LoraContentRating::General,
        String::new(),
    )
    .expect("raw manifest");
    assert_eq!(m.name, "fixture");
    assert_eq!(m.base_model, None);
}

#[test]
fn optional_text_is_trimmed_and_cut() {
    assert_eq!(normalize_optional(Some(" abcdef ".to_string()), 3), Some("abc".to_string()));
    assert_eq!(normalize_optional(Some("  ".to_string()), 3), None);
    assert_eq!(normalize_optional(None, 3), None);
}

#[test]
fn packages_need_exactly_one_manifest_and_adapter_entry() {
    let names = vec!["adapter.json".to_string(), "weights\\adapter.gguf".to_string()];
    assert_eq!(package_manifest_entry(&names), Ok(0));
    assert_eq!(package_adapter_entry(&names, "weights/adapter.gguf"), Ok(()));
    assert_eq!(
        package_adapter_entry(&names, "other.gguf"),
        Err(".ocadapter must contain exactly one 'other.gguf' entry".to_string())
    );
    let twice = vec!["adapter.json".to_string(), "adapter.json".to_string()];
    assert_eq!(
        package_manifest_entry(&twice),
        Err(".ocadapter must contain exactly one root adapter.json".to_string())
    );
    assert!(package_manifest_entry(&vec!["nested/adapter.json".to_string()]).is_err());
}

#[test]
fn ocadapter_import_checks_manifest_and_checksum() {
    assert_eq!(check_package_checksum(SHA, SHA), Ok(()));
    let error = check_package_checksum(SHA, &"0".repeat(64)).expect_err("mismatch");
    assert!(error.contains("SHA-256"));

    let m = finish_package_manifest(
        packaged("weights/adapter.gguf", SHA),
        Some("LLAMA".to_string()),
        "now".to_string(),
    )
    .expect("matching architecture");
    assert_eq!(m.adapter_file, "adapter.gguf");
    assert_eq!(m.architecture.as_deref(), Some("llama"));
    assert_eq!(m.installed_at, "now");
    assert_eq!(m.content_rating, LoraContentRating::Adult);

    let mut no_arch = packaged("weights/adapter.gguf", SHA);
    no_arch.architecture = None;
    let m = finish_package_manifest(no_arch, Some("qwen2".to_string()), "now".to_string()).unwrap();
    assert_eq!(m.architecture.as_deref(), Some("qwen2"));

    assert_eq!(
        finish_package_manifest(packaged("a.gguf", SHA), Some("qwen2".to_string()), String::new())
            .unwrap_err(),
        "adapter architecture mismatch: manifest 'llama', GGUF 'qwen2'"
    );
}

#[test]
fn replace_requires_explicit_flag_and_active_adapters_are_protected() {
    let error = check_replacement(true, false, "local.lora.x").unwrap_err();
    assert!(error.contains("already installed"));
    assert_eq!(check_replacement(true, true, "local.lora.x"), Ok(()));
    assert_eq!(check_replacement(false, false, "local.lora.x"), Ok(()));
    let error = check_not_active(Some(" local.lora.x "), "local.lora.x").unwrap_err();
    assert!(error.contains("deactivate"));
    assert_eq!(check_not_active(Some("other"), "local.lora.x"), Ok(()));
    assert_eq!(check_not_active(None, "local.lora.x"), Ok(()));
}

#[test]
fn installed_adapter_checks() {
    assert_eq!(check_installed_id("a", "a"), Ok(()));
    assert_eq!(
        check_installed_id("a", "b"),
        Err("installed adapter directory id does not match manifest id".to_string())
    );
    assert_eq!(
        check_installed_checksum("x", "y", "a"),
        Err("installed LoRA adapter 'a' failed checksum verification".to_string())
    );
    assert_eq!(not_installed_message("a"), "LoRA adapter 'a' is not installed");
    assert!(check_installed_architecture(&Some("Llama".into()), &Some("llama".into())).is_ok());
    assert!(check_installed_architecture(&None, &Some("llama".into())).is_ok());
    assert_eq!(
        check_installed_architecture(&Some("qwen".into()), &Some("llama".into())),
        Err("installed adapter architecture metadata mismatch".to_string())
    );
    assert!(listed_directory("local.lora.x", true));
    assert!(!listed_directory(".import-1", true));
    assert!(!listed_directory("file", false));
}

#[test]
fn sizes_are_limited() {
    assert_eq!(check_manifest_size(1024 * 1024, ManifestPlace::Packaged), Ok(()));
    assert_eq!(
        check_manifest_size(1024 * 1024 + 1, ManifestPlace::Packaged),
        Err("adapter.json exceeds the 1 MiB safe limit".to_string())
    );
    assert_eq!(
        check_manifest_size(u64::MAX, ManifestPlace::Installed),
        Err("installed adapter manifest exceeds the safe limit".to_string())
    );
    let limit = 16 * 1024 * 1024 * 1024_u64;
    assert_eq!(check_packaged_adapter(false, limit), Ok(()));
    assert!(check_packaged_adapter(true, 1).is_err());
    assert!(check_packaged_adapter(false, limit + 1).is_err());
    assert_eq!(count_copied(10, 5), Ok(15));
    assert_eq!(
        count_copied(limit, 1),
        Err("adapter exceeds the 16 GiB managed import limit".to_string())
    );
    assert_eq!(count_copied(u64::MAX, 1), Err("adapter size overflow".to_string()));
}

#[test]
fn import_sources_are_gguf_or_ocadapter() {
    assert_eq!(import_source_kind(" /tmp/a.GGUF "), Ok(ImportSourceKind::Gguf));
    assert_eq!(import_source_kind("/tmp/a.ocadapter"), Ok(ImportSourceKind::Package));
    assert_eq!(
        import_source_kind("/tmp/a.txt"),
        Err("LoRA import accepts only llama.cpp adapter .gguf or .ocadapter files".to_string())
    );
    assert!(import_source_kind("/tmp/noext").is_err());
}

#[test]
fn listing_is_marked_active_and_ordered() {
    let m = validate_manifest(packaged("adapter.gguf", SHA)).unwrap();
    let dto = manifest_to_dto(&m, 42, Some("fixture.package"));
    assert!(dto.active);
    assert_eq!(dto.size_bytes, 42);
    assert_eq!(dto.file_name, "adapter.gguf");
    assert_eq!(dto.sha256, SHA);
    assert!(!manifest_to_dto(&m, 42, None).active);

    let named = |name: &str, id: &str| {
        let mut dto = manifest_to_dto(&m, 1, None);
        dto.name = name.to_string();
        dto.id = id.to_string();
        dto
    };
    let ordered = order_adapter_listing(vec![
        named("beta", "b"),
        named("Alpha", "z"),
        named("alpha", "a"),
    ]);
    let ids: Vec<&str> = ordered.iter().map(|d| d.id.as_str()).collect();
    assert_eq!(ids, vec!["a", "z", "b"]);
}
