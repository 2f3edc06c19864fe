use oclive_host::local_models::{
    check_local_model_manifest, check_model_checksum, is_model_file, is_reserved_model_subdirectory,
    local_model_descriptor, order_model_listing, LocalModelFileDto, LocalModelManifest,
};
use oclive_host::lora::LoraContentRating;

fn manifest() -> LocalModelManifest {
    LocalModelManifest {
        schema_version: 1,
        kind: "oclive-local-model".to_string(),
        file_name: "Base.GGUF".to_string(),
        name: "Base model".to_string(),
        content_rating: LoraContentRating::Adult,
        description: Some("d".to_string()),
        license: None,
        source: None,
        sha256: Some("ab".repeat(32)),
    }
}

fn model(name: &str, path: &str) -> LocalModelFileDto {
    LocalModelFileDto {
        name: name.to_string(),
        path: path.to_string(),
        size_bytes: 1,
        content_rating: LoraContentRating::General,
        description: None,
        license: None,
        source: None,
        sha256: None,
    }
}

#[test]
fn sidecar_manifests_are_checked_in_order() {
    let at = "/m/base.gguf.json";
    assert_eq!(check_local_model_manifest(at, &manifest(), "base.gguf", 1, "oclive-local-model"), Ok(()));
    assert_eq!(
        check_local_model_manifest(at, &manifest(), "base.gguf", 2, "oclive-local-model"),
        Err("/m/base.gguf.json uses unsupported schemaVersion 1".to_string())
    );
    assert_eq!(
        check_local_model_manifest(at, &manifest(), "base.gguf", 1, "other"),
        Err("/m/base.gguf.json has unsupported kind 'oclive-local-model'".to_string())
    );
    assert_eq!(
        check_local_model_manifest(at, &manifest(), "other.gguf", 1, "oclive-local-model"),
        Err("/m/base.gguf.json targets 'Base.GGUF' instead of 'other.gguf'".to_string())
    );
    let mut blank = manifest();
    blank.name = "  ".to_string();
    assert_eq!(
        check_local_model_manifest(at, &blank, "base.gguf", 1, "oclive-local-model"),
        Err("/m/base.gguf.json has an empty name".to_string())
    );
    let mut bad_sha = manifest();
    bad_sha.sha256 = Some("xyz".to_string());
    assert_eq!(
        check_local_model_manifest(at, &bad_sha, "base.gguf", 1, "oclive-local-model"),
        Err("/m/base.gguf.json has an invalid sha256".to_string())
    );
}

#[test]
fn descriptors_use_the_manifest_or_the_file_name() {
    let d = local_model_descriptor("/m/base.gguf", 7, Some(manifest()));
    assert_eq!(d.name, "Base model");
    assert_eq!(d.content_rating, LoraContentRating::Adult);
    assert_eq!(d.size_bytes, 7);
    let d = local_model_descriptor("/m/base.gguf", 7, None);
    assert_eq!(d.name, "base.gguf");
    assert_eq!(d.content_rating, LoraContentRating::General);
    assert_eq!(d.sha256, None);
}

#[test]
fn declared_model_checksums_compare_ignoring_case() {
    assert_eq!(check_model_checksum("/m/a.gguf", "ABCD", "abcd"), Ok(()));
    assert_eq!(
        check_model_checksum("/m/a.gguf", "ab", "cd"),
        Err("local base model SHA-256 mismatch for '/m/a.gguf': expected ab, got cd".to_string())
    );
}

#[test]
fn model_files_and_reserved_folders() {
    assert!(is_model_file("/m/a.GGUF"));
    assert!(is_model_file("/m/a.bin"));
    assert!(!is_model_file("/m/a.safetensors"));
    assert!(is_reserved_model_subdirectory("/m/Adapters"));
    assert!(is_reserved_model_subdirectory("/m/downloads"));
    assert!(!is_reserved_model_subdirectory("/m/qwen"));
    assert!(is_reserved_model_subdirectory("models/nested/downloads/"));
    assert!(is_model_file("models/nested/q.bin"));
    assert!(!is_model_file("models/nested.gguf/readme"));
}

#[test]
fn model_listing_is_sorted_and_deduplicated() {
    let listed = order_model_listing(vec![
        model("zeta.gguf", "/m/zeta.gguf"),
        model("Alpha.gguf", "/m/Alpha.gguf"),
        model("alpha.gguf", "/m/ALPHA.GGUF"),
        model("beta", "/m/child/beta.gguf"),
    ]);
    let paths: Vec<&str> = listed.iter().map(|m| m.path.as_str()).collect();
    assert_eq!(paths, vec!["/m/Alpha.gguf", "/m/child/beta.gguf", "/m/zeta.gguf"]);
}
