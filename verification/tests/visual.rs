use oclive_host::visual::{
    effective_visual_presentation_enabled, filter_directive_by_distro_mode, materialize_directive,
    materialize_directive_gated, visual_presentation_active, PortraitAssetKind, PortraitAssetResources,
    PortraitCatalogAsset, PortraitCatalogFile, RolePackVisualPresentationConfig, VisualPresentationBackendKind,
    VisualPresentationRole,
};

fn role_with_catalog(enabled_vp: bool) -> VisualPresentationRole {
    VisualPresentationRole {
        portrait_catalog: Some(PortraitCatalogFile {
            schema_version: 1,
            assets: vec![PortraitCatalogAsset {
                id: "happy_default".to_string(),
                path: "assets/images/happy.webp".to_string(),
                desc: "开心".to_string(),
                tags: vec!["happy".to_string()],
                kind: PortraitAssetKind::Image,
                context: None,
                resources: None,
            }],
        }),
        pack_visual_presentation_config: RolePackVisualPresentationConfig {
            enabled: enabled_vp,
            backend: VisualPresentationBackendKind::Image,
        },
    }
}

#[test]
fn materialize_when_enabled() {
    let role = role_with_catalog(true);
    let d = materialize_directive(&role, "happy_default").expect("directive");
    assert_eq!(d.kind, "image");
    assert_eq!(d.path.as_deref(), Some("assets/images/happy.webp"));
}

#[test]
fn no_directive_when_disabled() {
    let role = role_with_catalog(false);
    assert!(materialize_directive(&role, "happy_default").is_none());
}

#[test]
fn distro_off_suppresses_gated_directive() {
    let role = role_with_catalog(true);
    assert!(materialize_directive_gated(&role, "happy_default", Some("off")).is_none());
}

#[test]
fn image_only_blocks_live2d_kind() {
    let mut role = role_with_catalog(true);
    role.portrait_catalog.as_mut().unwrap().assets[0].kind = PortraitAssetKind::Live2d;
    role.pack_visual_presentation_config.backend = VisualPresentationBackendKind::Live2d;
    let d = materialize_directive(&role, "happy_default").expect("live2d directive");
    assert_eq!(d.kind, "live2d");
    assert!(filter_directive_by_distro_mode(Some("image_only"), d).is_none());
}

#[test]
fn backend_that_cannot_render_a_kind_falls_back_to_the_image() {
    let mut role = role_with_catalog(true);
    {
        let asset = &mut role.portrait_catalog.as_mut().unwrap().assets[0];
        asset.kind = PortraitAssetKind::Rig3d;
        asset.context = Some("stage".into());
        asset.resources = Some(PortraitAssetResources { live2d_model: None, rig3d_model: Some("m.vrm".into()) });
    }
    let d = materialize_directive(&role, "happy_default").expect("image fallback");
    assert_eq!(d.kind, "image");
    assert_eq!(d.fallback_image.as_deref(), Some("assets/images/happy.webp"));
    assert_eq!(d.context, None);
    role.pack_visual_presentation_config.backend = VisualPresentationBackendKind::Directory;
    let d = materialize_directive(&role, "happy_default").expect("rig3d");
    assert_eq!(d.kind, "rig3d");
    assert_eq!(d.motion.as_deref(), Some("idle"));
    assert_eq!(d.rig3d_model.as_deref(), Some("m.vrm"));
    assert_eq!(d.context.as_deref(), Some("stage"));
    assert!(materialize_directive(&role, "missing").is_none());
    assert!(visual_presentation_active(&role));
}

#[test]
fn distro_modes_gate_presentation() {
    let role = role_with_catalog(true);
    assert!(effective_visual_presentation_enabled(&role.pack_visual_presentation_config, None));
    assert!(!effective_visual_presentation_enabled(&role.pack_visual_presentation_config, Some("  OFF ")));
    assert!(materialize_directive_gated(&role, "happy_default", Some("image_only")).is_some());
    assert!(materialize_directive_gated(&role, "happy_default", Some("stage_full")).is_some());
    let d = materialize_directive(&role, "happy_default").unwrap();
    assert!(filter_directive_by_distro_mode(None, d).is_none());
}
