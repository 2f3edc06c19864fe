//! Visual presentation: a visual state id becomes a performance directive
//! for the shell, from the role's portrait catalog and the distro's mode.

use vstd::prelude::*;
use crate::flags::visual_allowed;
use crate::resource::model::opt_view;
use crate::text::{ascii_lower_seq, trim};

verus! {

#[derive(Clone, Copy, Debug, PartialEq, Eq, Structural)]
pub enum PortraitAssetKind {
    Image,
    Live2d,
    Rig3d,
    Procedural,
}

#[derive(Clone, Copy, Debug, PartialEq, Eq, Structural)]
pub enum VisualPresentationBackendKind {
    Image,
    Live2d,
    Rig3d,
    Procedural,
    Directory,
}

/// Model files an asset may name beside its fallback image.
pub struct PortraitAssetResources {
    pub live2d_model: Option<String>,
    pub rig3d_model: Option<String>,
}

pub struct PortraitCatalogAsset {
    pub id: String,
    pub path: String,
    pub desc: String,
    pub tags: Vec<String>,
    pub kind: PortraitAssetKind,
    pub context: Option<String>,
    pub resources: Option<PortraitAssetResources>,
}

pub struct PortraitCatalogFile {
    pub schema_version: u32,
    pub assets: Vec<PortraitCatalogAsset>,
}

pub struct RolePackVisualPresentationConfig {
    pub enabled: bool,
    pub backend: VisualPresentationBackendKind,
}

/// What visual presentation reads of a role.
pub struct VisualPresentationRole {
    pub pack_visual_presentation_config: RolePackVisualPresentationConfig,
    pub portrait_catalog: Option<PortraitCatalogFile>,
}

/// What the shell is told to show.
#[derive(Debug)]
pub struct PerformanceDirective {
    pub visual_state_id: String,
    pub kind: String,
    pub path: Option<String>,
    pub expression: Option<String>,
    pub motion: Option<String>,
    pub fallback_image: Option<String>,
    pub live2d_model: Option<String>,
    pub rig3d_model: Option<String>,
    pub context: Option<String>,
}

pub struct DirectiveView {
    pub visual_state_id: Seq<char>,
    pub kind: Seq<char>,
    pub path: Option<Seq<char>>,
    pub expression: Option<Seq<char>>,
    pub motion: Option<Seq<char>>,
    pub fallback_image: Option<Seq<char>>,
    pub live2d_model: Option<Seq<char>>,
    pub rig3d_model: Option<Seq<char>>,
    pub context: Option<Seq<char>>,
}

impl View for PerformanceDirective {
    type V = DirectiveView;

    open spec fn view(&self) -> DirectiveView {
        DirectiveView {
            visual_state_id: self.visual_state_id@,
            kind: self.kind@,
            path: opt_view(self.path),
            expression: opt_view(self.expression),
            motion: opt_view(self.motion),
            fallback_image: opt_view(self.fallback_image),
            live2d_model: opt_view(self.live2d_model),
            rig3d_model: opt_view(self.rig3d_model),
            context: opt_view(self.context),
        }
    }
}

pub open spec fn opt_directive(d: Option<PerformanceDirective>) -> Option<DirectiveView> {
    match d {
        Some(x) => Some(x@),
        None => None,
    }
}

/// The pack enables visual presentation and the role has a catalog.
pub open spec fn presentation_active(role: VisualPresentationRole) -> bool {
    role.pack_visual_presentation_config.enabled && role.portrait_catalog is Some
}

pub fn visual_presentation_active(role: &VisualPresentationRole) -> (r: bool)
    ensures
        r == presentation_active(*role),
{
    role.pack_visual_presentation_config.enabled && role.portrait_catalog.is_some()
}

/// A directive of `kind` for asset path `path`.
pub open spec fn directive_of(
    id: Seq<char>,
    kind: Seq<char>,
    path: Seq<char>,
    motion: Option<Seq<char>>,
    live2d: Option<Seq<char>>,
    rig3d: Option<Seq<char>>,
    context: Option<Seq<char>>,
) -> DirectiveView {
    DirectiveView {
        visual_state_id: id,
        kind: kind,
        path: Some(path),
        expression: None,
        motion: motion,
        fallback_image: Some(path),
        live2d_model: live2d,
        rig3d_model: rig3d,
        context: context,
    }
}

/// Position of the first asset with id `id`.
pub open spec fn asset_pos(assets: Seq<PortraitCatalogAsset>, id: Seq<char>) -> Option<int> {
    if exists|k: int| 0 <= k < assets.len() && assets[k].id@ == id {
        Some(choose|k: int| 0 <= k < assets.len() && assets[k].id@ == id && forall|j: int| 0 <= j < k ==> assets[j].id@ != id)
    } else {
        None
    }
}

pub open spec fn resource_live2d(a: PortraitCatalogAsset) -> Option<Seq<char>> {
    match a.resources {
        Some(r) => opt_view(r.live2d_model),
        None => None,
    }
}

pub open spec fn resource_rig3d(a: PortraitCatalogAsset) -> Option<Seq<char>> {
    match a.resources {
        Some(r) => opt_view(r.rig3d_model),
        None => None,
    }
}

/// The directive an asset gives under `backend`: its own kind when the
/// backend renders it (a directory backend renders every kind), else its
/// fallback image.
pub open spec fn asset_directive(a: PortraitCatalogAsset, backend: VisualPresentationBackendKind, id: Seq<char>) -> DirectiveView {
    let image = directive_of(id, "image"@, a.path@, None, None, None, None);
    let dir = backend == VisualPresentationBackendKind::Directory;
    match a.kind {
        PortraitAssetKind::Live2d => if backend == VisualPresentationBackendKind::Live2d || dir {
            directive_of(id, "live2d"@, a.path@, Some("idle"@), resource_live2d(a), None, opt_view(a.context))
        } else {
            image
        },
        PortraitAssetKind::Rig3d => if backend == VisualPresentationBackendKind::Rig3d || dir {
            directive_of(id, "rig3d"@, a.path@, Some("idle"@), None, resource_rig3d(a), opt_view(a.context))
        } else {
            image
        },
        PortraitAssetKind::Procedural => if backend == VisualPresentationBackendKind::Procedural || dir {
            directive_of(id, "procedural"@, a.path@, None, None, None, opt_view(a.context))
        } else {
            image
        },
        PortraitAssetKind::Image => image,
    }
}

/// The directive for `visual_state_id`: none when presentation is off or
/// the catalog has no such asset.
pub open spec fn materialized(role: VisualPresentationRole, id: Seq<char>) -> Option<DirectiveView> {
    if !presentation_active(role) {
        None
    } else {
        let assets = role.portrait_catalog->0.assets@;
        match asset_pos(assets, id) {
            Some(k) => Some(asset_directive(assets[k], role.pack_visual_presentation_config.backend, id)),
            None => None,
        }
    }
}

fn copy_opt(o: &Option<String>) -> (r: Option<String>)
    ensures
        opt_view(r) == opt_view(*o),
{
    match o {
        Some(s) => Some(s.clone()),
        None => None,
    }
}

fn build_directive(
    id: &str,
    kind: &str,
    path: &String,
    motion: Option<String>,
    live2d: Option<String>,
    rig3d: Option<String>,
    context: Option<String>,
) -> (r: PerformanceDirective)
    ensures
        r@ == directive_of(id@, kind@, path@, opt_view(motion), opt_view(live2d), opt_view(rig3d), opt_view(context)),
{
    PerformanceDirective {
        visual_state_id: crate::text::owned(id),
        kind: crate::text::owned(kind),
        path: Some(path.clone()),
        expression: None,
        motion,
        fallback_image: Some(path.clone()),
        live2d_model: live2d,
        rig3d_model: rig3d,
        context,
    }
}

fn live2d_of(a: &PortraitCatalogAsset) -> (r: Option<String>)
    ensures
        opt_view(r) == resource_live2d(*a),
{
    match &a.resources {
        Some(res) => copy_opt(&res.live2d_model),
        None => None,
    }
}

fn rig3d_of(a: &PortraitCatalogAsset) -> (r: Option<String>)
    ensures
        opt_view(r) == resource_rig3d(*a),
{
    match &a.resources {
        Some(res) => copy_opt(&res.rig3d_model),
        None => None,
    }
}

fn directive_for_asset(a: &PortraitCatalogAsset, backend: VisualPresentationBackendKind, id: &str) -> (r:
    PerformanceDirective)
    ensures
        r@ == asset_directive(*a, backend, id@),
{
    proof {
        reveal_strlit("idle");
    }
    let dir = match backend {
        VisualPresentationBackendKind::Directory => true,
        _ => false,
    };
    match a.kind {
        PortraitAssetKind::Live2d => {
            if backend == VisualPresentationBackendKind::Live2d || dir {
                return build_directive(
                    id,
                    "live2d",
                    &a.path,
                    Some(crate::text::owned("idle")),
                    live2d_of(a),
                    None,
                    copy_opt(&a.context),
                );
            }
        },
        PortraitAssetKind::Rig3d => {
            if backend == VisualPresentationBackendKind::Rig3d || dir {
                return build_directive(
                    id,
                    "rig3d",
                    &a.path,
                    Some(crate::text::owned("idle")),
                    None,
                    rig3d_of(a),
                    copy_opt(&a.context),
                );
            }
        },
        PortraitAssetKind::Procedural => {
            if backend == VisualPresentationBackendKind::Procedural || dir {
                return build_directive(id, "procedural", &a.path, None, None, None, copy_opt(&a.context));
            }
        },
        PortraitAssetKind::Image => {},
    }
    build_directive(id, "image", &a.path, None, None, None, None)
}

/// The directive for `visual_state_id` from the role's catalog.
pub fn materialize_directive(role: &VisualPresentationRole, visual_state_id: &str) -> (r: Option<PerformanceDirective>)
    ensures
        opt_directive(r) == materialized(*role, visual_state_id@),
{
    if !visual_presentation_active(role) {
        return None;
    }
    let catalog = role.portrait_catalog.as_ref().unwrap();
    let assets = &catalog.assets;
    let mut k: usize = 0;
    while k < assets.len()
        invariant
            k <= assets@.len(),
            presentation_active(*role),
            assets@ == role.portrait_catalog->0.assets@,
            forall|j: int| 0 <= j < k ==> assets@[j].id@ != visual_state_id@,
        decreases assets.len() - k,
    {
        if crate::text::str_eq(assets[k].id.as_str(), visual_state_id) {
            proof {
                let ghost c = choose|c: int|
                    0 <= c < assets@.len() && assets@[c].id@ == visual_state_id@ && forall|j: int|
                        0 <= j < c ==> assets@[j].id@ != visual_state_id@;
                assert(0 <= k < assets@.len() && assets@[k as int].id@ == visual_state_id@ && forall|j: int|
                    0 <= j < k ==> assets@[j].id@ != visual_state_id@);
                assert(c == k) by {
                    if c < k {
                    } else if c > k {
                    }
                }
            }
            return Some(directive_for_asset(&assets[k], role.pack_visual_presentation_config.backend, visual_state_id));
        }
        k = k + 1;
    }
    None
}

/// The distro mode, trimmed and lowercased.
pub open spec fn mode_key(mode: Seq<char>) -> Seq<char> {
    ascii_lower_seq(trim(mode))
}

/// A directive passes the distro mode: no mode, blank or `off` suppress
/// it; `image_only` lets only image directives through.
pub open spec fn directive_passes(mode: Option<Seq<char>>, kind: Seq<char>) -> bool {
    match mode {
        None => false,
        Some(m) => {
            let t = mode_key(m);
            !(t.len() == 0 || t == "off"@) && !(t == "image_only"@ && kind != "image"@)
        },
    }
}

pub fn filter_directive_by_distro_mode(distro_mode: Option<&str>, directive: PerformanceDirective) -> (r: Option<
    PerformanceDirective,
>)
    ensures
        opt_directive(r) == if directive_passes(
            match distro_mode {
                Some(m) => Some(m@),
                None => None,
            },
            directive.kind@,
        ) {
            Some(directive@)
        } else {
            None
        },
{
    let m = match distro_mode {
        Some(m) => m,
        None => return None,
    };
    let t = crate::text::ascii_lower_vec(&crate::text::trim_chars(m));
    let off = crate::text::chars_of("off");
    if t.len() == 0 || crate::text::seq_eq(&t, &off) {
        return None;
    }
    let image_only = crate::text::chars_of("image_only");
    let image = crate::text::chars_of("image");
    let kind = crate::text::chars_of(directive.kind.as_str());
    if crate::text::seq_eq(&t, &image_only) && !crate::text::seq_eq(&kind, &image) {
        return None;
    }
    Some(directive)
}

/// Visual presentation is on: the pack enables it and the distro mode,
/// when there is one, allows it.
pub open spec fn presentation_enabled(pack: RolePackVisualPresentationConfig, mode: Option<Seq<char>>) -> bool {
    pack.enabled && match mode {
        Some(m) => visual_allowed(m),
        None => true,
    }
}

pub fn effective_visual_presentation_enabled(pack: &RolePackVisualPresentationConfig, distro_mode: Option<&str>) -> (r:
    bool)
    ensures
        r == presentation_enabled(
            *pack,
            match distro_mode {
                Some(m) => Some(m@),
                None => None,
            },
        ),
{
    if !pack.enabled {
        return false;
    }
    match distro_mode {
        Some(mode) => crate::flags::distro_allows_visual_presentation(mode),
        None => true,
    }
}

/// The directive after the pack switch and the distro mode gate it.
pub fn materialize_directive_gated(role: &VisualPresentationRole, visual_state_id: &str, distro_mode: Option<&str>) -> (r:
    Option<PerformanceDirective>)
    ensures
        ({
            let mode = match distro_mode {
                Some(m) => Some(m@),
                None => None,
            };
            opt_directive(r) == if !presentation_enabled(role.pack_visual_presentation_config, mode) {
                None
            } else {
                match materialized(*role, visual_state_id@) {
                    Some(d) => if directive_passes(mode, d.kind) { Some(d) } else { None },
                    None => None,
                }
            }
        }),
{
    if !effective_visual_presentation_enabled(&role.pack_visual_presentation_config, distro_mode) {
        return None;
    }
    match materialize_directive(role, visual_state_id) {
        Some(d) => filter_directive_by_distro_mode(distro_mode, d),
        None => None,
    }
}

} // verus!
