//! The capability registry: who consumes host capabilities, which
//! directory plugins provide them, and whether each provider can run.

use vstd::prelude::*;
use crate::resource::model::strs;
use crate::text::{lex_le, trim, views};
use crate::resource::headroom::{add_reason, distinct_strs, reason_set};
use crate::resource::compile::strictly_sorted;

verus! {

/// Whether the `semver` requirement `range` fails to parse, and how.
pub uninterp spec fn semver_req_error(range: Seq<char>) -> Option<Seq<char>>;

/// Whether `text` parses as a `semver` version.
pub uninterp spec fn semver_version_parses(text: Seq<char>) -> bool;

/// Whether version `version` satisfies requirement `range` under `semver`.
pub uninterp spec fn semver_matches(range: Seq<char>, version: Seq<char>) -> bool;

/// Calls `semver::VersionReq::parse`. Trusted: none when `range` parses,
/// else the parse error's message.
#[verifier::external_body]
fn version_req_error(range: &str) -> (r: Option<String>)
    ensures
        match r {
            Some(e) => semver_req_error(range@) == Some(e@),
            None => semver_req_error(range@) is None,
        },
{
    match semver::VersionReq::parse(range) {
        Ok(_) => None,
        Err(e) => Some(e.to_string()),
    }
}

/// Calls `semver::Version::parse`. Trusted: whether `text` is a version.
#[verifier::external_body]
fn version_is_semver(text: &str) -> (r: bool)
    ensures
        r == semver_version_parses(text@),
{
    semver::Version::parse(text).is_ok()
}

/// Calls `semver::VersionReq::matches` on the parsed requirement and
/// version. Trusted: whether the version satisfies the requirement.
#[verifier::external_body]
fn range_matches(range: &str, version: &str) -> (r: bool)
    requires
        semver_req_error(range@) is None,
        semver_version_parses(version@),
    ensures
        r == semver_matches(range@, version@),
{
    match (semver::VersionReq::parse(range), semver::Version::parse(version)) {
        (Ok(req), Ok(v)) => req.matches(&v),
        _ => false,
    }
}

#[derive(Clone, Copy, Debug, PartialEq, Eq, Structural)]
pub enum CapabilityConsumerKind {
    SideChannel,
}

/// A host feature that consumes a capability.
#[derive(Debug, PartialEq, Eq)]
pub struct CapabilityConsumerDiagnostic {
    pub capability: String,
    pub kind: CapabilityConsumerKind,
    pub consumer_id: String,
}

/// Distros that host the chat-pro surface.
pub open spec fn chat_pro_distro(distro_id: Seq<char>) -> bool {
    let t = trim(distro_id);
    t.len() == 0 || t == "default"@ || t == "desktop"@ || t == "desktop-chat"@
}

/// The capability consumers a distro registers: chat-pro hosts consume
/// `voice.asr` for their voice side channel.
pub fn registered_consumers(distro_id: &str) -> (r: Vec<CapabilityConsumerDiagnostic>)
    ensures
        chat_pro_distro(distro_id@) ==> r@.len() == 1 && r@[0].capability@ == "voice.asr"@ && r@[0].kind
            == CapabilityConsumerKind::SideChannel && r@[0].consumer_id@ == "chat_pro.voice"@,
        !chat_pro_distro(distro_id@) ==> r@.len() == 0,
{
    let t = crate::text::trim_chars(distro_id);
    let chat_pro = t.len() == 0 || crate::text::seq_eq(&t, &crate::text::chars_of("default")) || crate::text::seq_eq(
        &t,
        &crate::text::chars_of("desktop"),
    ) || crate::text::seq_eq(&t, &crate::text::chars_of("desktop-chat"));
    let mut consumers: Vec<CapabilityConsumerDiagnostic> = Vec::new();
    if chat_pro {
        consumers.push(
            CapabilityConsumerDiagnostic {
                capability: crate::text::owned("voice.asr"),
                kind: CapabilityConsumerKind::SideChannel,
                consumer_id: crate::text::owned("chat_pro.voice"),
            },
        );
    }
    consumers
}

/// A permission a provider needs and whether it is granted.
#[derive(Debug, PartialEq, Eq)]
pub struct CapabilityPermissionDiagnostic {
    pub permission: String,
    pub granted: bool,
}

#[derive(Clone, Copy, Debug, PartialEq, Eq, Structural)]
pub enum CapabilityProviderAvailability {
    Ready,
    Disabled,
    ManifestIncompatible,
    NotExecutable,
    DependencyUnavailable,
    PermissionRequired,
}

pub open spec fn any_ungranted(ps: Seq<CapabilityPermissionDiagnostic>) -> bool {
    exists|k: int| 0 <= k < ps.len() && !ps[k].granted
}

/// The reasons a provider cannot run, in sorted order.
pub open spec fn provider_reasons(
    disabled: bool,
    has_process: bool,
    spawn_declared: bool,
    dependency_ok: bool,
    ungranted: bool,
) -> Seq<Seq<char>> {
    let r0: Seq<Seq<char>> = if !dependency_ok { seq!["provider_dependency_unavailable"@] } else { Seq::empty() };
    let r1 = if disabled { r0.push("provider_disabled"@) } else { r0 };
    let r2 = if has_process && !spawn_declared { r1.push("provider_manifest_incompatible"@) } else { r1 };
    let r3 = if !has_process { r2.push("provider_not_executable"@) } else { r2 };
    if ungranted { r3.push("provider_permission_required"@) } else { r3 }
}

/// The availability the reasons give, the most fundamental first.
pub open spec fn availability_of(
    disabled: bool,
    has_process: bool,
    spawn_declared: bool,
    dependency_ok: bool,
    ungranted: bool,
) -> CapabilityProviderAvailability {
    if has_process && !spawn_declared {
        CapabilityProviderAvailability::ManifestIncompatible
    } else if disabled {
        CapabilityProviderAvailability::Disabled
    } else if !has_process {
        CapabilityProviderAvailability::NotExecutable
    } else if !dependency_ok {
        CapabilityProviderAvailability::DependencyUnavailable
    } else if ungranted {
        CapabilityProviderAvailability::PermissionRequired
    } else {
        CapabilityProviderAvailability::Ready
    }
}

fn push_code(v: &mut Vec<String>, code: &str)
    ensures
        strs(final(v)@) == strs(old(v)@).push(code@),
{
    let ghost before = strs(v@);
    v.push(crate::text::owned(code));
    assert(strs(v@) =~= before.push(code@));
}

/// Whether a provider can run, and the sorted reasons it cannot.
pub fn provider_availability(
    disabled: bool,
    has_process: bool,
    spawn_declared: bool,
    dependency_status: &str,
    permissions: &Vec<CapabilityPermissionDiagnostic>,
) -> (r: (CapabilityProviderAvailability, Vec<String>))
    ensures
        ({
            let dep_ok = dependency_status@ == "ok"@;
            let ung = any_ungranted(permissions@);
            &&& r.0 == availability_of(disabled, has_process, spawn_declared, dep_ok, ung)
            &&& strs(r.1@) == provider_reasons(disabled, has_process, spawn_declared, dep_ok, ung)
        }),
{
    let dep_ok = crate::text::str_eq(dependency_status, "ok");
    let mut ungranted = false;
    let mut k: usize = 0;
    while k < permissions.len()
        invariant
            k <= permissions@.len(),
            ungranted == exists|j: int| 0 <= j < k && !permissions@[j].granted,
        decreases permissions.len() - k,
    {
        if !permissions[k].granted {
            ungranted = true;
        }
        k = k + 1;
    }
    let mut reasons: Vec<String> = Vec::new();
    if !dep_ok {
        push_code(&mut reasons, "provider_dependency_unavailable");
    }
    if disabled {
        push_code(&mut reasons, "provider_disabled");
    }
    if has_process && !spawn_declared {
        push_code(&mut reasons, "provider_manifest_incompatible");
    }
    if !has_process {
        push_code(&mut reasons, "provider_not_executable");
    }
    if ungranted {
        push_code(&mut reasons, "provider_permission_required");
    }
    assert(strs(reasons@) =~= provider_reasons(disabled, has_process, spawn_declared, dep_ok, ungranted));
    let availability = if has_process && !spawn_declared {
        CapabilityProviderAvailability::ManifestIncompatible
    } else if disabled {
        CapabilityProviderAvailability::Disabled
    } else if !has_process {
        CapabilityProviderAvailability::NotExecutable
    } else if !dep_ok {
        CapabilityProviderAvailability::DependencyUnavailable
    } else if ungranted {
        CapabilityProviderAvailability::PermissionRequired
    } else {
        CapabilityProviderAvailability::Ready
    };
    (availability, reasons)
}

/// The installed version of plugin `id`, when its version parses.
pub open spec fn version_of(versions: Seq<(String, String)>, id: Seq<char>) -> Option<Seq<char>>
    decreases versions.len(),
{
    if versions.len() == 0 {
        None
    } else if versions[0].0@ == id {
        Some(versions[0].1@)
    } else {
        version_of(versions.drop_first(), id)
    }
}

/// One dependency's finding for the plugin `self_id` (trimmed): none when
/// satisfied, else whether it is missing (as opposed to mismatched) and
/// the issue text.
pub open spec fn dependency_finding(
    self_id: Seq<char>,
    dep_id: Seq<char>,
    range: Seq<char>,
    versions: Seq<(String, String)>,
) -> Option<(bool, Seq<char>)> {
    let dep = trim(dep_id);
    let req = trim(range);
    if dep.len() == 0 || dep == self_id {
        None
    } else {
        match semver_req_error(req) {
            Some(e) => Some(
                (false, "Invalid semver range for dependency "@ + dep + ": "@ + req + " ("@ + e + ")"@),
            ),
            None => match version_of(versions, dep) {
                None => Some((true, "Missing dependency: "@ + dep + " (requires "@ + req + ")"@)),
                Some(v) => if semver_version_parses(v) && semver_matches(req, v) {
                    None
                } else {
                    Some((false, "Dependency version mismatch: "@ + dep + " requires "@ + req + ", found "@ + v))
                },
            },
        }
    }
}

pub open spec fn dependency_findings(
    self_id: Seq<char>,
    deps: Seq<(String, String)>,
    versions: Seq<(String, String)>,
) -> Seq<(bool, Seq<char>)>
    decreases deps.len(),
{
    if deps.len() == 0 {
        Seq::empty()
    } else {
        let prev = dependency_findings(self_id, deps.drop_last(), versions);
        match dependency_finding(self_id, deps.last().0@, deps.last().1@, versions) {
            Some(f) => prev.push(f),
            None => prev,
        }
    }
}

pub open spec fn has_missing(findings: Seq<(bool, Seq<char>)>) -> bool {
    exists|k: int| 0 <= k < findings.len() && #[trigger] findings[k].0
}

proof fn lemma_has_missing_push(f: Seq<(bool, Seq<char>)>, x: (bool, Seq<char>))
    ensures
        has_missing(f.push(x)) == (has_missing(f) || x.0),
{
    if has_missing(f) {
        let k = choose|k: int| 0 <= k < f.len() && #[trigger] f[k].0;
        assert(f.push(x)[k].0);
    }
    if x.0 {
        assert(f.push(x)[f.len() as int].0);
    }
    if has_missing(f.push(x)) {
        let k = choose|k: int| 0 <= k < f.push(x).len() && #[trigger] f.push(x)[k].0;
        if k < f.len() {
            assert(f[k].0);
        }
    }
}

/// `ok`, else `missing` when some dependency is missing, else `mismatch`.
pub open spec fn dependency_status(findings: Seq<(bool, Seq<char>)>) -> Seq<char> {
    if has_missing(findings) {
        "missing"@
    } else if findings.len() > 0 {
        "mismatch"@
    } else {
        "ok"@
    }
}

fn versions_lookup<'a>(versions: &'a Vec<(String, String)>, id: &str) -> (r: Option<&'a String>)
    ensures
        match r {
            Some(v) => version_of(versions@, id@) == Some(v@),
            None => version_of(versions@, id@) is None,
        },
{
    let mut k: usize = 0;
    assert(versions@.skip(0) =~= versions@);
    while k < versions.len()
        invariant
            k <= versions@.len(),
            version_of(versions@, id@) == version_of(versions@.skip(k as int), id@),
        decreases versions.len() - k,
    {
        assert(versions@.skip(k as int)[0] == versions@[k as int]);
        if crate::text::str_eq(versions[k].0.as_str(), id) {
            return Some(&versions[k].1);
        }
        assert(versions@.skip(k as int).drop_first() =~= versions@.skip(k + 1));
        k = k + 1;
    }
    None
}

fn join4(a: &str, b: &[char], c: &str, d: &[char]) -> (r: String)
    ensures
        r@ == a@ + b@ + c@ + d@,
{
    let mut s = crate::text::owned(a);
    crate::text::append_chars(&mut s, b);
    crate::text::append(&mut s, c);
    crate::text::append_chars(&mut s, d);
    s
}

fn finding_of(self_id: &[char], dep_id: &str, range: &str, versions: &Vec<(String, String)>) -> (r: Option<
    (bool, String),
>)
    ensures
        match r {
            Some((m, t)) => dependency_finding(self_id@, dep_id@, range@, versions@) == Some((m, t@)),
            None => dependency_finding(self_id@, dep_id@, range@, versions@) is None,
        },
{
    let dep = crate::text::trim_chars(dep_id);
    if dep.len() == 0 || crate::text::seq_eq(&dep, self_id) {
        return None;
    }
    let req = crate::text::trim_chars(range);
    let req_s = crate::text::string_of(&req);
    match version_req_error(req_s.as_str()) {
        Some(e) => {
            let mut t = join4("Invalid semver range for dependency ", &dep, ": ", &req);
            crate::text::append(&mut t, " (");
            crate::text::append(&mut t, e.as_str());
            crate::text::append(&mut t, ")");
            return Some((false, t));
        },
        None => {},
    }
    let dep_s = crate::text::string_of(&dep);
    match versions_lookup(versions, dep_s.as_str()) {
        None => {
            let mut t = join4("Missing dependency: ", &dep, " (requires ", &req);
            crate::text::append(&mut t, ")");
            Some((true, t))
        },
        Some(v) => {
            let ok = version_is_semver(v.as_str()) && range_matches(req_s.as_str(), v.as_str());
            if ok {
                None
            } else {
                let mut t = join4("Dependency version mismatch: ", &dep, " requires ", &req);
                crate::text::append(&mut t, ", found ");
                crate::text::append(&mut t, v.as_str());
                Some((false, t))
            }
        },
    }
}

/// How a plugin's declared dependencies stand against the installed
/// plugins' versions: the status and one issue per unsatisfied dependency
/// in declaration order. Empty ids and the plugin itself are ignored.
pub fn dependency_report(
    manifest_id: &str,
    dependencies: &Option<Vec<(String, String)>>,
    version_by_id: &Vec<(String, String)>,
) -> (r: (String, Vec<String>))
    ensures
        match dependencies {
            Some(deps) => {
                let f = dependency_findings(trim(manifest_id@), deps@, version_by_id@);
                &&& r.0@ == dependency_status(f)
                &&& strs(r.1@) == f.map_values(|x: (bool, Seq<char>)| x.1)
            },
            None => r.0@ == "ok"@ && r.1@.len() == 0,
        },
{
    let deps = match dependencies {
        Some(d) => d,
        None => return (crate::text::owned("ok"), Vec::new()),
    };
    let self_id = crate::text::trim_chars(manifest_id);
    let ghost sid = trim(manifest_id@);
    let mut issues: Vec<String> = Vec::new();
    let mut any_missing = false;
    let mut i: usize = 0;
    while i < deps.len()
        invariant
            i <= deps@.len(),
            self_id@ == sid,
            strs(issues@) == dependency_findings(sid, deps@.take(i as int), version_by_id@).map_values(
                |x: (bool, Seq<char>)| x.1,
            ),
            any_missing == has_missing(dependency_findings(sid, deps@.take(i as int), version_by_id@)),
        decreases deps.len() - i,
    {
        assert(deps@.take(i + 1).drop_last() =~= deps@.take(i as int));
        assert(deps@.take(i + 1).last() == deps@[i as int]);
        let ghost prev = dependency_findings(sid, deps@.take(i as int), version_by_id@);
        let ghost before = strs(issues@);
        match finding_of(&self_id, deps[i].0.as_str(), deps[i].1.as_str(), version_by_id) {
            Some((missing, text)) => {
                let ghost tv = text@;
                issues.push(text);
                assert(strs(issues@) =~= before.push(tv));
                assert(prev.push((missing, tv)).map_values(|x: (bool, Seq<char>)| x.1) =~= prev.map_values(
                    |x: (bool, Seq<char>)| x.1,
                ).push(tv));
                proof {
                    lemma_has_missing_push(prev, (missing, tv));
                }
                if missing {
                    any_missing = true;
                }
            },
            None => {},
        }
        i = i + 1;
    }
    assert(deps@.take(i as int) =~= deps@);
    let status = if any_missing {
        crate::text::owned("missing")
    } else if issues.len() > 0 {
        crate::text::owned("mismatch")
    } else {
        crate::text::owned("ok")
    };
    (status, issues)
}


/// The trimmed, non-blank items.
pub open spec fn trimmed_items(items: Seq<String>) -> Set<Seq<char>> {
    Set::new(|x: Seq<char>| x.len() > 0 && exists|k: int| 0 <= k < items.len() && trim(#[trigger] items[k]@) == x)
}

/// The trimmed, non-blank items, sorted, each once.
fn sorted_trimmed(items: &Vec<String>) -> (r: Vec<String>)
    ensures
        strictly_sorted(strs(r@)),
        reason_set(r@) == trimmed_items(items@),
{
    let mut acc: Vec<String> = Vec::new();
    let mut i: usize = 0;
    assert(reason_set(acc@) =~= Set::<Seq<char>>::empty());
    while i < items.len()
        invariant
            i <= items@.len(),
            distinct_strs(strs(acc@)),
            reason_set(acc@) == Set::new(
                |x: Seq<char>| x.len() > 0 && exists|k: int| 0 <= k < i && trim(#[trigger] items@[k]@) == x,
            ),
        decreases items.len() - i,
    {
        let t = crate::text::trim_chars(items[i].as_str());
        let ghost before = reason_set(acc@);
        if t.len() > 0 {
            let ts = crate::text::string_of(&t);
            add_reason(&mut acc, ts.as_str());
        }
        assert(reason_set(acc@) =~= Set::new(
            |x: Seq<char>| x.len() > 0 && exists|k: int| 0 <= k < i + 1 && trim(#[trigger] items@[k]@) == x,
        )) by {
            assert forall|x: Seq<char>| #[trigger] reason_set(acc@).contains(x) implies x.len() > 0 && exists|k: int|
                0 <= k < i + 1 && trim(#[trigger] items@[k]@) == x by {
                if !before.contains(x) {
                    assert(trim(items@[i as int]@) == x);
                }
            }
        }
        i = i + 1;
    }
    assert(reason_set(acc@) =~= trimmed_items(items@));
    crate::resource::compile::sorted_reasons(acc)
}

/// What the registry reads of an installed plugin's manifest.
pub struct PluginManifestInfo {
    pub id: String,
    pub version: String,
    pub schema_version: u32,
    pub provides: Vec<String>,
    pub permissions: Vec<String>,
    pub has_process: bool,
    pub dependencies: Option<Vec<(String, String)>>,
}

#[derive(Clone, Copy, Debug, PartialEq, Eq, Structural)]
pub enum CapabilityProviderSource {
    Directory,
}

/// A directory plugin as a capability provider.
#[derive(Debug)]
pub struct CapabilityProviderDiagnostic {
    pub provider_id: String,
    pub version: String,
    pub manifest_schema_version: u32,
    pub source: CapabilityProviderSource,
    pub provides: Vec<String>,
    pub availability: CapabilityProviderAvailability,
    pub permissions: Vec<CapabilityPermissionDiagnostic>,
    pub dependency_issues: Vec<String>,
    pub reason_codes: Vec<String>,
}

/// The permissions a provider effectively needs: its declared ones, and
/// `process:spawn` for a process that declares none.
pub open spec fn effective_permissions(m: PluginManifestInfo) -> Set<Seq<char>> {
    if m.has_process && m.permissions@.len() == 0 {
        trimmed_items(m.permissions@).insert("process:spawn"@)
    } else {
        trimmed_items(m.permissions@)
    }
}

/// An installed directory plugin as the registry sees it: its manifest,
/// whether the role disabled it, whether its manifest declares the process
/// spawn its process needs, and the permissions granted to it.
pub struct CapabilityProviderInput {
    pub plugin_id: String,
    pub manifest: PluginManifestInfo,
    pub disabled: bool,
    pub spawn_declared: bool,
    pub granted: Vec<String>,
}

/// The installed plugins' versions, for those whose version parses.
pub open spec fn parsed_versions(inputs: Seq<CapabilityProviderInput>) -> Seq<(String, String)>
    decreases inputs.len(),
{
    if inputs.len() == 0 {
        Seq::empty()
    } else {
        let prev = parsed_versions(inputs.drop_last());
        let p = inputs.last();
        if semver_version_parses(p.manifest.version@) {
            prev.push((p.plugin_id, p.manifest.version))
        } else {
            prev
        }
    }
}

/// The installed plugins' versions, for those whose version parses.
pub fn versions_by_id(inputs: &Vec<CapabilityProviderInput>) -> (r: Vec<(String, String)>)
    ensures
        r@ == parsed_versions(inputs@),
{
    let mut r: Vec<(String, String)> = Vec::new();
    let mut i: usize = 0;
    while i < inputs.len()
        invariant
            i <= inputs@.len(),
            r@ == parsed_versions(inputs@.take(i as int)),
        decreases inputs.len() - i,
    {
        assert(inputs@.take(i + 1).drop_last() =~= inputs@.take(i as int));
        assert(inputs@.take(i + 1).last() == inputs@[i as int]);
        let p = &inputs[i];
        if version_is_semver(p.manifest.version.as_str()) {
            r.push((p.plugin_id.clone(), p.manifest.version.clone()));
            assert(r@ =~= parsed_versions(inputs@.take(i + 1)));
        }
        i = i + 1;
    }
    assert(inputs@.take(i as int) =~= inputs@);
    r
}

/// What a provider's diagnostic says of the plugin `plugin_id` with
/// `manifest`: its sorted capabilities and permissions with their grants,
/// its dependency issues, and whether it can run.
pub open spec fn diagnoses(
    r: CapabilityProviderDiagnostic,
    plugin_id: Seq<char>,
    manifest: PluginManifestInfo,
    disabled: bool,
    spawn_declared: bool,
    granted: Seq<String>,
    version_by_id: Seq<(String, String)>,
) -> bool {
    let f = match manifest.dependencies {
        Some(d) => dependency_findings(trim(manifest.id@), d@, version_by_id),
        None => Seq::empty(),
    };
    let dep_ok = dependency_status(f) == "ok"@;
    let ung = any_ungranted(r.permissions@);
    &&& r.provider_id@ == plugin_id
    &&& r.version@ == manifest.version@
    &&& r.manifest_schema_version == manifest.schema_version
    &&& r.source == CapabilityProviderSource::Directory
    &&& strictly_sorted(strs(r.provides@))
    &&& reason_set(r.provides@) == trimmed_items(manifest.provides@)
    &&& strictly_sorted(r.permissions@.map_values(|p: CapabilityPermissionDiagnostic| p.permission@))
    &&& r.permissions@.map_values(|p: CapabilityPermissionDiagnostic| p.permission@).to_set()
        == effective_permissions(manifest)
    &&& forall|k: int|
        0 <= k < r.permissions@.len() ==> (#[trigger] r.permissions@[k]).granted == views(granted).contains(
            r.permissions@[k].permission@,
        )
    &&& strs(r.dependency_issues@) == f.map_values(|x: (bool, Seq<char>)| x.1)
    &&& r.availability == availability_of(disabled, manifest.has_process, spawn_declared, dep_ok, ung)
    &&& strs(r.reason_codes@) == provider_reasons(disabled, manifest.has_process, spawn_declared, dep_ok, ung)
}

/// One provider's diagnostic. `granted` lists the permissions granted to
/// this plugin; `spawn_declared` says whether its manifest declares the
/// process spawn its process needs.
pub fn provider_diagnostic(
    plugin_id: &String,
    manifest: &PluginManifestInfo,
    disabled: bool,
    spawn_declared: bool,
    granted: &Vec<String>,
    version_by_id: &Vec<(String, String)>,
) -> (r: CapabilityProviderDiagnostic)
    ensures
        diagnoses(r, plugin_id@, *manifest, disabled, spawn_declared, granted@, version_by_id@),
{
    let provides = sorted_trimmed(&manifest.provides);
    let mut perm_set: Vec<String> = Vec::new();
    let declared = sorted_trimmed(&manifest.permissions);
    let mut j: usize = 0;
    assert(reason_set(perm_set@) =~= Set::<Seq<char>>::empty());
    while j < declared.len()
        invariant
            j <= declared@.len(),
            strictly_sorted(strs(declared@)),
            distinct_strs(strs(perm_set@)),
            reason_set(perm_set@) == strs(declared@).take(j as int).to_set(),
        decreases declared.len() - j,
    {
        add_reason(&mut perm_set, declared[j].as_str());
        proof {
            assert(strs(declared@).take(j + 1) =~= strs(declared@).take(j as int).push(declared@[j as int]@));
            strs(declared@).take(j as int).lemma_push_to_set_commute(declared@[j as int]@);
        }
        j = j + 1;
    }
    assert(strs(declared@).take(j as int) =~= strs(declared@));
    assert(reason_set(perm_set@) =~= reason_set(declared@));
    if manifest.has_process && manifest.permissions.len() == 0 {
        add_reason(&mut perm_set, "process:spawn");
    }
    assert(reason_set(perm_set@) =~= effective_permissions(*manifest));
    let names = crate::resource::compile::sorted_reasons(perm_set);
    let mut permissions: Vec<CapabilityPermissionDiagnostic> = Vec::new();
    let mut k: usize = 0;
    while k < names.len()
        invariant
            k <= names@.len(),
            permissions@.len() == k,
            forall|q: int| 0 <= q < k ==> (#[trigger] permissions@[q]).permission@ == names@[q]@,
            forall|q: int|
                0 <= q < k ==> (#[trigger] permissions@[q]).granted == views(granted@).contains(names@[q]@),
        decreases names.len() - k,
    {
        let chars = crate::text::chars_of(names[k].as_str());
        let g = crate::plugins::contains_str(granted, &chars);
        permissions.push(CapabilityPermissionDiagnostic { permission: names[k].clone(), granted: g });
        k = k + 1;
    }
    assert(permissions@.map_values(|p: CapabilityPermissionDiagnostic| p.permission@) =~= strs(names@));
    let (status, issues) = match &manifest.dependencies {
        Some(_) => dependency_report(manifest.id.as_str(), &manifest.dependencies, version_by_id),
        None => (crate::text::owned("ok"), Vec::new()),
    };
    proof {
        if manifest.dependencies is None {
            assert(Seq::<(bool, Seq<char>)>::empty().map_values(|x: (bool, Seq<char>)| x.1) =~= Seq::<Seq<char>>::empty());
            assert(strs(issues@) =~= Seq::<Seq<char>>::empty());
            assert(!has_missing(Seq::<(bool, Seq<char>)>::empty()));
        }
    }
    let (availability, reason_codes) = provider_availability(
        disabled,
        manifest.has_process,
        spawn_declared,
        status.as_str(),
        &permissions,
    );
    CapabilityProviderDiagnostic {
        provider_id: plugin_id.clone(),
        version: manifest.version.clone(),
        manifest_schema_version: manifest.schema_version,
        source: CapabilityProviderSource::Directory,
        provides,
        availability,
        permissions,
        dependency_issues: issues,
        reason_codes,
    }
}

/// The capability registry of a distro.
#[derive(Debug)]
pub struct CapabilityRegistryDiagnostic {
    pub distro_id: String,
    pub consumers: Vec<CapabilityConsumerDiagnostic>,
    pub providers: Vec<CapabilityProviderDiagnostic>,
}

pub open spec fn input_ids(inputs: Seq<CapabilityProviderInput>) -> Seq<Seq<char>> {
    inputs.map_values(|p: CapabilityProviderInput| p.plugin_id@)
}

/// Whether `d` is the diagnostic of one of the installed plugins `inputs`.
pub open spec fn diagnoses_some(d: CapabilityProviderDiagnostic, inputs: Seq<CapabilityProviderInput>) -> bool {
    exists|j: int|
        0 <= j < inputs.len() && #[trigger] diagnoses(
            d,
            inputs[j].plugin_id@,
            inputs[j].manifest,
            inputs[j].disabled,
            inputs[j].spawn_declared,
            inputs[j].granted@,
            parsed_versions(inputs),
        )
}

fn find_input(inputs: &Vec<CapabilityProviderInput>, id: &str) -> (r: usize)
    requires
        input_ids(inputs@).contains(id@),
    ensures
        r < inputs@.len(),
        inputs@[r as int].plugin_id@ == id@,
{
    let mut j: usize = 0;
    while j < inputs.len()
        invariant
            j <= inputs@.len(),
            forall|q: int| 0 <= q < j ==> inputs@[q].plugin_id@ != id@,
        decreases inputs.len() - j,
    {
        if crate::text::str_eq(inputs[j].plugin_id.as_str(), id) {
            return j;
        }
        j = j + 1;
    }
    proof {
        let w = choose|q: int| 0 <= q < input_ids(inputs@).len() && input_ids(inputs@)[q] == id@;
        assert(inputs@[w].plugin_id@ == id@);
    }
    0
}

/// The registry of distro `distro_id` over the installed plugins `inputs`
/// (each id once): the distro's consumers, and one diagnostic per plugin,
/// ordered by plugin id.
pub fn build_capability_registry(distro_id: &str, inputs: &Vec<CapabilityProviderInput>) -> (r:
    CapabilityRegistryDiagnostic)
    requires
        forall|a: int, b: int| 0 <= a < b < inputs@.len() ==> inputs@[a].plugin_id@ != inputs@[b].plugin_id@,
    ensures
        r.distro_id@ == distro_id@,
        chat_pro_distro(distro_id@) ==> r.consumers@.len() == 1 && r.consumers@[0].capability@ == "voice.asr"@
            && r.consumers@[0].kind == CapabilityConsumerKind::SideChannel && r.consumers@[0].consumer_id@
            == "chat_pro.voice"@,
        !chat_pro_distro(distro_id@) ==> r.consumers@.len() == 0,
        r.providers@.len() == inputs@.len(),
        forall|a: int, b: int|
            0 <= a < b < r.providers@.len() ==> lex_le(r.providers@[a].provider_id@, r.providers@[b].provider_id@)
                && r.providers@[a].provider_id@ != r.providers@[b].provider_id@,
        forall|k: int|
            #![trigger r.providers@[k]]
            0 <= k < r.providers@.len() ==> diagnoses_some(r.providers@[k], inputs@),
{
    broadcast use vstd::seq_lib::group_to_multiset_ensures;
    let versions = versions_by_id(inputs);
    let mut ids: Vec<String> = Vec::new();
    let mut i: usize = 0;
    while i < inputs.len()
        invariant
            i <= inputs@.len(),
            views(ids@) == input_ids(inputs@).take(i as int),
        decreases inputs.len() - i,
    {
        let ghost before = views(ids@);
        let id = inputs[i].plugin_id.clone();
        assert(id@ == inputs@[i as int].plugin_id@);
        ids.push(id);
        proof {
            assert(before.len() == i);
            assert(ids@[i as int]@ == inputs@[i as int].plugin_id@);
            assert(views(ids@) =~= before.push(inputs@[i as int].plugin_id@));
            assert(input_ids(inputs@).take(i + 1) =~= input_ids(inputs@).take(i as int).push(
                inputs@[i as int].plugin_id@,
            ));
        }
        i = i + 1;
    }
    assert(views(ids@) =~= input_ids(inputs@));
    assert forall|a: int, b: int| 0 <= a < b < ids@.len() implies ids@[a]@ != ids@[b]@ by {
        assert(views(ids@)[a] == ids@[a]@ && views(ids@)[b] == ids@[b]@);
    }
    let sorted = crate::plugins::sort_strings_unique(ids);
    let ghost ms = input_ids(inputs@).to_multiset();
    proof {
        views(sorted@).to_multiset_ensures();
        input_ids(inputs@).to_multiset_ensures();
        assert(views(sorted@).len() == sorted@.len());
    }
    let mut providers: Vec<CapabilityProviderDiagnostic> = Vec::new();
    let mut k: usize = 0;
    while k < sorted.len()
        invariant
            k <= sorted@.len(),
            sorted@.len() == inputs@.len(),
            views(sorted@).to_multiset() == ms,
            ms == input_ids(inputs@).to_multiset(),
            versions@ == parsed_versions(inputs@),
            providers@.len() == k,
            forall|q: int| 0 <= q < k ==> (#[trigger] providers@[q]).provider_id@ == sorted@[q]@,
            forall|q: int|
                #![trigger providers@[q]]
                0 <= q < k ==> diagnoses_some(providers@[q], inputs@),
        decreases sorted.len() - k,
    {
        let ghost want = sorted@[k as int]@;
        proof {
            assert(views(sorted@)[k as int] == want);
            assert(views(sorted@).contains(want));
            views(sorted@).to_multiset_ensures();
            input_ids(inputs@).to_multiset_ensures();
            assert(ms.count(want) > 0);
            assert(input_ids(inputs@).contains(want));
        }
        let j = find_input(inputs, sorted[k].as_str());
        let p = &inputs[j];
        let d = provider_diagnostic(&sorted[k], &p.manifest, p.disabled, p.spawn_declared, &p.granted, &versions);
        let ghost old_providers = providers@;
        providers.push(d);
        proof {
            assert(providers@[k as int] == d);
            assert(diagnoses(
                providers@[k as int],
                inputs@[j as int].plugin_id@,
                inputs@[j as int].manifest,
                inputs@[j as int].disabled,
                inputs@[j as int].spawn_declared,
                inputs@[j as int].granted@,
                parsed_versions(inputs@),
            ));
            assert(diagnoses_some(providers@[k as int], inputs@));
            assert forall|q: int| 0 <= q < k implies providers@[q] == old_providers[q] by {}
        }
        k = k + 1;
    }
    proof {
        assert forall|a: int, b: int| 0 <= a < b < providers@.len() implies lex_le(
            providers@[a].provider_id@,
            providers@[b].provider_id@,
        ) && providers@[a].provider_id@ != providers@[b].provider_id@ by {
            assert(providers@[a].provider_id@ == sorted@[a]@);
            assert(providers@[b].provider_id@ == sorted@[b]@);
        }
    }
    CapabilityRegistryDiagnostic {
        distro_id: crate::text::owned(distro_id),
        consumers: registered_consumers(distro_id),
        providers,
    }
}

/// A provider is ready exactly when nothing stands in its way: its
/// availability is `Ready` if and only if it has no reason codes, and
/// otherwise names the most fundamental of its reasons.
pub proof fn law_provider_ready_iff_no_reasons(
    disabled: bool,
    has_process: bool,
    spawn_declared: bool,
    dependency_ok: bool,
    ungranted: bool,
)
    ensures
        (availability_of(disabled, has_process, spawn_declared, dependency_ok, ungranted)
            == CapabilityProviderAvailability::Ready) <==> provider_reasons(
            disabled,
            has_process,
            spawn_declared,
            dependency_ok,
            ungranted,
        ).len() == 0,
        availability_of(disabled, has_process, spawn_declared, dependency_ok, ungranted)
            == CapabilityProviderAvailability::ManifestIncompatible ==> provider_reasons(
            disabled,
            has_process,
            spawn_declared,
            dependency_ok,
            ungranted,
        ).contains("provider_manifest_incompatible"@),
{
    let r = provider_reasons(disabled, has_process, spawn_declared, dependency_ok, ungranted);
    if has_process && !spawn_declared {
        let r0: Seq<Seq<char>> = if !dependency_ok { seq!["provider_dependency_unavailable"@] } else { Seq::empty() };
        let r1 = if disabled { r0.push("provider_disabled"@) } else { r0 };
        let r2 = r1.push("provider_manifest_incompatible"@);
        assert(r2[r1.len() as int] == "provider_manifest_incompatible"@);
        let r3 = if !has_process { r2.push("provider_not_executable"@) } else { r2 };
        assert(r3 == r2);
        if ungranted {
            assert(r == r3.push("provider_permission_required"@));
            assert(r[r1.len() as int] == "provider_manifest_incompatible"@);
        } else {
            assert(r == r3);
        }
    }
}

} // verus!
