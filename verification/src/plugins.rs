//! Directory plugins: host settings, the plugin config handed to a child
//! process, the ready-line handshake, subscribed bridge events and the UI
//! bootstrap assembly.

use vstd::prelude::*;
use crate::text::{eq_ignore_ascii_case, first_index_of, lex_le, starts_with, trim, views};

verus! {

/// The configuration text passed explicitly, trimmed, when not blank.
pub open spec fn explicit_config(c: Option<Seq<char>>) -> Option<Seq<char>> {
    match c {
        Some(s) => if trim(s).len() > 0 { Some(trim(s)) } else { None },
        None => None,
    }
}

/// A blank debug configuration does not mask the persisted one.
pub fn non_empty_config_json(config_json: Option<&str>) -> (r: Option<String>)
    ensures
        crate::resource::model::opt_view(r) == explicit_config(crate::theater::guardrails::opt_str(config_json)),
{
    match config_json {
        Some(s) => {
            let t = crate::text::trim_chars(s);
            if t.len() > 0 {
                Some(crate::text::string_of(&t))
            } else {
                None
            }
        },
        None => None,
    }
}

/// Whether `serde_json` reads the text as a JSON object.
pub uninterp spec fn json_text_is_object(s: Seq<char>) -> bool;

/// `serde_json::from_str::<serde_json::Value>`: claimed to be true exactly
/// when the text parses and the value is an object, a function of the text
/// alone.
#[verifier::external_body]
fn parses_as_json_object(s: &str) -> (r: bool)
    ensures
        r == json_text_is_object(s@),
{
    match serde_json::from_str::<serde_json::Value>(s) {
        Ok(serde_json::Value::Object(_)) => true,
        _ => false,
    }
}

/// A persisted plugin configuration is used only when it is a JSON object.
pub fn persisted_config_from_raw(raw: String) -> (r: Option<String>)
    ensures
        r is Some <==> json_text_is_object(raw@),
        r matches Some(s) ==> s@ == raw@,
{
    if parses_as_json_object(raw.as_str()) {
        Some(raw)
    } else {
        None
    }
}

/// The configuration a plugin child starts with: the explicit one when not
/// blank, else the persisted one.
pub fn effective_plugin_config(config_json: Option<&str>, persisted: Option<String>) -> (r: Option<String>)
    ensures
        crate::resource::model::opt_view(r) == match explicit_config(crate::theater::guardrails::opt_str(config_json)) {
            Some(e) => Some(e),
            None => crate::resource::model::opt_view(persisted),
        },
{
    match non_empty_config_json(config_json) {
        Some(e) => Some(e),
        None => persisted,
    }
}

/// The part of `s` before the first `c` (all of `s` without one).
pub open spec fn before_first(s: Seq<char>, c: char) -> Seq<char> {
    match first_index_of(s, c) {
        Some(i) => s.take(i),
        None => s,
    }
}

/// An RPC URL on the loopback host: `http://` or `https://` followed by a
/// host (up to the first `/`, then up to the first `:`) that is
/// `127.0.0.1`, `[::1]` or `localhost` in any ASCII case.
pub open spec fn loopback_url(url: Seq<char>) -> bool {
    let rest = if starts_with(url, "http://"@) {
        Some(url.skip(7))
    } else if starts_with(url, "https://"@) {
        Some(url.skip(8))
    } else {
        None
    };
    match rest {
        None => false,
        Some(r) => {
            let host = before_first(before_first(r, '/'), ':');
            host == "127.0.0.1"@ || host == "localhost"@ || host == "[::1]"@ || eq_ignore_ascii_case(host, "localhost"@)
        },
    }
}

fn before_first_vec(v: &[char], c: char) -> (r: Vec<char>)
    ensures
        r@ == before_first(v@, c),
{
    match crate::text::index_of(v, c) {
        Some(i) => crate::text::slice_vec(v, 0, i),
        None => crate::text::slice_vec(v, 0, v.len()),
    }
}

pub fn rpc_url_is_loopback(url: &str) -> (r: bool)
    ensures
        r == loopback_url(url@),
{
    let v = crate::text::chars_of(url);
    let http = crate::text::chars_of("http://");
    let https = crate::text::chars_of("https://");
    proof {
        reveal_strlit("http://");
        reveal_strlit("https://");
    }
    let rest = if crate::text::starts_with_vec(&v, &http) {
        crate::text::slice_vec(&v, 7, v.len())
    } else if crate::text::starts_with_vec(&v, &https) {
        crate::text::slice_vec(&v, 8, v.len())
    } else {
        return false;
    };
    let host = before_first_vec(&before_first_vec(&rest, '/'), ':');
    let a = crate::text::chars_of("127.0.0.1");
    let b = crate::text::chars_of("localhost");
    let c = crate::text::chars_of("[::1]");
    crate::text::seq_eq(&host, &a) || crate::text::seq_eq(&host, &b) || crate::text::seq_eq(&host, &c)
        || crate::text::eq_ignore_case_vec(&host, &b)
}

/// The RPC URL announced on a child's ready line: the trimmed line must
/// start with `prefix`; the trimmed rest must be an `http://` or `https://`
/// URL, on loopback unless the plugin holds a network grant.
pub open spec fn ready_url(line: Seq<char>, prefix: Seq<char>, network_granted: bool) -> Option<Seq<char>> {
    let t = trim(line);
    if !starts_with(t, prefix) {
        None
    } else {
        let rest = trim(t.skip(prefix.len() as int));
        if !(starts_with(rest, "http://"@) || starts_with(rest, "https://"@)) {
            None
        } else if !loopback_url(rest) && !network_granted {
            None
        } else {
            Some(rest)
        }
    }
}

pub fn parse_ready_line(line: &str, prefix: &str, network_granted: bool) -> (r: Option<String>)
    ensures
        crate::resource::model::opt_view(r) == ready_url(line@, prefix@, network_granted),
{
    let t = crate::text::trim_chars(line);
    let p = crate::text::chars_of(prefix);
    if !crate::text::starts_with_vec(&t, &p) {
        return None;
    }
    let after = crate::text::slice_vec(&t, p.len(), t.len());
    assert(after@ =~= t@.skip(p@.len() as int));
    let rest = crate::text::trim_vec(&after);
    let http = crate::text::chars_of("http://");
    let https = crate::text::chars_of("https://");
    if !(crate::text::starts_with_vec(&rest, &http) || crate::text::starts_with_vec(&rest, &https)) {
        return None;
    }
    let s = crate::text::string_of(&rest);
    if !rpc_url_is_loopback(s.as_str()) && !network_granted {
        return None;
    }
    Some(s)
}

/// Calls `std::path::Path::parent`. Trusted: the parent is the path
/// without its final component, so its text is a shorter prefix of the
/// path's text, and the empty path has none. Which components a platform
/// sees, and so where the cut falls, is left unsaid.
#[verifier::external_body]
fn path_parent(p: &str) -> (r: Option<String>)
    ensures
        p@.len() == 0 ==> r is None,
        r matches Some(q) ==> q@.len() < p@.len() && starts_with(p@, q@),
{
    match std::path::Path::new(p).parent() {
        Some(q) => Some(q.to_string_lossy().into_owned()),
        None => None,
    }
}

/// `base` joined with `seg` by `std::path::Path::join`, after a `/` unless
/// `base` is empty or already ends with one.
fn join_under(base: &str, seg: &str) -> (r: String)
    ensures
        !crate::local_models::verbatim_prefix(base@) && crate::local_models::clean_segment(seg@) ==> r@ == slash_join(
            base@,
            seg@,
        ),
{
    let bc = crate::text::chars_of(base);
    let mut b = crate::text::owned(base);
    if !(bc.len() == 0 || bc[bc.len() - 1] == '/') {
        crate::text::append(&mut b, "/");
        proof {
            reveal_strlit("/");
        }
    }
    proof {
        if !crate::local_models::verbatim_prefix(base@) {
            assert(!crate::local_models::verbatim_prefix(b@)) by {
                if base@.len() >= 4 {
                    assert(b@.take(4) =~= base@.take(4));
                }
            }
        }
    }
    crate::local_models::join_path(b.as_str(), seg)
}

/// `plugins` under `base`.
pub open spec fn plugins_under(base: Seq<char>) -> Seq<char> {
    slash_join(base, "plugins"@)
}

/// The directories a plugin scan looks in, given the roles directory's
/// parent: `plugins` under that parent (when there is one), `plugins` in
/// the working directory, `plugins` under the app data directory, and in
/// developer mode each extra root, trimmed.
pub open spec fn scan_roots_from(parent: Option<Seq<char>>, app_data: Seq<char>, extras: Seq<Seq<char>>, developer: bool) -> Seq<
    Seq<char>,
> {
    let first: Seq<Seq<char>> = match parent {
        Some(q) => seq![plugins_under(q)],
        None => Seq::empty(),
    };
    first + seq!["plugins"@, plugins_under(app_data)] + if developer {
        extras.map_values(|e: Seq<char>| trim(e))
    } else {
        Seq::empty()
    }
}

/// The directories a plugin scan looks in, in order, before the caller
/// keeps those that are directories, given the roles directory's parent
/// (see `scan_roots_from`).
pub fn plugin_scan_roots_from(parent: Option<&str>, app_data: &str, host: &HostPluginsFile, env_developer: Option<&str>) -> (r:
    Vec<String>)
    ensures
        (parent matches Some(t) ==> !crate::local_models::verbatim_prefix(t@)) && !crate::local_models::verbatim_prefix(
            app_data@,
        ) ==> views(r@) == scan_roots_from(
            crate::theater::guardrails::opt_str(parent),
            app_data@,
            views(host.extra_plugin_roots@),
            host.developer_effective_spec(env_developer),
        ),
{
    proof {
        reveal_strlit("plugins");
        reveal_strlit(".");
        reveal_strlit("..");
    }
    let ghost extras = views(host.extra_plugin_roots@);
    let developer = host.developer_effective(env_developer);
    assert(crate::local_models::clean_segment("plugins"@));
    let mut r: Vec<String> = Vec::new();
    match parent {
        Some(t) => {
            r.push(join_under(t, "plugins"));
        },
        None => {},
    }
    r.push(crate::text::owned("plugins"));
    r.push(join_under(app_data, "plugins"));
    let ghost head = views(r@);
    if developer {
        let mut i: usize = 0;
        while i < host.extra_plugin_roots.len()
            invariant
                i <= extras.len(),
                extras == views(host.extra_plugin_roots@),
                views(r@) == head + extras.take(i as int).map_values(|e: Seq<char>| trim(e)),
            decreases host.extra_plugin_roots.len() - i,
        {
            let e = crate::text::trim_str(host.extra_plugin_roots[i].as_str());
            let ghost before = views(r@);
            r.push(e);
            proof {
                assert(extras[i as int] == host.extra_plugin_roots@[i as int]@);
                assert(views(r@) =~= before.push(e@));
                assert(extras.take(i + 1).map_values(|e: Seq<char>| trim(e)) =~= extras.take(i as int).map_values(
                    |e: Seq<char>| trim(e),
                ).push(trim(extras[i as int])));
                assert(views(r@) =~= head + extras.take(i + 1).map_values(|e: Seq<char>| trim(e)));
            }
            i = i + 1;
        }
        assert(extras.take(i as int) =~= extras);
    }
    proof {
        let q = crate::theater::guardrails::opt_str(parent);
        if (parent matches Some(t) ==> !crate::local_models::verbatim_prefix(t@)) && !crate::local_models::verbatim_prefix(
            app_data@,
        ) {
            assert(views(r@) =~= scan_roots_from(q, app_data@, extras, developer));
        }
    }
    r
}

/// The directories a plugin scan looks in, in order, before the caller
/// keeps those that are directories: `plugin_scan_roots_from` with the
/// roles directory's parent, taken with `std::path::Path::parent`.
pub fn plugin_scan_container_roots(roles_dir: &str, app_data: &str, host: &HostPluginsFile, env_developer: Option<&str>) -> (r: Vec<String>)
    ensures
        !crate::local_models::verbatim_prefix(roles_dir@) && !crate::local_models::verbatim_prefix(app_data@) ==> exists|
            q: Option<Seq<char>>,
        |
            #![trigger scan_roots_from(q, app_data@, views(host.extra_plugin_roots@), host.developer_effective_spec(env_developer))]
            (q matches Some(t) ==> t.len() < roles_dir@.len() && starts_with(roles_dir@, t)) && views(r@)
                == scan_roots_from(q, app_data@, views(host.extra_plugin_roots@), host.developer_effective_spec(env_developer)),
{
    let parent = path_parent(roles_dir);
    proof {
        if !crate::local_models::verbatim_prefix(roles_dir@) {
            if let Some(t) = crate::resource::model::opt_view(parent) {
                if t.len() >= 4 {
                    assert(t.take(4) =~= roles_dir@.take(4));
                }
            }
        }
    }
    let r = plugin_scan_roots_from(opt_as_str(&parent), app_data, host, env_developer);
    r
}

/// A plugin package directory found by a scan: the id its manifest
/// declares, as written, and the directory.
pub struct ScannedPluginDir {
    pub id: String,
    pub dir: String,
}

/// The plugins a scan found: each trimmed id once, in `str` order, and for
/// each id (at the same position) the directory that provides it.
pub struct PluginScanSummary {
    pub plugin_ids: Vec<String>,
    pub roots: Vec<String>,
}

/// The directory that provides `id` among `found`: the last one whose
/// manifest id, trimmed, is `id` (a later directory replaces an earlier).
pub open spec fn last_dir_of(found: Seq<ScannedPluginDir>, id: Seq<char>) -> Option<Seq<char>>
    decreases found.len(),
{
    if found.len() == 0 {
        None
    } else if trim(found.last().id@) == id {
        Some(found.last().dir@)
    } else {
        last_dir_of(found.drop_last(), id)
    }
}

/// `ids` are strictly ascending, and `dirs` give, position by position,
/// the directory that provides each id among `found`; every id that
/// `found` provides is there.
pub open spec fn scan_summary_of(ids: Seq<Seq<char>>, dirs: Seq<Seq<char>>, found: Seq<ScannedPluginDir>) -> bool {
    &&& ids.len() == dirs.len()
    &&& forall|i: int, j: int| #![trigger ids[i], ids[j]] 0 <= i < j < ids.len() ==> lex_le(ids[i], ids[j]) && ids[i] != ids[j]
    &&& forall|k: int| 0 <= k < ids.len() ==> last_dir_of(found, #[trigger] ids[k]) == Some(dirs[k])
    &&& forall|id: Seq<char>| #[trigger] last_dir_of(found, id) is Some ==> ids.contains(id)
}

/// Gathers the plugin directories found under the scan roots, in scan
/// order, into the plugin ids (trimmed, each once, sorted) and the
/// directory of each; when two directories declare one id, the later one
/// is kept.
pub fn scan_plugins(found: &Vec<ScannedPluginDir>) -> (r: PluginScanSummary)
    ensures
        scan_summary_of(views(r.plugin_ids@), views(r.roots@), found@),
{
    let mut ids: Vec<String> = Vec::new();
    let mut dirs: Vec<String> = Vec::new();
    let mut i: usize = 0;
    while i < found.len()
        invariant
            i <= found@.len(),
            scan_summary_of(views(ids@), views(dirs@), found@.take(i as int)),
        decreases found.len() - i,
    {
        let x = crate::text::trim_str(found[i].id.as_str());
        let d = crate::text::owned(found[i].dir.as_str());
        let ghost pre = found@.take(i as int);
        let ghost post = found@.take(i + 1);
        let ghost old_ids = views(ids@);
        let ghost old_dirs = views(dirs@);
        proof {
            assert(post.drop_last() =~= pre);
            assert(post.last() == found@[i as int]);
        }
        let mut p: usize = 0;
        while p < ids.len() && !crate::text::lex_le_exec(x.as_str(), ids[p].as_str())
            invariant
                p <= ids@.len(),
                views(ids@) == old_ids,
                scan_summary_of(old_ids, old_dirs, pre),
                forall|q: int| 0 <= q < p ==> !lex_le(x@, #[trigger] old_ids[q]),
            decreases ids.len() - p,
        {
            p = p + 1;
        }
        let same = p < ids.len() && crate::text::str_eq(ids[p].as_str(), x.as_str());
        if same {
            dirs.set(p, d);
            proof {
                let nd = views(dirs@);
                assert(nd =~= old_dirs.update(p as int, d@));
                assert forall|k: int| 0 <= k < old_ids.len() implies last_dir_of(post, #[trigger] old_ids[k]) == Some(nd[k]) by {
                    if k != p {
                        assert(old_ids[k] != old_ids[p as int]);
                    }
                }
                assert forall|id: Seq<char>| #[trigger] last_dir_of(post, id) is Some implies old_ids.contains(id) by {
                    if id == x@ {
                        assert(old_ids[p as int] == id);
                    } else {
                        assert(last_dir_of(pre, id) is Some);
                    }
                }
            }
        } else {
            ids.insert(p, x);
            dirs.insert(p, d);
            proof {
                let ni = views(ids@);
                let nd = views(dirs@);
                assert(ni =~= old_ids.insert(p as int, x@));
                assert(nd =~= old_dirs.insert(p as int, d@));
                assert forall|q: int| 0 <= q < old_ids.len() implies #[trigger] old_ids[q] != x@ by {
                    if q < p {
                        crate::text::lemma_lex_reflexive(x@);
                    } else {
                        assert(lex_le(x@, old_ids[p as int]));
                        if q > p {
                            assert(lex_le(old_ids[p as int], old_ids[q]) && old_ids[p as int] != old_ids[q]);
                            if old_ids[q] == x@ {
                                crate::text::lemma_lex_antisym(x@, old_ids[p as int]);
                            }
                        }
                    }
                }
                assert forall|a: int, b: int| 0 <= a < b < ni.len() implies lex_le(ni[a], ni[b]) && ni[a] != ni[b] by {
                    if a < p && b == p {
                        crate::text::lemma_lex_total(x@, old_ids[a]);
                    } else if a == p && b > p {
                        assert(ni[b] == old_ids[b - 1]);
                        if b - 1 > p {
                            crate::text::lemma_lex_trans(x@, old_ids[p as int], old_ids[b - 1]);
                        }
                    } else if a < p && b > p {
                        assert(ni[a] == old_ids[a] && ni[b] == old_ids[b - 1]);
                    } else if b < p {
                        assert(ni[a] == old_ids[a] && ni[b] == old_ids[b]);
                    } else {
                        assert(ni[a] == old_ids[a - 1] && ni[b] == old_ids[b - 1]);
                    }
                }
                assert forall|k: int| 0 <= k < ni.len() implies last_dir_of(post, #[trigger] ni[k]) == Some(nd[k]) by {
                    if k < p {
                        assert(ni[k] == old_ids[k] && nd[k] == old_dirs[k]);
                    } else if k > p {
                        assert(ni[k] == old_ids[k - 1] && nd[k] == old_dirs[k - 1]);
                    }
                }
                assert forall|id: Seq<char>| #[trigger] last_dir_of(post, id) is Some implies ni.contains(id) by {
                    if id == x@ {
                        assert(ni[p as int] == id);
                    } else {
                        assert(last_dir_of(pre, id) is Some);
                        let q = choose|q: int| 0 <= q < old_ids.len() && old_ids[q] == id;
                        if q < p {
                            assert(ni[q] == id);
                        } else {
                            assert(ni[q + 1] == id);
                        }
                    }
                }
            }
        }
        i = i + 1;
    }
    assert(found@.take(i as int) =~= found@);
    PluginScanSummary { plugin_ids: ids, roots: dirs }
}

/// A directory found later for a plugin id replaces the one found before
/// it; the directories of other ids stay as they were.
pub proof fn law_later_plugin_dir_replaces_earlier(found: Seq<ScannedPluginDir>, d: ScannedPluginDir, id: Seq<char>)
    ensures
        last_dir_of(found.push(d), trim(d.id@)) == Some(d.dir@),
        id != trim(d.id@) ==> last_dir_of(found.push(d), id) == last_dir_of(found, id),
{
    assert(found.push(d).drop_last() =~= found);
}

/// Host-wide directory plugin settings (`oclive_host_plugins.json`).
#[derive(Debug)]
pub struct HostPluginsFile {
    pub developer_mode: bool,
    pub extra_plugin_roots: Vec<String>,
    pub shell_plugin_id: Option<String>,
}

impl HostPluginsFile {
    /// Developer mode: set in the file, or `OCLIVE_DEVELOPER` is `1`, `true`
    /// or `yes` (trimmed, ASCII case-insensitive). `env_developer` is that
    /// variable's raw value.
    pub open spec fn developer_effective_spec(&self, env_developer: Option<&str>) -> bool {
        self.developer_mode || crate::theater::config::flag_or(crate::theater::guardrails::opt_str(env_developer), false)
    }

    pub fn developer_effective(&self, env_developer: Option<&str>) -> (r: bool)
        ensures
            r == self.developer_effective_spec(env_developer),
    {
        self.developer_mode || crate::theater::config::flag_value(env_developer, false)
    }
}

/// Strictly ascending, and exactly the declared event names.
pub open spec fn events_ok(r: Seq<Seq<char>>, lists: Seq<Vec<String>>) -> bool {
    &&& forall|i: int, j: int| 0 <= i < j < r.len() ==> lex_le(r[i], r[j]) && r[i] != r[j]
    &&& forall|e: Seq<char>| r.contains(e) <==> declared_event(lists, e)
}

/// An event name some list declares (trimmed, non-empty).
pub open spec fn declared_event(lists: Seq<Vec<String>>, e: Seq<char>) -> bool {
    e.len() > 0 && exists|i: int, j: int|
        0 <= i < lists.len() && 0 <= j < lists[i]@.len() && trim(lists[i]@[j]@) == e
}

/// The bridge event names of the UI slots declared, in order, untrimmed.
pub open spec fn decl_events(decls: Seq<SlotDeclCandidate>) -> Seq<Seq<char>>
    decreases decls.len(),
{
    if decls.len() == 0 {
        Seq::empty()
    } else {
        decl_events(decls.drop_last()) + views(decls.last().bridge_events@)
    }
}

/// The bridge event names a plugin's manifest declares: its shell's, then
/// each declared UI slot's.
pub open spec fn raw_events(p: PluginSlotSource) -> Seq<Seq<char>> {
    views(p.shell_bridge_events@) + decl_events(p.decls@)
}

/// An event name (trimmed, non-empty) that a plugin declares whose
/// manifest loads and that the role does not disable.
pub open spec fn subscribed_event(plugins: Seq<PluginSlotSource>, disabled: Seq<String>, e: Seq<char>) -> bool {
    e.len() > 0 && exists|i: int, j: int|
        0 <= i < plugins.len() && plugin_active(plugins[i], disabled) && 0 <= j < raw_events(plugins[i]).len()
            && trim(#[trigger] raw_events(plugins[i])[j]) == e
}

fn plugin_raw_events(p: &PluginSlotSource) -> (r: Vec<String>)
    ensures
        views(r@) == raw_events(*p),
{
    let mut out = crate::resource::model::copy_strings(&p.shell_bridge_events);
    let ghost sh = views(p.shell_bridge_events@);
    let mut d: usize = 0;
    assert(decl_events(p.decls@.take(0)) =~= Seq::<Seq<char>>::empty());
    assert(views(out@) =~= sh + decl_events(p.decls@.take(0)));
    while d < p.decls.len()
        invariant
            d <= p.decls@.len(),
            sh == views(p.shell_bridge_events@),
            views(out@) == sh + decl_events(p.decls@.take(d as int)),
        decreases p.decls.len() - d,
    {
        let ghost before = out@;
        let mut more = crate::resource::model::copy_strings(&p.decls[d].bridge_events);
        let ghost mv = more@;
        out.append(&mut more);
        proof {
            let t1 = p.decls@.take(d + 1);
            assert(t1.drop_last() =~= p.decls@.take(d as int));
            assert(t1.last() == p.decls@[d as int]);
            assert(out@ =~= before + mv);
            assert(views(out@) =~= views(before) + views(mv));
            assert(views(out@) =~= sh + decl_events(t1));
        }
        d = d + 1;
    }
    assert(p.decls@.take(d as int) =~= p.decls@);
    out
}

/// The bridge events the enabled plugins subscribe to: each event name
/// that the shell or a UI slot of a plugin declares whose manifest loads
/// and that the role does not disable, once, trimmed, in `str` order.
pub fn collect_subscribed_host_events(plugins: &Vec<PluginSlotSource>, disabled: &Vec<String>) -> (r: Vec<String>)
    ensures
        forall|i: int, j: int| 0 <= i < j < r@.len() ==> lex_le(r@[i]@, r@[j]@) && r@[i]@ != r@[j]@,
        forall|e: Seq<char>| #[trigger] views(r@).contains(e) <==> subscribed_event(plugins@, disabled@, e),
{
    let mut lists: Vec<Vec<String>> = Vec::new();
    let mut i: usize = 0;
    while i < plugins.len()
        invariant
            i <= plugins@.len(),
            lists@.len() == i,
            forall|x: int|
                0 <= x < i ==> views(#[trigger] lists@[x]@) == if plugin_active(plugins@[x], disabled@) {
                    raw_events(plugins@[x])
                } else {
                    Seq::empty()
                },
        decreases plugins.len() - i,
    {
        let p = &plugins[i];
        let active = p.manifest_loaded && !contains_str(disabled, &crate::text::chars_of(p.plugin_id.as_str()));
        let l = if active {
            plugin_raw_events(p)
        } else {
            Vec::new()
        };
        proof {
            if !active {
                assert(views(l@) =~= Seq::<Seq<char>>::empty());
            }
        }
        let ghost old_lists = lists@;
        lists.push(l);
        proof {
            assert forall|x: int| 0 <= x < i + 1 implies views(#[trigger] lists@[x]@) == if plugin_active(
                plugins@[x],
                disabled@,
            ) {
                raw_events(plugins@[x])
            } else {
                Seq::empty()
            } by {
                if x < i {
                    assert(lists@[x] == old_lists[x]);
                }
            }
        }
        i = i + 1;
    }
    let r = merge_bridge_events(&lists);
    proof {
        assert forall|e: Seq<char>| declared_event(lists@, e) <==> subscribed_event(plugins@, disabled@, e) by {
            if declared_event(lists@, e) {
                let (x, y) = choose|x: int, y: int|
                    0 <= x < lists@.len() && 0 <= y < lists@[x]@.len() && trim(lists@[x]@[y]@) == e;
                assert(views(lists@[x]@)[y] == lists@[x]@[y]@);
                if !plugin_active(plugins@[x], disabled@) {
                    assert(views(lists@[x]@).len() == 0);
                }
                assert(trim(raw_events(plugins@[x])[y]) == e);
            }
            if subscribed_event(plugins@, disabled@, e) {
                let (x, y) = choose|x: int, y: int|
                    0 <= x < plugins@.len() && plugin_active(plugins@[x], disabled@) && 0 <= y < raw_events(
                        plugins@[x],
                    ).len() && trim(#[trigger] raw_events(plugins@[x])[y]) == e;
                assert(views(lists@[x]@) == raw_events(plugins@[x]));
                assert(views(lists@[x]@)[y] == lists@[x]@[y]@);
                assert(trim(lists@[x]@[y]@) == e);
            }
        }
        assert forall|i: int, j: int| 0 <= i < j < r@.len() implies lex_le(r@[i]@, r@[j]@) && r@[i]@ != r@[j]@ by {
            assert(views(r@)[i] == r@[i]@ && views(r@)[j] == r@[j]@);
        }
    }
    r
}

pub fn contains_str(v: &Vec<String>, s: &[char]) -> (r: bool)
    ensures
        r == views(v@).contains(s@),
{
    let mut i: usize = 0;
    while i < v.len()
        invariant
            i <= v.len(),
            forall|j: int| 0 <= j < i ==> v@[j]@ != s@,
        decreases v.len() - i,
    {
        let c = crate::text::chars_of(v[i].as_str());
        if crate::text::seq_eq(&c, s) {
            assert(views(v@)[i as int] == s@);
            return true;
        }
        i = i + 1;
    }
    proof {
        if views(v@).contains(s@) {
            let k = choose|k: int| 0 <= k < views(v@).len() && views(v@)[k] == s@;
            assert(v@[k]@ == s@);
        }
    }
    false
}

/// Merges bridge event lists: every listed event name once, trimmed, in
/// `str` order; blank names are dropped.
pub fn merge_bridge_events(lists: &Vec<Vec<String>>) -> (r: Vec<String>)
    ensures
        events_ok(views(r@), lists@),
{
    broadcast use vstd::seq_lib::group_to_multiset_ensures;
    let mut set: Vec<String> = Vec::new();
    let mut i: usize = 0;
    while i < lists.len()
        invariant
            i <= lists.len(),
            forall|a: int, b: int| 0 <= a < b < set@.len() ==> set@[a]@ != set@[b]@,
            forall|e: Seq<char>|
                #[trigger] views(set@).contains(e) <==> (e.len() > 0 && exists|x: int, y: int|
                    0 <= x < i && 0 <= y < lists@[x]@.len() && trim(lists@[x]@[y]@) == e),
        decreases lists.len() - i,
    {
        let list = &lists[i];
        let mut j: usize = 0;
        while j < list.len()
            invariant
                i < lists.len(),
                list == &lists@[i as int],
                j <= list.len(),
                forall|a: int, b: int| 0 <= a < b < set@.len() ==> set@[a]@ != set@[b]@,
                forall|e: Seq<char>|
                    #[trigger] views(set@).contains(e) <==> (e.len() > 0 && ((exists|x: int, y: int|
                        0 <= x < i && 0 <= y < lists@[x]@.len() && trim(lists@[x]@[y]@) == e) || exists|y: int|
                        0 <= y < j && trim(list@[y]@) == e)),
            decreases list.len() - j,
        {
            let t = crate::text::trim_chars(list[j].as_str());
            let ghost before = views(set@);
            let mut pushed = false;
            if t.len() > 0 && !contains_str(&set, &t) {
                set.push(crate::text::string_of(&t));
                pushed = true;
                proof {
                    assert(views(set@) =~= before.push(t@));
                    assert forall|a: int, b: int| 0 <= a < b < set@.len() implies set@[a]@ != set@[b]@ by {
                        if b == set@.len() - 1 {
                            assert(before[a] == set@[a]@);
                        }
                    }
                }
            }
            proof {
                if !pushed {
                    assert(views(set@) =~= before);
                }
                assert forall|e: Seq<char>| before.contains(e) implies views(set@).contains(e) by {
                    let k = choose|k: int| 0 <= k < before.len() && before[k] == e;
                    assert(views(set@)[k] == e);
                }
                assert forall|e: Seq<char>| (e.len() > 0 && ((exists|x: int, y: int|
                    0 <= x < i && 0 <= y < lists@[x]@.len() && trim(lists@[x]@[y]@) == e) || exists|y: int|
                    0 <= y < j + 1 && trim(list@[y]@) == e)) implies views(set@).contains(e) by {
                    if exists|y: int| 0 <= y < j + 1 && trim(list@[y]@) == e {
                        let y = choose|y: int| 0 <= y < j + 1 && trim(list@[y]@) == e;
                        if y == j {
                            assert(e == t@);
                            if pushed {
                                assert(views(set@)[set@.len() - 1] == e);
                            } else {
                                assert(before.contains(e));
                            }
                        } else {
                            assert(before.contains(e));
                        }
                    } else {
                        assert(before.contains(e));
                    }
                }
                assert forall|e: Seq<char>| views(set@).contains(e) implies (e.len() > 0 && ((exists|x: int, y: int|
                    0 <= x < i && 0 <= y < lists@[x]@.len() && trim(lists@[x]@[y]@) == e) || exists|y: int|
                    0 <= y < j + 1 && trim(list@[y]@) == e)) by {
                    let k = choose|k: int| 0 <= k < views(set@).len() && views(set@)[k] == e;
                    if pushed && k == before.len() {
                        assert(e == t@);
                        assert(trim(list@[j as int]@) == e);
                    } else {
                        assert(before[k] == e);
                        assert(before.contains(e));
                    }
                }
            }
            j = j + 1;
        }
        i = i + 1;
    }
    let ghost unsorted = views(set@);
    let r = sort_strings_unique(set);
    proof {
        assert forall|i: int, j: int| 0 <= i < j < views(r@).len() implies lex_le(views(r@)[i], views(r@)[j])
            && views(r@)[i] != views(r@)[j] by {
            assert(views(r@)[i] == r@[i]@ && views(r@)[j] == r@[j]@);
        }
        assert forall|e: Seq<char>| views(r@).contains(e) <==> declared_event(lists@, e) by {
            if views(r@).contains(e) {
                assert(views(r@).to_multiset().count(e) > 0);
                assert(unsorted.contains(e));
            }
            if unsorted.contains(e) {
                assert(unsorted.to_multiset().count(e) > 0);
                assert(views(r@).contains(e));
            }
        }
    }
    r
}

/// Sorting strings that are pairwise distinct gives a strictly ascending
/// list with the same elements.
pub(crate) fn sort_strings_unique(v: Vec<String>) -> (r: Vec<String>)
    requires
        forall|a: int, b: int| 0 <= a < b < v@.len() ==> v@[a]@ != v@[b]@,
    ensures
        forall|i: int, j: int| 0 <= i < j < r@.len() ==> lex_le(r@[i]@, r@[j]@) && r@[i]@ != r@[j]@,
        views(r@).to_multiset() == views(v@).to_multiset(),
{
    broadcast use vstd::seq_lib::group_to_multiset_ensures;
    let ghost vv = views(v@);
    let r = crate::text::sort_strings(v);
    proof {
        assert forall|i: int, j: int| 0 <= i < j < r@.len() implies lex_le(r@[i]@, r@[j]@) && r@[i]@ != r@[j]@ by {
            assert(views(r@)[i] == r@[i]@ && views(r@)[j] == r@[j]@);
            if r@[i]@ == r@[j]@ {
                let e = r@[i]@;
                assert(views(r@).to_multiset().count(e) >= 2) by {
                    lemma_count_two(views(r@), i, j);
                }
                lemma_count_distinct(vv, e);
            }
        }
    }
    r
}

proof fn lemma_count_two(s: Seq<Seq<char>>, i: int, j: int)
    requires
        0 <= i < j < s.len(),
        s[i] == s[j],
    ensures
        s.to_multiset().count(s[i]) >= 2,
{
    broadcast use vstd::seq_lib::group_to_multiset_ensures;
    let e = s[i];
    vstd::seq_lib::to_multiset_remove(s, j);
    assert(s.remove(j)[i] == e);
    assert(s.remove(j).to_multiset().count(e) > 0);
}

proof fn lemma_count_distinct(s: Seq<Seq<char>>, e: Seq<char>)
    requires
        forall|a: int, b: int| 0 <= a < b < s.len() ==> s[a] != s[b],
    ensures
        s.to_multiset().count(e) <= 1,
    decreases s.len(),
{
    broadcast use vstd::seq_lib::group_to_multiset_ensures;
    if s.len() > 0 {
        let l = s.last();
        lemma_count_distinct(s.drop_last(), e);
        vstd::seq_lib::to_multiset_build(s.drop_last(), l);
        assert(s.drop_last().push(l) =~= s);
        if l == e {
            assert(!s.drop_last().contains(e)) by {
                if s.drop_last().contains(e) {
                    let k = choose|k: int| 0 <= k < s.drop_last().len() && s.drop_last()[k] == e;
                    assert(s[k] == s[s.len() - 1]);
                }
            }
        }
    }
}

/// One embedded UI slot contribution of a plugin.
#[derive(Debug)]
pub struct PluginUiSlotDto {
    pub plugin_id: String,
    pub slot: String,
    pub appearance_id: String,
    pub label: Option<String>,
    pub entry: String,
    pub vue_component: Option<String>,
    pub bridge_events: Vec<String>,
    pub url: String,
}

/// A slot contribution as plain values.
pub struct SlotView {
    pub plugin_id: Seq<char>,
    pub slot: Seq<char>,
    pub appearance_id: Seq<char>,
    pub label: Option<Seq<char>>,
    pub entry: Seq<char>,
    pub vue_component: Option<Seq<char>>,
    pub bridge_events: Seq<Seq<char>>,
    pub url: Seq<char>,
}

impl View for PluginUiSlotDto {
    type V = SlotView;

    open spec fn view(&self) -> SlotView {
        SlotView {
            plugin_id: self.plugin_id@,
            slot: self.slot@,
            appearance_id: self.appearance_id@,
            label: crate::resource::model::opt_view(self.label),
            entry: self.entry@,
            vue_component: crate::resource::model::opt_view(self.vue_component),
            bridge_events: views(self.bridge_events@),
            url: self.url@,
        }
    }
}

impl PluginUiSlotDto {
    pub fn copy(&self) -> (r: PluginUiSlotDto)
        ensures
            r@ == self@,
    {
        let ev = crate::resource::model::copy_strings(&self.bridge_events);
        assert(views(ev@) =~= views(self.bridge_events@));
        PluginUiSlotDto {
            plugin_id: self.plugin_id.clone(),
            slot: self.slot.clone(),
            appearance_id: self.appearance_id.clone(),
            label: crate::resource::model::copy_opt_string(&self.label),
            entry: self.entry.clone(),
            vue_component: crate::resource::model::copy_opt_string(&self.vue_component),
            bridge_events: ev,
            url: self.url.clone(),
        }
    }
}

pub open spec fn slot_views(s: Seq<PluginUiSlotDto>) -> Seq<SlotView> {
    s.map_values(|d: PluginUiSlotDto| d@)
}

/// The contribution of plugin `id` that counts: the last one listed.
pub open spec fn last_of(s: Seq<SlotView>, id: Seq<char>) -> Option<SlotView>
    decreases s.len(),
{
    if s.len() == 0 {
        None
    } else if s.last().plugin_id == id {
        Some(s.last())
    } else {
        last_of(s.drop_last(), id)
    }
}

/// Position of the first occurrence of `id` in `order`.
pub open spec fn order_pos(order: Seq<Seq<char>>, id: Seq<char>) -> Option<int>
    decreases order.len(),
{
    if order.len() == 0 {
        None
    } else if order.last() == id && order_pos(order.drop_last(), id) is None {
        Some(order.len() - 1)
    } else {
        order_pos(order.drop_last(), id)
    }
}

/// The first `k` slots are those named in `order`, in the order first
/// named; the rest are unnamed and ascending by plugin id.
pub open spec fn split_at(r: Seq<SlotView>, order: Seq<Seq<char>>, k: int) -> bool {
    &&& 0 <= k <= r.len()
    &&& forall|i: int| 0 <= i < k ==> order_pos(order, #[trigger] r[i].plugin_id) is Some
    &&& forall|i: int| k <= i < r.len() ==> order_pos(order, #[trigger] r[i].plugin_id) is None
    &&& forall|i: int, j: int|
        0 <= i < j < k ==> order_pos(order, r[i].plugin_id)->0 < order_pos(order, r[j].plugin_id)->0
    &&& forall|i: int, j: int| k <= i < j < r.len() ==> lex_le(r[i].plugin_id, r[j].plugin_id)
}

/// Slots in display order: one per plugin (its last contribution), first
/// the plugins named in `order` in the order they are first named, then the
/// others by plugin id.
pub open spec fn slots_ordered(r: Seq<SlotView>, slots: Seq<SlotView>, order: Seq<Seq<char>>) -> bool {
    &&& forall|i: int, j: int| 0 <= i < j < r.len() ==> r[i].plugin_id != r[j].plugin_id
    &&& forall|i: int| 0 <= i < r.len() ==> last_of(slots, #[trigger] r[i].plugin_id) == Some(r[i])
    &&& forall|id: Seq<char>| #[trigger] last_of(slots, id) is Some ==> exists|i: int| 0 <= i < r.len() && r[i].plugin_id == id
    &&& exists|k: int| #[trigger] split_at(r, order, k)
}

proof fn lemma_last_of_push(s: Seq<SlotView>, x: SlotView, id: Seq<char>)
    ensures
        last_of(s.push(x), id) == if x.plugin_id == id { Some(x) } else { last_of(s, id) },
{
    assert(s.push(x).drop_last() =~= s);
}

proof fn lemma_last_of_id(s: Seq<SlotView>, id: Seq<char>)
    ensures
        last_of(s, id) matches Some(v) ==> v.plugin_id == id,
    decreases s.len(),
{
    if s.len() > 0 {
        lemma_last_of_id(s.drop_last(), id);
    }
}

proof fn lemma_order_pos_push(o: Seq<Seq<char>>, x: Seq<char>, id: Seq<char>)
    ensures
        order_pos(o.push(x), id) == if order_pos(o, id) is Some {
            order_pos(o, id)
        } else if x == id {
            Some(o.len() as int)
        } else {
            None
        },
{
    assert(o.push(x).drop_last() =~= o);
}

fn find_slot(v: &Vec<PluginUiSlotDto>, id: &str) -> (r: Option<usize>)
    ensures
        r matches Some(k) ==> k < v@.len() && v@[k as int].plugin_id@ == id@,
        r is None ==> forall|q: int| 0 <= q < v@.len() ==> v@[q].plugin_id@ != id@,
{
    let mut q: usize = 0;
    while q < v.len()
        invariant
            q <= v.len(),
            forall|j: int| 0 <= j < q ==> v@[j].plugin_id@ != id@,
        decreases v.len() - q,
    {
        if crate::text::str_eq(v[q].plugin_id.as_str(), id) {
            return Some(q);
        }
        q = q + 1;
    }
    None
}

/// One contribution per plugin, the last one listed.
fn last_per_plugin(slots: &Vec<PluginUiSlotDto>) -> (u: Vec<PluginUiSlotDto>)
    ensures
        forall|q: int, w: int| 0 <= q < w < u@.len() ==> u@[q].plugin_id@ != u@[w].plugin_id@,
        forall|q: int| 0 <= q < u@.len() ==> last_of(slot_views(slots@), #[trigger] u@[q].plugin_id@) == Some(u@[q]@),
        forall|id: Seq<char>| #[trigger] last_of(slot_views(slots@), id) is Some ==> exists|q: int|
            0 <= q < u@.len() && u@[q].plugin_id@ == id,
{
    let ghost sv = slot_views(slots@);
    let mut u: Vec<PluginUiSlotDto> = Vec::new();
    let mut i: usize = 0;
    while i < slots.len()
        invariant
            i <= slots.len(),
            sv == slot_views(slots@),
            forall|q: int, w: int| 0 <= q < w < u@.len() ==> u@[q].plugin_id@ != u@[w].plugin_id@,
            forall|q: int| 0 <= q < u@.len() ==> last_of(sv.take(i as int), #[trigger] u@[q].plugin_id@) == Some(u@[q]@),
            forall|id: Seq<char>| #[trigger] last_of(sv.take(i as int), id) is Some ==> exists|q: int|
                0 <= q < u@.len() && u@[q].plugin_id@ == id,
        decreases slots.len() - i,
    {
        let c = slots[i].copy();
        let ghost x = sv[i as int];
        assert(c@ == x);
        proof {
            assert(sv.take(i + 1) =~= sv.take(i as int).push(x));
            assert forall|id: Seq<char>| last_of(sv.take(i + 1), id) == if x.plugin_id == id {
                Some(x)
            } else {
                last_of(sv.take(i as int), id)
            } by {
                lemma_last_of_push(sv.take(i as int), x, id);
            }
        }
        let ghost old_u = u@;
        match find_slot(&u, slots[i].plugin_id.as_str()) {
            Some(k) => {
                u.set(k, c);
                proof {
                    assert forall|q: int| 0 <= q < u@.len() implies last_of(sv.take(i + 1), #[trigger] u@[q].plugin_id@)
                        == Some(u@[q]@) by {
                        if q != k {
                            assert(u@[q] == old_u[q]);
                            assert(old_u[q].plugin_id@ != x.plugin_id);
                        }
                    }
                    assert forall|id: Seq<char>| #[trigger] last_of(sv.take(i + 1), id) is Some implies exists|q: int|
                        0 <= q < u@.len() && u@[q].plugin_id@ == id by {
                        if id == x.plugin_id {
                            assert(u@[k as int].plugin_id@ == id);
                        } else {
                            assert(last_of(sv.take(i as int), id) is Some);
                            let q = choose|q: int| 0 <= q < old_u.len() && old_u[q].plugin_id@ == id;
                            assert(u@[q] == old_u[q]);
                        }
                    }
                }
            },
            None => {
                u.push(c);
                proof {
                    assert forall|q: int| 0 <= q < u@.len() implies last_of(sv.take(i + 1), #[trigger] u@[q].plugin_id@)
                        == Some(u@[q]@) by {
                        if q < old_u.len() {
                            assert(u@[q] == old_u[q]);
                            assert(old_u[q].plugin_id@ != x.plugin_id);
                        }
                    }
                    assert forall|id: Seq<char>| #[trigger] last_of(sv.take(i + 1), id) is Some implies exists|q: int|
                        0 <= q < u@.len() && u@[q].plugin_id@ == id by {
                        if id == x.plugin_id {
                            assert(u@[old_u.len() as int].plugin_id@ == id);
                        } else {
                            assert(last_of(sv.take(i as int), id) is Some);
                            let q = choose|q: int| 0 <= q < old_u.len() && old_u[q].plugin_id@ == id;
                            assert(u@[q] == old_u[q]);
                        }
                    }
                    assert forall|q: int, w: int| 0 <= q < w < u@.len() implies u@[q].plugin_id@ != u@[w].plugin_id@ by {
                        if w == old_u.len() {
                            assert(u@[q] == old_u[q]);
                        }
                    }
                }
            },
        }
        i = i + 1;
    }
    assert(sv.take(i as int) =~= sv);
    u
}

/// `out` and `uniq` split the plugins of `sv`, one contribution each.
pub open spec fn parts_ok(out: Seq<PluginUiSlotDto>, uniq: Seq<PluginUiSlotDto>, sv: Seq<SlotView>) -> bool {
    &&& forall|i: int, j: int| 0 <= i < j < out.len() ==> out[i].plugin_id@ != out[j].plugin_id@
    &&& forall|q: int, w: int| 0 <= q < w < uniq.len() ==> uniq[q].plugin_id@ != uniq[w].plugin_id@
    &&& forall|i: int, q: int| 0 <= i < out.len() && 0 <= q < uniq.len() ==> out[i].plugin_id@ != uniq[q].plugin_id@
    &&& forall|i: int| 0 <= i < out.len() ==> last_of(sv, #[trigger] out[i].plugin_id@) == Some(out[i]@)
    &&& forall|q: int| 0 <= q < uniq.len() ==> last_of(sv, #[trigger] uniq[q].plugin_id@) == Some(uniq[q]@)
    &&& forall|id: Seq<char>| #[trigger] last_of(sv, id) is Some ==> (exists|i: int|
        0 <= i < out.len() && out[i].plugin_id@ == id) || (exists|q: int| 0 <= q < uniq.len() && uniq[q].plugin_id@ == id)
}

proof fn lemma_move(out: Seq<PluginUiSlotDto>, uniq: Seq<PluginUiSlotDto>, sv: Seq<SlotView>, k: int)
    requires
        parts_ok(out, uniq, sv),
        0 <= k < uniq.len(),
    ensures
        parts_ok(out.push(uniq[k]), uniq.remove(k), sv),
{
    let o2 = out.push(uniq[k]);
    let u2 = uniq.remove(k);
    assert forall|q: int| 0 <= q < u2.len() implies u2[q] == if q < k { uniq[q] } else { uniq[q + 1] } by {}
    assert forall|i: int, j: int| 0 <= i < j < o2.len() implies o2[i].plugin_id@ != o2[j].plugin_id@ by {
        if j == out.len() {
            assert(o2[i] == out[i]);
        }
    }
    assert forall|q: int, w: int| 0 <= q < w < u2.len() implies u2[q].plugin_id@ != u2[w].plugin_id@ by {
        let q1 = if q < k { q } else { q + 1 };
        let w1 = if w < k { w } else { w + 1 };
        assert(u2[q] == uniq[q1] && u2[w] == uniq[w1]);
    }
    assert forall|i: int, q: int| 0 <= i < o2.len() && 0 <= q < u2.len() implies o2[i].plugin_id@ != u2[q].plugin_id@ by {
        let q1 = if q < k { q } else { q + 1 };
        assert(u2[q] == uniq[q1]);
        if i == out.len() {
            assert(o2[i] == uniq[k]);
        } else {
            assert(o2[i] == out[i]);
        }
    }
    assert forall|i: int| 0 <= i < o2.len() implies last_of(sv, #[trigger] o2[i].plugin_id@) == Some(o2[i]@) by {
        if i == out.len() {
            assert(o2[i] == uniq[k]);
        } else {
            assert(o2[i] == out[i]);
        }
    }
    assert forall|q: int| 0 <= q < u2.len() implies last_of(sv, #[trigger] u2[q].plugin_id@) == Some(u2[q]@) by {
        let q1 = if q < k { q } else { q + 1 };
        assert(u2[q] == uniq[q1]);
    }
    assert forall|id: Seq<char>| #[trigger] last_of(sv, id) is Some implies (exists|i: int|
        0 <= i < o2.len() && o2[i].plugin_id@ == id) || (exists|q: int| 0 <= q < u2.len() && u2[q].plugin_id@ == id) by {
        if exists|i: int| 0 <= i < out.len() && out[i].plugin_id@ == id {
            let i = choose|i: int| 0 <= i < out.len() && out[i].plugin_id@ == id;
            assert(o2[i] == out[i]);
        } else {
            let q = choose|q: int| 0 <= q < uniq.len() && uniq[q].plugin_id@ == id;
            if q == k {
                assert(o2[out.len() as int] == uniq[k]);
            } else if q < k {
                assert(u2[q] == uniq[q]);
            } else {
                assert(u2[q - 1] == uniq[q]);
            }
        }
    }
}

proof fn lemma_order_pos_bound(o: Seq<Seq<char>>, id: Seq<char>)
    ensures
        order_pos(o, id) matches Some(p) ==> 0 <= p < o.len() && o[p] == id,
        order_pos(o, id) is None ==> forall|j: int| 0 <= j < o.len() ==> o[j] != id,
    decreases o.len(),
{
    if o.len() > 0 {
        lemma_order_pos_bound(o.drop_last(), id);
        assert forall|j: int| 0 <= j < o.len() - 1 implies o[j] == o.drop_last()[j] by {}
    }
}

/// Orders one slot's contributions for display.
pub fn order_plugin_slots(slots: Vec<PluginUiSlotDto>, order: &Vec<String>) -> (r: Vec<PluginUiSlotDto>)
    ensures
        slots_ordered(slot_views(r@), slot_views(slots@), views(order@)),
{
    let ghost sv = slot_views(slots@);
    let ghost ov = views(order@);
    let mut uniq = last_per_plugin(&slots);
    let mut out: Vec<PluginUiSlotDto> = Vec::new();
    assert(parts_ok(out@, uniq@, sv));
    let mut t: usize = 0;
    while t < order.len()
        invariant
            t <= order.len(),
            ov == views(order@),
            parts_ok(out@, uniq@, sv),
            forall|i: int| 0 <= i < out@.len() ==> order_pos(ov.take(t as int), #[trigger] out@[i].plugin_id@) is Some,
            forall|q: int| 0 <= q < uniq@.len() ==> order_pos(ov.take(t as int), #[trigger] uniq@[q].plugin_id@) is None,
            forall|i: int, j: int|
                0 <= i < j < out@.len() ==> order_pos(ov.take(t as int), out@[i].plugin_id@)->0 < order_pos(
                    ov.take(t as int),
                    out@[j].plugin_id@,
                )->0,
        decreases order.len() - t,
    {
        let ghost o_t = ov.take(t as int);
        let ghost x = ov[t as int];
        proof {
            assert(ov.take(t + 1) =~= o_t.push(x));
            assert forall|id: Seq<char>| order_pos(ov.take(t + 1), id) == if order_pos(o_t, id) is Some {
                order_pos(o_t, id)
            } else if x == id {
                Some(t as int)
            } else {
                None
            } by {
                lemma_order_pos_push(o_t, x, id);
            }
        }
        let ghost old_out = out@;
        let ghost old_uniq = uniq@;
        match find_slot(&uniq, order[t].as_str()) {
            Some(k) => {
                proof {
                    lemma_move(old_out, old_uniq, sv, k as int);
                    assert(old_uniq[k as int].plugin_id@ == x);
                }
                let d = uniq.remove(k);
                out.push(d);
                proof {
                    assert(out@ =~= old_out.push(old_uniq[k as int]));
                    assert(uniq@ =~= old_uniq.remove(k as int));
                    assert forall|i: int| 0 <= i < out@.len() implies order_pos(ov.take(t + 1), #[trigger] out@[i].plugin_id@)
                        is Some by {
                        if i < old_out.len() {
                            assert(out@[i] == old_out[i]);
                        }
                    }
                    assert forall|q: int| 0 <= q < uniq@.len() implies order_pos(ov.take(t + 1), #[trigger] uniq@[q].plugin_id@)
                        is None by {
                        let q1 = if q < k { q } else { q + 1 };
                        assert(uniq@[q] == old_uniq[q1]);
                        assert(old_uniq[q1].plugin_id@ != old_uniq[k as int].plugin_id@);
                    }
                    assert forall|i: int, j: int| 0 <= i < j < out@.len() implies order_pos(
                        ov.take(t + 1),
                        out@[i].plugin_id@,
                    )->0 < order_pos(ov.take(t + 1), out@[j].plugin_id@)->0 by {
                        assert(out@[i] == old_out[i]);
                        lemma_order_pos_bound(o_t, old_out[i].plugin_id@);
                        if j < old_out.len() {
                            assert(out@[j] == old_out[j]);
                        }
                    }
                }
            },
            None => {
                proof {
                    assert forall|i: int| 0 <= i < out@.len() implies order_pos(ov.take(t + 1), #[trigger] out@[i].plugin_id@)
                        is Some by {}
                    assert forall|q: int| 0 <= q < uniq@.len() implies order_pos(ov.take(t + 1), #[trigger] uniq@[q].plugin_id@)
                        is None by {
                        assert(uniq@[q].plugin_id@ != x);
                    }
                }
            },
        }
        t = t + 1;
    }
    assert(ov.take(t as int) =~= ov);
    let kb = out.len();
    while uniq.len() > 0
        invariant
            kb <= out@.len(),
            parts_ok(out@, uniq@, sv),
            forall|i: int| 0 <= i < kb ==> order_pos(ov, #[trigger] out@[i].plugin_id@) is Some,
            forall|i: int| kb <= i < out@.len() ==> order_pos(ov, #[trigger] out@[i].plugin_id@) is None,
            forall|q: int| 0 <= q < uniq@.len() ==> order_pos(ov, #[trigger] uniq@[q].plugin_id@) is None,
            forall|i: int, j: int|
                0 <= i < j < kb ==> order_pos(ov, out@[i].plugin_id@)->0 < order_pos(ov, out@[j].plugin_id@)->0,
            forall|i: int, j: int| kb <= i < j < out@.len() ==> lex_le(out@[i].plugin_id@, out@[j].plugin_id@),
            forall|i: int, q: int|
                kb <= i < out@.len() && 0 <= q < uniq@.len() ==> lex_le(out@[i].plugin_id@, uniq@[q].plugin_id@),
        decreases uniq.len(),
    {
        let mut m: usize = 0;
        let mut q: usize = 1;
        proof {
            crate::text::lemma_lex_total(uniq@[0].plugin_id@, uniq@[0].plugin_id@);
        }
        while q < uniq.len()
            invariant
                m < uniq.len(),
                q <= uniq.len(),
                forall|w: int| 0 <= w < q ==> lex_le(uniq@[m as int].plugin_id@, uniq@[w].plugin_id@),
            decreases uniq.len() - q,
        {
            if !crate::text::lex_le_exec(uniq[m].plugin_id.as_str(), uniq[q].plugin_id.as_str()) {
                proof {
                    crate::text::lemma_lex_total(uniq@[m as int].plugin_id@, uniq@[q as int].plugin_id@);
                    assert forall|w: int| 0 <= w < q + 1 implies lex_le(uniq@[q as int].plugin_id@, uniq@[w].plugin_id@) by {
                        if w < q {
                            crate::text::lemma_lex_trans(
                                uniq@[q as int].plugin_id@,
                                uniq@[m as int].plugin_id@,
                                uniq@[w].plugin_id@,
                            );
                        } else {
                            crate::text::lemma_lex_total(uniq@[q as int].plugin_id@, uniq@[q as int].plugin_id@);
                        }
                    }
                }
                m = q;
            } else {
                proof {
                    if m == q {
                    }
                }
            }
            q = q + 1;
        }
        proof {
            crate::text::lemma_lex_total(uniq@[m as int].plugin_id@, uniq@[m as int].plugin_id@);
        }
        let ghost old_out = out@;
        let ghost old_uniq = uniq@;
        proof {
            lemma_move(old_out, old_uniq, sv, m as int);
        }
        let d = uniq.remove(m);
        out.push(d);
        proof {
            assert(out@ =~= old_out.push(old_uniq[m as int]));
            assert(uniq@ =~= old_uniq.remove(m as int));
            assert forall|i: int| 0 <= i < kb implies order_pos(ov, #[trigger] out@[i].plugin_id@) is Some by {
                assert(out@[i] == old_out[i]);
            }
            assert forall|i: int| kb <= i < out@.len() implies order_pos(ov, #[trigger] out@[i].plugin_id@) is None by {
                if i < old_out.len() {
                    assert(out@[i] == old_out[i]);
                }
            }
            assert forall|q2: int| 0 <= q2 < uniq@.len() implies order_pos(ov, #[trigger] uniq@[q2].plugin_id@) is None by {
                let q1 = if q2 < m { q2 } else { q2 + 1 };
                assert(uniq@[q2] == old_uniq[q1]);
            }
            assert forall|i: int, j: int| 0 <= i < j < kb implies order_pos(ov, out@[i].plugin_id@)->0 < order_pos(
                ov,
                out@[j].plugin_id@,
            )->0 by {
                assert(out@[i] == old_out[i] && out@[j] == old_out[j]);
            }
            assert forall|i: int, j: int| kb <= i < j < out@.len() implies lex_le(out@[i].plugin_id@, out@[j].plugin_id@) by {
                assert(out@[i] == old_out[i]);
                if j < old_out.len() {
                    assert(out@[j] == old_out[j]);
                }
            }
            assert forall|i: int, q2: int| kb <= i < out@.len() && 0 <= q2 < uniq@.len() implies lex_le(
                out@[i].plugin_id@,
                uniq@[q2].plugin_id@,
            ) by {
                let q1 = if q2 < m { q2 } else { q2 + 1 };
                assert(uniq@[q2] == old_uniq[q1]);
                if i < old_out.len() {
                    assert(out@[i] == old_out[i]);
                }
            }
        }
    }
    proof {
        let rv = slot_views(out@);
        assert forall|i: int| 0 <= i < out@.len() implies #[trigger] rv[i] == out@[i]@ by {}
        assert forall|i: int, j: int| 0 <= i < j < rv.len() implies rv[i].plugin_id != rv[j].plugin_id by {
            assert(rv[i] == out@[i]@ && rv[j] == out@[j]@);
        }
        assert forall|i: int| 0 <= i < rv.len() implies last_of(sv, #[trigger] rv[i].plugin_id) == Some(rv[i]) by {
            assert(rv[i] == out@[i]@);
        }
        assert forall|id: Seq<char>| #[trigger] last_of(sv, id) is Some implies exists|i: int|
            0 <= i < rv.len() && rv[i].plugin_id == id by {
            let i = choose|i: int| 0 <= i < out@.len() && out@[i].plugin_id@ == id;
            assert(rv[i] == out@[i]@);
        }
        assert(split_at(rv, ov, kb as int)) by {
            assert forall|i: int| 0 <= i < kb implies order_pos(ov, #[trigger] rv[i].plugin_id) is Some by {
                assert(rv[i] == out@[i]@);
            }
            assert forall|i: int| kb <= i < rv.len() implies order_pos(ov, #[trigger] rv[i].plugin_id) is None by {
                assert(rv[i] == out@[i]@);
            }
            assert forall|i: int, j: int| 0 <= i < j < kb implies order_pos(ov, rv[i].plugin_id)->0 < order_pos(
                ov,
                rv[j].plugin_id,
            )->0 by {
                assert(rv[i] == out@[i]@ && rv[j] == out@[j]@);
            }
            assert forall|i: int, j: int| kb <= i < j < rv.len() implies lex_le(rv[i].plugin_id, rv[j].plugin_id) by {
                assert(rv[i] == out@[i]@ && rv[j] == out@[j]@);
            }
        }
    }
    out
}

/// Embedded UI slot names accepted in non-shell plugin manifests, in
/// display order.
pub open spec fn embedded_slot_names() -> Seq<Seq<char>> {
    seq![
        "chat_toolbar"@,
        "settings.panel"@,
        "role.detail"@,
        "sidebar"@,
        "chat.header"@,
        "settings.plugins"@,
        "settings.advanced"@,
        "overlay.floating"@,
        "launcher.palette"@,
        "debug.dock"@,
    ]
}

pub fn embedded_ui_slot_names() -> (r: Vec<&'static str>)
    ensures
        r@.len() == embedded_slot_names().len(),
        forall|i: int| 0 <= i < r@.len() ==> #[trigger] r@[i]@ == embedded_slot_names()[i],
{
    let mut r: Vec<&'static str> = Vec::new();
    r.push("chat_toolbar");
    r.push("settings.panel");
    r.push("role.detail");
    r.push("sidebar");
    r.push("chat.header");
    r.push("settings.plugins");
    r.push("settings.advanced");
    r.push("overlay.floating");
    r.push("launcher.palette");
    r.push("debug.dock");
    r
}

/// The display order configured for one slot name.
pub struct SlotOrder {
    pub slot: String,
    pub plugin_ids: Vec<String>,
}

/// The configured order of a slot: the first entry for it, else none.
pub open spec fn order_for(orders: Seq<SlotOrder>, name: Seq<char>) -> Seq<Seq<char>>
    decreases orders.len(),
{
    if orders.len() == 0 {
        Seq::empty()
    } else if orders[0].slot@ == name {
        views(orders[0].plugin_ids@)
    } else {
        order_for(orders.drop_first(), name)
    }
}

fn order_for_exec(orders: &Vec<SlotOrder>, name: &str) -> (r: Vec<String>)
    ensures
        views(r@) == order_for(orders@, name@),
{
    let mut i: usize = 0;
    assert(orders@.skip(0) =~= orders@);
    while i < orders.len()
        invariant
            i <= orders.len(),
            order_for(orders@, name@) == order_for(orders@.skip(i as int), name@),
        decreases orders.len() - i,
    {
        assert(orders@.skip(i as int)[0] == orders@[i as int]);
        if crate::text::str_eq(orders[i].slot.as_str(), name) {
            return crate::resource::model::copy_strings(&orders[i].plugin_ids);
        }
        assert(orders@.skip(i as int).drop_first() =~= orders@.skip(i + 1));
        i = i + 1;
    }
    let r: Vec<String> = Vec::new();
    assert(views(r@) =~= Seq::<Seq<char>>::empty());
    r
}

/// The contributions to one slot, in the order given.
pub open spec fn bucket(slots: Seq<SlotView>, name: Seq<char>) -> Seq<SlotView> {
    slots.filter(|d: SlotView| d.slot == name)
}

fn bucket_exec(slots: &Vec<PluginUiSlotDto>, name: &str) -> (r: Vec<PluginUiSlotDto>)
    ensures
        slot_views(r@) == bucket(slot_views(slots@), name@),
{
    let ghost sv = slot_views(slots@);
    let mut r: Vec<PluginUiSlotDto> = Vec::new();
    let mut i: usize = 0;
    assert(slot_views(r@) =~= bucket(sv.take(0), name@)) by {
        reveal(Seq::filter);
    }
    while i < slots.len()
        invariant
            i <= slots.len(),
            sv == slot_views(slots@),
            slot_views(r@) == bucket(sv.take(i as int), name@),
        decreases slots.len() - i,
    {
        proof {
            reveal(Seq::filter);
            assert(sv.take(i + 1).drop_last() =~= sv.take(i as int));
        }
        let ghost before = slot_views(r@);
        if crate::text::str_eq(slots[i].slot.as_str(), name) {
            let c = slots[i].copy();
            r.push(c);
            assert(slot_views(r@) =~= before.push(sv[i as int]));
        }
        i = i + 1;
    }
    assert(sv.take(i as int) =~= sv);
    r
}

pub open spec fn flatten_slots(parts: Seq<Seq<SlotView>>) -> Seq<SlotView>
    decreases parts.len(),
{
    if parts.len() == 0 {
        Seq::empty()
    } else {
        flatten_slots(parts.drop_last()) + parts.last()
    }
}

/// The embedded slots in display order: slot by slot in the order of
/// `embedded_slot_names`, each slot's contributions ordered by its
/// configured plugin order.
pub open spec fn slots_layout(r: Seq<SlotView>, slots: Seq<SlotView>, orders: Seq<SlotOrder>) -> bool {
    exists|parts: Seq<Seq<SlotView>>|
        #![trigger flatten_slots(parts)]
        parts.len() == embedded_slot_names().len() && r == flatten_slots(parts) && forall|k: int|
            0 <= k < parts.len() ==> slots_ordered(
                #[trigger] parts[k],
                bucket(slots, embedded_slot_names()[k]),
                order_for(orders, embedded_slot_names()[k]),
            )
}

/// Lays the embedded slot contributions out for display.
pub fn layout_ui_slots(slots: &Vec<PluginUiSlotDto>, orders: &Vec<SlotOrder>) -> (r: Vec<PluginUiSlotDto>)
    ensures
        slots_layout(slot_views(r@), slot_views(slots@), orders@),
{
    let names = embedded_ui_slot_names();
    let mut out: Vec<PluginUiSlotDto> = Vec::new();
    let ghost mut parts: Seq<Seq<SlotView>> = Seq::empty();
    let mut n: usize = 0;
    assert(slot_views(out@) =~= flatten_slots(parts));
    while n < names.len()
        invariant
            n <= names.len(),
            names@.len() == embedded_slot_names().len(),
            forall|i: int| 0 <= i < names@.len() ==> #[trigger] names@[i]@ == embedded_slot_names()[i],
            parts.len() == n,
            slot_views(out@) == flatten_slots(parts),
            forall|k: int|
                0 <= k < n ==> slots_ordered(
                    #[trigger] parts[k],
                    bucket(slot_views(slots@), embedded_slot_names()[k]),
                    order_for(orders@, embedded_slot_names()[k]),
                ),
        decreases names.len() - n,
    {
        let name = names[n];
        let b = bucket_exec(slots, name);
        let order = order_for_exec(orders, name);
        let mut ordered = order_plugin_slots(b, &order);
        let ghost before = slot_views(out@);
        let ghost piece = slot_views(ordered@);
        out.append(&mut ordered);
        proof {
            assert(slot_views(out@) =~= before + piece);
            let np = parts.push(piece);
            assert(np.drop_last() =~= parts);
            assert forall|k: int| 0 <= k < n + 1 implies slots_ordered(
                #[trigger] np[k],
                bucket(slot_views(slots@), embedded_slot_names()[k]),
                order_for(orders@, embedded_slot_names()[k]),
            ) by {
                if k < n {
                    assert(np[k] == parts[k]);
                }
            }
            parts = np;
        }
        n = n + 1;
    }
    out
}

/// The plugin is disabled for the role.
pub open spec fn disabled_in(disabled: Seq<String>, id: Seq<char>) -> bool {
    views(disabled).contains(id)
}

/// A shell plugin id: the environment override, else the role's, else the
/// host's, each trimmed and only when non-blank.
pub open spec fn shell_choice(env: Option<Seq<char>>, role: Seq<char>, host: Option<Seq<char>>) -> Option<Seq<char>> {
    if env is Some && trim(env->0).len() > 0 {
        Some(trim(env->0))
    } else if trim(role).len() > 0 {
        Some(trim(role))
    } else if host is Some && trim(host->0).len() > 0 {
        Some(trim(host->0))
    } else {
        None
    }
}

/// The shell plugin id chosen, unless the role disables that plugin.
pub open spec fn resolved_shell(
    env: Option<Seq<char>>,
    role: Seq<char>,
    host: Option<Seq<char>>,
    disabled: Seq<String>,
) -> Option<Seq<char>> {
    match shell_choice(env, role, host) {
        Some(id) => if disabled_in(disabled, id) {
            None
        } else {
            Some(id)
        },
        None => None,
    }
}

fn non_blank(s: &str) -> (r: Option<String>)
    ensures
        crate::resource::model::opt_view(r) == if trim(s@).len() > 0 { Some(trim(s@)) } else { None::<Seq<char>> },
{
    let t = crate::text::trim_chars(s);
    if t.len() > 0 {
        Some(crate::text::string_of(&t))
    } else {
        None
    }
}

/// The shell plugin of the bootstrap: the chosen id unless disabled.
/// `env_shell` is the raw `OCLIVE_SHELL_PLUGIN_ID` value.
pub fn resolve_shell_plugin_id(
    env_shell: Option<&str>,
    role_shell: &str,
    host: &HostPluginsFile,
    disabled: &Vec<String>,
) -> (r: Option<String>)
    ensures
        crate::resource::model::opt_view(r) == resolved_shell(
            crate::theater::guardrails::opt_str(env_shell),
            role_shell@,
            crate::resource::model::opt_view(host.shell_plugin_id),
            disabled@,
        ),
{
    let from_env = match env_shell {
        Some(e) => non_blank(e),
        None => None,
    };
    let chosen = match from_env {
        Some(id) => Some(id),
        None => match non_blank(role_shell) {
            Some(id) => Some(id),
            None => match &host.shell_plugin_id {
                Some(h) => non_blank(h.as_str()),
                None => None,
            },
        },
    };
    match chosen {
        Some(id) => {
            let c = crate::text::chars_of(id.as_str());
            if contains_str(disabled, &c) {
                None
            } else {
                Some(id)
            }
        },
        None => None,
    }
}

/// One UI slot a plugin manifest declares: its slot name, its appearance
/// id (as the host normalises it), label, raw entry, Vue component and
/// bridge event names (empty without a bridge section), and the asset URL
/// of its normalised entry under the plugin.
#[derive(Debug)]
pub struct SlotDeclCandidate {
    pub slot: String,
    pub appearance_id: String,
    pub label: Option<String>,
    pub entry: String,
    pub vue_component: Option<String>,
    pub bridge_events: Vec<String>,
    pub asset_url: String,
}

/// A scanned directory plugin as the bootstrap reads it: whether its
/// manifest loads and has a shell section, the shell's URL and Vue entry,
/// the shell's bridge events, its declared UI slots, and the role's chosen
/// appearance per slot (slot, appearance id).
pub struct PluginSlotSource {
    pub plugin_id: String,
    pub manifest_loaded: bool,
    pub has_shell: bool,
    pub shell_url: Option<String>,
    pub shell_vue_entry: Option<String>,
    pub shell_bridge_events: Vec<String>,
    pub decls: Vec<SlotDeclCandidate>,
    pub selected_appearances: Vec<(String, String)>,
}

/// A plugin whose manifest loads and that the role does not disable.
pub open spec fn plugin_active(p: PluginSlotSource, disabled: Seq<String>) -> bool {
    p.manifest_loaded && !disabled_in(disabled, p.plugin_id@)
}

/// An active plugin without a shell section: it may contribute UI slots.
pub open spec fn slot_contributor(p: PluginSlotSource, disabled: Seq<String>) -> bool {
    plugin_active(p, disabled) && !p.has_shell
}

/// The role disabled plugin `pid`'s contribution to `slot`.
pub open spec fn contribution_disabled(dc: Seq<(String, String)>, slot: Seq<char>, pid: Seq<char>) -> bool {
    exists|i: int| 0 <= i < dc.len() && #[trigger] dc[i].0@ == slot && dc[i].1@ == pid
}

pub open spec fn is_embedded_slot(slot: Seq<char>) -> bool {
    embedded_slot_names().contains(slot)
}

/// Declaration `d` is for `slot` (and has appearance `w`, when given).
pub open spec fn decl_matches(d: SlotDeclCandidate, slot: Seq<char>, w: Option<Seq<char>>) -> bool {
    d.slot@ == slot && match w {
        Some(a) => d.appearance_id@ == a,
        None => true,
    }
}

/// The first declaration that matches.
#[verifier::opaque]
pub open spec fn first_decl(decls: Seq<SlotDeclCandidate>, slot: Seq<char>, w: Option<Seq<char>>) -> Option<int> {
    if exists|i: int| 0 <= i < decls.len() && decl_matches(#[trigger] decls[i], slot, w) {
        Some(
            choose|i: int|
                0 <= i < decls.len() && decl_matches(#[trigger] decls[i], slot, w) && forall|j: int|
                    0 <= j < i ==> !decl_matches(#[trigger] decls[j], slot, w),
        )
    } else {
        None
    }
}

/// The declaration picked for `slot`: the one with the wanted appearance,
/// else one with no appearance id, else the first for the slot.
pub open spec fn pick_decl(decls: Seq<SlotDeclCandidate>, slot: Seq<char>, want: Option<Seq<char>>) -> Option<int> {
    if want is Some && first_decl(decls, slot, want) is Some {
        first_decl(decls, slot, want)
    } else if first_decl(decls, slot, Some(Seq::empty())) is Some {
        first_decl(decls, slot, Some(Seq::empty()))
    } else {
        first_decl(decls, slot, None)
    }
}

/// The role's chosen appearance for `slot` (the first entry for it),
/// trimmed, when not blank.
#[verifier::opaque]
pub open spec fn wanted_appearance(sel: Seq<(String, String)>, slot: Seq<char>) -> Option<Seq<char>> {
    if exists|i: int| 0 <= i < sel.len() && #[trigger] sel[i].0@ == slot {
        let i = choose|i: int|
            0 <= i < sel.len() && #[trigger] sel[i].0@ == slot && forall|j: int| 0 <= j < i ==> #[trigger] sel[j].0@ != slot;
        if trim(sel[i].1@).len() > 0 {
            Some(trim(sel[i].1@))
        } else {
            None
        }
    } else {
        None
    }
}

/// A declared contribution, credited to plugin `pid` and slot `slot`.
pub open spec fn owned_by(d: SlotView, pid: Seq<char>, slot: Seq<char>) -> SlotView {
    SlotView { plugin_id: pid, slot: slot, ..d }
}

/// `v` is the contribution plugin `p` makes to embedded `slot`.
#[verifier::opaque]
pub open spec fn picked_contribution(p: PluginSlotSource, slot: Seq<char>, v: SlotView) -> bool {
    exists|j: int|
        #![trigger p.decls@[j]]
        pick_decl(p.decls@, slot, wanted_appearance(p.selected_appearances@, slot)) == Some(j) && (decl_dto(
            p.plugin_id@,
            p.decls@[j],
        ) matches Some(d) && v == owned_by(d, p.plugin_id@, slot))
}

/// Plugin `p` offers a contribution to `slot`: the declaration picked for
/// it has a non-blank entry.
pub open spec fn offers_slot(p: PluginSlotSource, slot: Seq<char>) -> bool {
    pick_decl(p.decls@, slot, wanted_appearance(p.selected_appearances@, slot)) matches Some(j) && (0 <= j
        < p.decls@.len() && slot_entry_of(p.decls@[j].entry@) is Some)
}

/// Plugin `p`'s contribution to `slot` is one the bootstrap shows: an
/// embedded slot, not disabled by the role, and offered by the plugin.
pub open spec fn slot_wanted(p: PluginSlotSource, dc: Seq<(String, String)>, slot: Seq<char>) -> bool {
    is_embedded_slot(slot) && !contribution_disabled(dc, slot, p.plugin_id@) && offers_slot(p, slot)
}

/// The UI slot contributions of the scanned plugins: each from a plugin
/// that loads, is enabled and has no shell section, for an embedded slot it
/// declares and whose contribution the role has not disabled, picked among
/// its declarations for that slot; exactly one for each such slot and
/// plugin whose picked declaration has a non-blank entry.
pub open spec fn slots_picked(
    r: Seq<SlotView>,
    plugins: Seq<PluginSlotSource>,
    disabled: Seq<String>,
    dc: Seq<(String, String)>,
) -> bool {
    &&& forall|k: int|
        #![trigger r[k]]
        0 <= k < r.len() ==> is_embedded_slot(r[k].slot) && !contribution_disabled(dc, r[k].slot, r[k].plugin_id)
            && exists|i: int|
            0 <= i < plugins.len() && slot_contributor(#[trigger] plugins[i], disabled) && r[k].plugin_id
                == plugins[i].plugin_id@ && picked_contribution(plugins[i], r[k].slot, r[k])
    &&& forall|a: int, b: int|
        #![trigger r[a], r[b]]
        0 <= a < b < r.len() ==> !(r[a].slot == r[b].slot && r[a].plugin_id == r[b].plugin_id)
    &&& forall|i: int, slot: Seq<char>|
        #![trigger slot_wanted(plugins[i], dc, slot)]
        0 <= i < plugins.len() && slot_contributor(plugins[i], disabled) && slot_wanted(plugins[i], dc, slot)
            ==> exists|k: int| 0 <= k < r.len() && #[trigger] r[k].slot == slot && r[k].plugin_id == plugins[i].plugin_id@
}

fn first_decl_exec(decls: &Vec<SlotDeclCandidate>, slot: &str, w: Option<&str>) -> (r: Option<usize>)
    ensures
        match r {
            Some(i) => i < decls@.len() && first_decl(decls@, slot@, crate::theater::guardrails::opt_str(w)) == Some(i as int),
            None => first_decl(decls@, slot@, crate::theater::guardrails::opt_str(w)) is None,
        },
{
    let ghost gw = crate::theater::guardrails::opt_str(w);
    reveal(first_decl);
    let mut i: usize = 0;
    while i < decls.len()
        invariant
            i <= decls@.len(),
            gw == crate::theater::guardrails::opt_str(w),
            forall|j: int| 0 <= j < i ==> !decl_matches(#[trigger] decls@[j], slot@, gw),
        decreases decls.len() - i,
    {
        let d = &decls[i];
        let mut m = crate::text::str_eq(d.slot.as_str(), slot);
        match w {
            Some(a) => {
                if m {
                    m = crate::text::str_eq(d.appearance_id.as_str(), a);
                }
            },
            None => {},
        }
        assert(m == decl_matches(decls@[i as int], slot@, gw));
        if m {
            proof {
                reveal(first_decl);
                let c = choose|c: int|
                    0 <= c < decls@.len() && decl_matches(#[trigger] decls@[c], slot@, gw) && forall|j: int|
                        0 <= j < c ==> !decl_matches(#[trigger] decls@[j], slot@, gw);
                if c < i {
                    assert(!decl_matches(decls@[c], slot@, gw));
                }
                if c > i {
                    assert(!decl_matches(decls@[i as int], slot@, gw));
                }
            }
            return Some(i);
        }
        i = i + 1;
    }
    proof {
        reveal(first_decl);
    }
    None
}

fn pick_decl_exec(decls: &Vec<SlotDeclCandidate>, slot: &str, want: Option<&str>) -> (r: Option<usize>)
    ensures
        match r {
            Some(i) => i < decls@.len() && pick_decl(decls@, slot@, crate::theater::guardrails::opt_str(want)) == Some(i as int),
            None => pick_decl(decls@, slot@, crate::theater::guardrails::opt_str(want)) is None,
        },
{
    match want {
        Some(_) => match first_decl_exec(decls, slot, want) {
            Some(i) => return Some(i),
            None => {},
        },
        None => {},
    }
    proof {
        reveal_strlit("");
        assert(""@ =~= Seq::<char>::empty());
    }
    match first_decl_exec(decls, slot, Some("")) {
        Some(i) => Some(i),
        None => first_decl_exec(decls, slot, None),
    }
}

fn wanted_appearance_exec(sel: &Vec<(String, String)>, slot: &str) -> (r: Option<String>)
    ensures
        crate::resource::model::opt_view(r) == wanted_appearance(sel@, slot@),
{
    reveal(wanted_appearance);
    let mut i: usize = 0;
    while i < sel.len()
        invariant
            i <= sel@.len(),
            forall|j: int| 0 <= j < i ==> #[trigger] sel@[j].0@ != slot@,
        decreases sel.len() - i,
    {
        if crate::text::str_eq(sel[i].0.as_str(), slot) {
            proof {
                reveal(wanted_appearance);
                let c = choose|c: int|
                    0 <= c < sel@.len() && #[trigger] sel@[c].0@ == slot@ && forall|j: int|
                        0 <= j < c ==> #[trigger] sel@[j].0@ != slot@;
                if c < i {
                    assert(sel@[c].0@ != slot@);
                }
                if c > i {
                    assert(sel@[i as int].0@ != slot@);
                }
            }
            return non_blank(sel[i].1.as_str());
        }
        i = i + 1;
    }
    proof {
        reveal(wanted_appearance);
    }
    None
}

fn contribution_disabled_exec(dc: &Vec<(String, String)>, slot: &str, pid: &str) -> (r: bool)
    ensures
        r == contribution_disabled(dc@, slot@, pid@),
{
    let mut i: usize = 0;
    while i < dc.len()
        invariant
            i <= dc@.len(),
            forall|j: int| 0 <= j < i ==> !(#[trigger] dc@[j].0@ == slot@ && dc@[j].1@ == pid@),
        decreases dc.len() - i,
    {
        if crate::text::str_eq(dc[i].0.as_str(), slot) && crate::text::str_eq(dc[i].1.as_str(), pid) {
            return true;
        }
        i = i + 1;
    }
    false
}

/// Plugin `p`'s contribution to embedded slot `name`, unless the role
/// disabled it: the declaration picked by the role's appearance choice,
/// when there is one and its entry is not blank.
fn slot_contribution(p: &PluginSlotSource, dc: &Vec<(String, String)>, name: &str) -> (r: Option<PluginUiSlotDto>)
    requires
        is_embedded_slot(name@),
    ensures
        r matches Some(v) ==> v@.slot == name@ && contribution_ok(*p, dc@, v@),
        r is Some <==> slot_wanted(*p, dc@, name@),
{
    if contribution_disabled_exec(dc, name, p.plugin_id.as_str()) {
        return None;
    }
    let want = wanted_appearance_exec(&p.selected_appearances, name);
    let picked = match &want {
        Some(w) => pick_decl_exec(&p.decls, name, Some(w.as_str())),
        None => pick_decl_exec(&p.decls, name, None),
    };
    match picked {
        Some(j) => match plugin_ui_slot_dto_from_decl(p.plugin_id.as_str(), &p.decls[j]) {
            Some(c) => {
                let ghost d = c@;
                let v = PluginUiSlotDto {
                    plugin_id: p.plugin_id.clone(),
                    slot: crate::text::owned(name),
                    appearance_id: c.appearance_id,
                    label: c.label,
                    entry: c.entry,
                    vue_component: c.vue_component,
                    bridge_events: c.bridge_events,
                    url: c.url,
                };
                proof {
                    reveal(picked_contribution);
                    assert(v@ == owned_by(d, p.plugin_id@, name@));
                }
                Some(v)
            },
            None => None,
        },
        None => None,
    }
}

/// One contributing plugin's UI slots, slot by slot.
fn plugin_slot_contributions(p: &PluginSlotSource, dc: &Vec<(String, String)>) -> (r: Vec<PluginUiSlotDto>)
    ensures
        forall|k: int| #![trigger r@[k]] 0 <= k < r@.len() ==> contribution_ok(*p, dc@, r@[k]@),
        forall|a: int, b: int| #![trigger r@[a], r@[b]] 0 <= a < b < r@.len() ==> r@[a]@.slot != r@[b]@.slot,
        forall|slot: Seq<char>|
            #[trigger] slot_wanted(*p, dc@, slot) ==> exists|k: int| 0 <= k < r@.len() && #[trigger] r@[k]@.slot == slot,
{
    let names = embedded_ui_slot_names();
    let mut out: Vec<PluginUiSlotDto> = Vec::new();
    let mut q: usize = 0;
    while q < names.len()
        invariant
            q <= names@.len(),
            names@.len() == embedded_slot_names().len(),
            forall|t: int| 0 <= t < names@.len() ==> #[trigger] names@[t]@ == embedded_slot_names()[t],
            forall|k: int|
                #![trigger out@[k]]
                0 <= k < out@.len() ==> contribution_ok(*p, dc@, out@[k]@) && exists|t: int|
                    0 <= t < q && out@[k]@.slot == #[trigger] embedded_slot_names()[t],
            forall|a: int, b: int| #![trigger out@[a], out@[b]] 0 <= a < b < out@.len() ==> out@[a]@.slot != out@[b]@.slot,
            forall|t: int|
                0 <= t < q && slot_wanted(*p, dc@, #[trigger] embedded_slot_names()[t]) ==> exists|k: int|
                    0 <= k < out@.len() && out@[k]@.slot == embedded_slot_names()[t],
        decreases names.len() - q,
    {
        let name = names[q];
        let ghost gname = embedded_slot_names()[q as int];
        assert(name@ == gname);
        assert(is_embedded_slot(gname));
        let ghost old_out = out@;
        match slot_contribution(p, dc, name) {
            Some(v) => {
                out.push(v);
                proof {
                    assert forall|k: int| 0 <= k < old_out.len() implies out@[k] == old_out[k] by {}
                    assert forall|k: int| 0 <= k < old_out.len() implies out@[k]@.slot != gname by {
                        let t = choose|t: int| 0 <= t < q && out@[k]@.slot == #[trigger] embedded_slot_names()[t];
                        lemma_embedded_names_distinct(t, q as int);
                    }
                }
            },
            None => {},
        }
        proof {
            assert forall|k: int|
                #![trigger out@[k]]
                0 <= k < out@.len() implies contribution_ok(*p, dc@, out@[k]@) && exists|t: int|
                    0 <= t < q + 1 && out@[k]@.slot == #[trigger] embedded_slot_names()[t] by {
                if k < old_out.len() {
                    let t = choose|t: int| 0 <= t < q && old_out[k]@.slot == #[trigger] embedded_slot_names()[t];
                    assert(out@[k] == old_out[k]);
                } else {
                    assert(out@[k]@.slot == embedded_slot_names()[q as int]);
                }
            }
            assert forall|t: int|
                0 <= t < q + 1 && slot_wanted(*p, dc@, #[trigger] embedded_slot_names()[t]) implies exists|k: int|
                    0 <= k < out@.len() && out@[k]@.slot == embedded_slot_names()[t] by {
                if t < q {
                    let k = choose|k: int| 0 <= k < old_out.len() && old_out[k]@.slot == embedded_slot_names()[t];
                    assert(out@[k] == old_out[k]);
                } else {
                    assert(out@[old_out.len() as int]@.slot == gname);
                }
            }
        }
        q = q + 1;
    }
    assert forall|slot: Seq<char>| #[trigger] slot_wanted(*p, dc@, slot) implies exists|k: int|
        0 <= k < out@.len() && #[trigger] out@[k]@.slot == slot by {
        let t = choose|t: int| 0 <= t < embedded_slot_names().len() && embedded_slot_names()[t] == slot;
        assert(slot_wanted(*p, dc@, embedded_slot_names()[t]));
    }
    out
}

/// Contribution `v` of plugin `p` passes the role's checks.
pub open spec fn contribution_ok(p: PluginSlotSource, dc: Seq<(String, String)>, v: SlotView) -> bool {
    v.plugin_id == p.plugin_id@ && is_embedded_slot(v.slot) && !contribution_disabled(dc, v.slot, p.plugin_id@)
        && picked_contribution(p, v.slot, v)
}

/// One step of the slot collection: appending a plugin's contributions
/// keeps every entry accounted for and the (slot, plugin) pairs distinct.
proof fn lemma_slots_step(
    plugins: Seq<PluginSlotSource>,
    i: int,
    disabled: Seq<String>,
    dc: Seq<(String, String)>,
    old_out: Seq<PluginUiSlotDto>,
    gm: Seq<PluginUiSlotDto>,
    contributes: bool,
)
    requires
        0 <= i < plugins.len(),
        forall|a: int, b: int| 0 <= a < b < plugins.len() ==> plugins[a].plugin_id@ != plugins[b].plugin_id@,
        forall|k: int|
            #![trigger old_out[k]]
            0 <= k < old_out.len() ==> is_embedded_slot(old_out[k]@.slot) && exists|m: int|
                0 <= m < i && slot_contributor(#[trigger] plugins[m], disabled) && contribution_ok(plugins[m], dc, old_out[k]@),
        forall|a: int, b: int|
            #![trigger old_out[a], old_out[b]]
            0 <= a < b < old_out.len() ==> !(old_out[a]@.slot == old_out[b]@.slot && old_out[a]@.plugin_id
                == old_out[b]@.plugin_id),
        contributes <==> slot_contributor(plugins[i], disabled),
        !contributes ==> gm.len() == 0,
        forall|m: int, slot: Seq<char>|
            #![trigger slot_wanted(plugins[m], dc, slot)]
            0 <= m < i && slot_contributor(plugins[m], disabled) && slot_wanted(plugins[m], dc, slot) ==> exists|k: int|
                0 <= k < old_out.len() && #[trigger] old_out[k]@.slot == slot && old_out[k]@.plugin_id
                    == plugins[m].plugin_id@,
        contributes ==> forall|slot: Seq<char>|
            #[trigger] slot_wanted(plugins[i], dc, slot) ==> exists|k: int| 0 <= k < gm.len() && #[trigger] gm[k]@.slot == slot,
        forall|k: int| #![trigger gm[k]] 0 <= k < gm.len() ==> contribution_ok(plugins[i], dc, gm[k]@),
        forall|a: int, b: int| #![trigger gm[a], gm[b]] 0 <= a < b < gm.len() ==> gm[a]@.slot != gm[b]@.slot,
    ensures
        forall|k: int|
            #![trigger (old_out + gm)[k]]
            0 <= k < (old_out + gm).len() ==> is_embedded_slot((old_out + gm)[k]@.slot) && exists|m: int|
                0 <= m < i + 1 && slot_contributor(#[trigger] plugins[m], disabled) && contribution_ok(
                    plugins[m],
                    dc,
                    (old_out + gm)[k]@,
                ),
        forall|a: int, b: int|
            #![trigger (old_out + gm)[a], (old_out + gm)[b]]
            0 <= a < b < (old_out + gm).len() ==> !((old_out + gm)[a]@.slot == (old_out + gm)[b]@.slot && (old_out
                + gm)[a]@.plugin_id == (old_out + gm)[b]@.plugin_id),
        forall|m: int, slot: Seq<char>|
            #![trigger slot_wanted(plugins[m], dc, slot)]
            0 <= m < i + 1 && slot_contributor(plugins[m], disabled) && slot_wanted(plugins[m], dc, slot) ==> exists|k: int|
                0 <= k < (old_out + gm).len() && #[trigger] (old_out + gm)[k]@.slot == slot && (old_out + gm)[k]@.plugin_id
                    == plugins[m].plugin_id@,
{
    let out = old_out + gm;
    assert forall|m: int, slot: Seq<char>|
        #![trigger slot_wanted(plugins[m], dc, slot)]
        0 <= m < i + 1 && slot_contributor(plugins[m], disabled) && slot_wanted(plugins[m], dc, slot) implies exists|k: int|
            0 <= k < out.len() && #[trigger] out[k]@.slot == slot && out[k]@.plugin_id == plugins[m].plugin_id@ by {
        if m < i {
            let k = choose|k: int|
                0 <= k < old_out.len() && #[trigger] old_out[k]@.slot == slot && old_out[k]@.plugin_id
                    == plugins[m].plugin_id@;
            assert(out[k] == old_out[k]);
        } else {
            let k = choose|k: int| 0 <= k < gm.len() && #[trigger] gm[k]@.slot == slot;
            assert(out[old_out.len() + k] == gm[k]);
            assert(contribution_ok(plugins[i], dc, gm[k]@));
        }
    }
    assert forall|k: int| 0 <= k < old_out.len() implies old_out[k]@.plugin_id != plugins[i].plugin_id@ by {
        let m = choose|m: int|
            0 <= m < i && slot_contributor(#[trigger] plugins[m], disabled) && contribution_ok(plugins[m], dc, old_out[k]@);
    }
    assert forall|k: int|
        #![trigger out[k]]
        0 <= k < out.len() implies is_embedded_slot(out[k]@.slot) && exists|m: int|
            0 <= m < i + 1 && slot_contributor(#[trigger] plugins[m], disabled) && contribution_ok(plugins[m], dc, out[k]@) by {
        if k >= old_out.len() {
            assert(out[k] == gm[k - old_out.len()]);
            assert(contribution_ok(plugins[i], dc, out[k]@));
        } else {
            assert(out[k] == old_out[k]);
            let m = choose|m: int|
                0 <= m < i && slot_contributor(#[trigger] plugins[m], disabled) && contribution_ok(plugins[m], dc, old_out[k]@);
        }
    }
    assert forall|a: int, b: int|
        #![trigger out[a], out[b]]
        0 <= a < b < out.len() implies !(out[a]@.slot == out[b]@.slot && out[a]@.plugin_id == out[b]@.plugin_id) by {
        if b >= old_out.len() {
            assert(out[b] == gm[b - old_out.len()]);
            if a >= old_out.len() {
                assert(out[a] == gm[a - old_out.len()]);
            } else {
                assert(out[a] == old_out[a]);
            }
        } else {
            assert(out[a] == old_out[a]);
            assert(out[b] == old_out[b]);
        }
    }
}

/// The UI slot contributions of the scanned plugins (plugin ids distinct,
/// as the scan keys them): for each plugin that loads, is enabled and has
/// no shell section, and each embedded slot it declares whose contribution
/// is enabled, the declaration picked by the role's appearance choice,
/// when its entry is not blank.
pub fn pick_plugin_ui_slots(
    plugins: &Vec<PluginSlotSource>,
    disabled: &Vec<String>,
    disabled_contributions: &Vec<(String, String)>,
) -> (r: Vec<PluginUiSlotDto>)
    requires
        forall|a: int, b: int| 0 <= a < b < plugins@.len() ==> plugins@[a].plugin_id@ != plugins@[b].plugin_id@,
    ensures
        slots_picked(slot_views(r@), plugins@, disabled@, disabled_contributions@),
{
    let mut out: Vec<PluginUiSlotDto> = Vec::new();
    let mut i: usize = 0;
    while i < plugins.len()
        invariant
            i <= plugins@.len(),
            forall|a: int, b: int| 0 <= a < b < plugins@.len() ==> plugins@[a].plugin_id@ != plugins@[b].plugin_id@,
            forall|k: int|
                #![trigger out@[k]]
                0 <= k < out@.len() ==> is_embedded_slot(out@[k]@.slot) && exists|m: int|
                    0 <= m < i && slot_contributor(#[trigger] plugins@[m], disabled@) && contribution_ok(
                        plugins@[m],
                        disabled_contributions@,
                        out@[k]@,
                    ),
            forall|a: int, b: int|
                #![trigger out@[a], out@[b]]
                0 <= a < b < out@.len() ==> !(out@[a]@.slot == out@[b]@.slot && out@[a]@.plugin_id == out@[b]@.plugin_id),
            forall|m: int, slot: Seq<char>|
                #![trigger slot_wanted(plugins@[m], disabled_contributions@, slot)]
                0 <= m < i && slot_contributor(plugins@[m], disabled@) && slot_wanted(
                    plugins@[m],
                    disabled_contributions@,
                    slot,
                ) ==> exists|k: int|
                    0 <= k < out@.len() && #[trigger] out@[k]@.slot == slot && out@[k]@.plugin_id == plugins@[m].plugin_id@,
        decreases plugins.len() - i,
    {
        let p = &plugins[i];
        let active = p.manifest_loaded && !contains_str(disabled, &crate::text::chars_of(p.plugin_id.as_str()));
        let ghost old_out = out@;
        let contributes = active && !p.has_shell;
        let mut mine = if contributes {
            plugin_slot_contributions(p, disabled_contributions)
        } else {
            Vec::new()
        };
        let ghost gm = mine@;
        out.append(&mut mine);
        proof {
            lemma_slots_step(plugins@, i as int, disabled@, disabled_contributions@, old_out, gm, contributes);
            assert(out@ =~= old_out + gm);
        }
        i = i + 1;
    }
    let ghost sv = slot_views(out@);
    assert(sv.len() == out@.len());
    assert forall|k: int| 0 <= k < out@.len() implies #[trigger] sv[k] == out@[k]@ by {}
    assert forall|k: int|
        #![trigger sv[k]]
        0 <= k < sv.len() implies is_embedded_slot(sv[k].slot) && !contribution_disabled(
            disabled_contributions@,
            sv[k].slot,
            sv[k].plugin_id,
        ) && exists|m: int|
            0 <= m < plugins@.len() && slot_contributor(#[trigger] plugins@[m], disabled@) && sv[k].plugin_id
                == plugins@[m].plugin_id@ && picked_contribution(plugins@[m], sv[k].slot, sv[k]) by {
        assert(sv[k] == out@[k]@);
        let m = choose|m: int|
            0 <= m < i && slot_contributor(#[trigger] plugins@[m], disabled@) && contribution_ok(
                plugins@[m],
                disabled_contributions@,
                out@[k]@,
            );
    }
    assert forall|a: int, b: int|
        #![trigger sv[a], sv[b]]
        0 <= a < b < sv.len() implies !(sv[a].slot == sv[b].slot && sv[a].plugin_id == sv[b].plugin_id) by {
        assert(sv[a] == out@[a]@);
        assert(sv[b] == out@[b]@);
    }
    assert forall|m: int, slot: Seq<char>|
        #![trigger slot_wanted(plugins@[m], disabled_contributions@, slot)]
        0 <= m < plugins@.len() && slot_contributor(plugins@[m], disabled@) && slot_wanted(
            plugins@[m],
            disabled_contributions@,
            slot,
        ) implies exists|k: int|
            0 <= k < sv.len() && #[trigger] sv[k].slot == slot && sv[k].plugin_id == plugins@[m].plugin_id@ by {
        let k = choose|k: int|
            0 <= k < out@.len() && #[trigger] out@[k]@.slot == slot && out@[k]@.plugin_id == plugins@[m].plugin_id@;
        assert(sv[k] == out@[k]@);
    }
    out
}

/// The embedded slot names are pairwise different.
pub proof fn lemma_embedded_names_distinct(a: int, b: int)
    requires
        0 <= a < b < embedded_slot_names().len(),
    ensures
        embedded_slot_names()[a] != embedded_slot_names()[b],
{
    reveal_strlit("chat_toolbar");
    reveal_strlit("settings.panel");
    reveal_strlit("role.detail");
    reveal_strlit("sidebar");
    reveal_strlit("chat.header");
    reveal_strlit("settings.plugins");
    reveal_strlit("settings.advanced");
    reveal_strlit("overlay.floating");
    reveal_strlit("launcher.palette");
    reveal_strlit("debug.dock");
    let n = embedded_slot_names();
    assert(n[a].len() != n[b].len() || n[a][0] != n[b][0] || n[a][n[a].len() - 1] != n[b][n[b].len() - 1] || n[a][1] != n[b][1] || n[a][9] != n[b][9]);
}

/// The bootstrap handed to the plugin UI host.
#[derive(Debug)]
pub struct DirectoryPluginBootstrapDto {
    pub shell_url: Option<String>,
    pub shell_plugin_id: Option<String>,
    pub shell_vue_entry: Option<String>,
    pub force_iframe_mode: bool,
    pub plugin_ids: Vec<String>,
    pub developer_mode: bool,
    pub subscribed_host_events: Vec<String>,
    pub ui_slots: Vec<PluginUiSlotDto>,
}

/// What the bootstrap is assembled from: the scanned plugins, the role's
/// plugin state (disabled plugins and slot contributions, iframe mode,
/// slot orders, shell choice), the host settings, and the raw values of
/// `OCLIVE_SHELL_PLUGIN_ID` and `OCLIVE_DEVELOPER`.
pub struct BootstrapSources {
    pub plugins: Vec<PluginSlotSource>,
    pub disabled_plugin_ids: Vec<String>,
    pub disabled_contributions: Vec<(String, String)>,
    pub force_iframe_mode: bool,
    pub slot_orders: Vec<SlotOrder>,
    pub role_shell_plugin_id: String,
    pub host: HostPluginsFile,
    pub env_shell_plugin_id: Option<String>,
    pub env_developer: Option<String>,
}

/// The ids of the scanned plugins, in scan order.
pub open spec fn plugin_id_views(plugins: Seq<PluginSlotSource>) -> Seq<Seq<char>> {
    plugins.map_values(|p: PluginSlotSource| p.plugin_id@)
}

/// The index of the scanned plugin with id `id`.
pub open spec fn plugin_index(plugins: Seq<PluginSlotSource>, id: Seq<char>) -> Option<int> {
    if exists|i: int| 0 <= i < plugins.len() && #[trigger] plugins[i].plugin_id@ == id {
        Some(choose|i: int| 0 <= i < plugins.len() && #[trigger] plugins[i].plugin_id@ == id)
    } else {
        None
    }
}

/// The shell plugin, when it is scanned, its manifest loads and has a
/// shell section.
pub open spec fn shell_source(plugins: Seq<PluginSlotSource>, shell: Option<Seq<char>>) -> Option<PluginSlotSource> {
    match shell {
        Some(id) => match plugin_index(plugins, id) {
            Some(i) => if plugins[i].manifest_loaded && plugins[i].has_shell {
                Some(plugins[i])
            } else {
                None
            },
            None => None,
        },
        None => None,
    }
}

fn find_plugin(plugins: &Vec<PluginSlotSource>, id: &str) -> (r: Option<usize>)
    requires
        forall|a: int, b: int| 0 <= a < b < plugins@.len() ==> plugins@[a].plugin_id@ != plugins@[b].plugin_id@,
    ensures
        match r {
            Some(i) => i < plugins@.len() && plugin_index(plugins@, id@) == Some(i as int),
            None => plugin_index(plugins@, id@) is None,
        },
{
    let mut i: usize = 0;
    while i < plugins.len()
        invariant
            i <= plugins@.len(),
            forall|a: int, b: int| 0 <= a < b < plugins@.len() ==> plugins@[a].plugin_id@ != plugins@[b].plugin_id@,
            forall|j: int| 0 <= j < i ==> #[trigger] plugins@[j].plugin_id@ != id@,
        decreases plugins.len() - i,
    {
        if crate::text::str_eq(plugins[i].plugin_id.as_str(), id) {
            proof {
                let c = choose|c: int| 0 <= c < plugins@.len() && #[trigger] plugins@[c].plugin_id@ == id@;
                if c != i {
                    if c < i {
                        assert(plugins@[c].plugin_id@ != plugins@[i as int].plugin_id@);
                    } else {
                        assert(plugins@[i as int].plugin_id@ != plugins@[c].plugin_id@);
                    }
                }
            }
            return Some(i);
        }
        i = i + 1;
    }
    None
}

/// The shell's Vue entry, trimmed with backslashes as slashes, when not blank.
pub open spec fn vue_entry_of(raw: Option<Seq<char>>) -> Option<Seq<char>> {
    match raw {
        Some(v) => if trim(v).len() > 0 { Some(crate::text::replace_char(trim(v), '\\', '/')) } else { None },
        None => None,
    }
}

/// The enabled plugin ids, in order.
pub open spec fn enabled_ids(ids: Seq<Seq<char>>, disabled: Seq<String>) -> Seq<Seq<char>> {
    ids.filter(|id: Seq<char>| !disabled_in(disabled, id))
}

fn enabled_plugin_ids(plugins: &Vec<PluginSlotSource>, disabled: &Vec<String>) -> (r: Vec<String>)
    ensures
        views(r@) == enabled_ids(plugin_id_views(plugins@), disabled@),
{
    let ghost iv = plugin_id_views(plugins@);
    let mut r: Vec<String> = Vec::new();
    let mut i: usize = 0;
    assert(views(r@) =~= iv.take(0).filter(|id: Seq<char>| !disabled_in(disabled@, id))) by {
        reveal(Seq::filter);
    }
    while i < plugins.len()
        invariant
            i <= plugins.len(),
            iv == plugin_id_views(plugins@),
            views(r@) == iv.take(i as int).filter(|id: Seq<char>| !disabled_in(disabled@, id)),
        decreases plugins.len() - i,
    {
        proof {
            reveal(Seq::filter);
            assert(iv.take(i + 1).drop_last() =~= iv.take(i as int));
            assert(iv[i as int] == plugins@[i as int].plugin_id@);
        }
        let ghost before = views(r@);
        let c = crate::text::chars_of(plugins[i].plugin_id.as_str());
        if !contains_str(disabled, &c) {
            r.push(plugins[i].plugin_id.clone());
            assert(views(r@) =~= before.push(iv[i as int]));
        }
        i = i + 1;
    }
    assert(iv.take(i as int) =~= iv);
    r
}

/// The shell's URL and Vue entry, from the shell plugin's manifest.
fn shell_entry(plugins: &Vec<PluginSlotSource>, shell: &Option<String>) -> (r: (Option<String>, Option<String>))
    requires
        forall|a: int, b: int| 0 <= a < b < plugins@.len() ==> plugins@[a].plugin_id@ != plugins@[b].plugin_id@,
    ensures
        crate::resource::model::opt_view(r.0) == match shell_source(plugins@, crate::resource::model::opt_view(*shell)) {
            Some(p) => crate::resource::model::opt_view(p.shell_url),
            None => None,
        },
        crate::resource::model::opt_view(r.1) == match shell_source(plugins@, crate::resource::model::opt_view(*shell)) {
            Some(p) => vue_entry_of(crate::resource::model::opt_view(p.shell_vue_entry)),
            None => None,
        },
{
    match shell {
        Some(id) => match find_plugin(plugins, id.as_str()) {
            Some(i) => {
                let p = &plugins[i];
                if p.manifest_loaded && p.has_shell {
                    let url = crate::resource::model::copy_opt_string(&p.shell_url);
                    let vue = match &p.shell_vue_entry {
                        Some(v) => {
                            let t = crate::text::trim_chars(v.as_str());
                            if t.len() > 0 {
                                let rep = crate::text::replace_char_vec(&t, '\\', '/');
                                Some(crate::text::string_of(&rep))
                            } else {
                                None
                            }
                        },
                        None => None,
                    };
                    (url, vue)
                } else {
                    (None, None)
                }
            },
            None => (None, None),
        },
        None => (None, None),
    }
}

fn opt_as_str(o: &Option<String>) -> (r: Option<&str>)
    ensures
        crate::theater::guardrails::opt_str(r) == crate::resource::model::opt_view(*o),
{
    match o {
        Some(s) => Some(s.as_str()),
        None => None,
    }
}

/// Assembles the directory plugin bootstrap: the enabled plugin ids sorted,
/// the resolved shell (never a disabled plugin) with its URL and Vue entry,
/// the developer flag, the subscribed bridge events, and the picked UI
/// slot contributions laid out for display.
pub fn directory_plugin_bootstrap_dto(src: BootstrapSources) -> (r: DirectoryPluginBootstrapDto)
    requires
        forall|a: int, b: int|
            0 <= a < b < src.plugins@.len() ==> src.plugins@[a].plugin_id@ != src.plugins@[b].plugin_id@,
    ensures
        crate::resource::model::opt_view(r.shell_plugin_id) == resolved_shell(
            crate::resource::model::opt_view(src.env_shell_plugin_id),
            src.role_shell_plugin_id@,
            crate::resource::model::opt_view(src.host.shell_plugin_id),
            src.disabled_plugin_ids@,
        ),
        r.shell_plugin_id matches Some(id) ==> !disabled_in(src.disabled_plugin_ids@, id@),
        crate::resource::model::opt_view(r.shell_url) == match shell_source(
            src.plugins@,
            crate::resource::model::opt_view(r.shell_plugin_id),
        ) {
            Some(p) => crate::resource::model::opt_view(p.shell_url),
            None => None,
        },
        crate::resource::model::opt_view(r.shell_vue_entry) == match shell_source(
            src.plugins@,
            crate::resource::model::opt_view(r.shell_plugin_id),
        ) {
            Some(p) => vue_entry_of(crate::resource::model::opt_view(p.shell_vue_entry)),
            None => None,
        },
        r.force_iframe_mode == src.force_iframe_mode,
        r.developer_mode == (src.host.developer_mode || crate::theater::config::flag_or(
            crate::resource::model::opt_view(src.env_developer),
            false,
        )),
        crate::text::sorted_strs(views(r.plugin_ids@)),
        views(r.plugin_ids@).to_multiset() == enabled_ids(
            plugin_id_views(src.plugins@),
            src.disabled_plugin_ids@,
        ).to_multiset(),
        forall|i: int, j: int|
            0 <= i < j < r.subscribed_host_events@.len() ==> lex_le(
                r.subscribed_host_events@[i]@,
                r.subscribed_host_events@[j]@,
            ) && r.subscribed_host_events@[i]@ != r.subscribed_host_events@[j]@,
        forall|e: Seq<char>|
            #[trigger] views(r.subscribed_host_events@).contains(e) <==> subscribed_event(
                src.plugins@,
                src.disabled_plugin_ids@,
                e,
            ),
        exists|picked: Seq<SlotView>|
            #![trigger slots_picked(picked, src.plugins@, src.disabled_plugin_ids@, src.disabled_contributions@)]
            slots_picked(picked, src.plugins@, src.disabled_plugin_ids@, src.disabled_contributions@) && slots_layout(
                slot_views(r.ui_slots@),
                picked,
                src.slot_orders@,
            ),
{
    let enabled = enabled_plugin_ids(&src.plugins, &src.disabled_plugin_ids);
    let plugin_ids = crate::text::sort_strings(enabled);
    let shell_plugin_id = resolve_shell_plugin_id(
        opt_as_str(&src.env_shell_plugin_id),
        src.role_shell_plugin_id.as_str(),
        &src.host,
        &src.disabled_plugin_ids,
    );
    let (shell_url, vue) = shell_entry(&src.plugins, &shell_plugin_id);
    let developer_mode = src.host.developer_effective(opt_as_str(&src.env_developer));
    let events = collect_subscribed_host_events(&src.plugins, &src.disabled_plugin_ids);
    let picked = pick_plugin_ui_slots(&src.plugins, &src.disabled_plugin_ids, &src.disabled_contributions);
    let ui_slots = layout_ui_slots(&picked, &src.slot_orders);
    assert(slots_picked(slot_views(picked@), src.plugins@, src.disabled_plugin_ids@, src.disabled_contributions@));
    assert(slots_layout(slot_views(ui_slots@), slot_views(picked@), src.slot_orders@));
    DirectoryPluginBootstrapDto {
        shell_url,
        shell_plugin_id,
        shell_vue_entry: vue,
        force_iframe_mode: src.force_iframe_mode,
        plugin_ids,
        developer_mode,
        subscribed_host_events: events,
        ui_slots,
    }
}

/// Why a relative asset path is refused before it is joined: it is empty,
/// or one of its `/`-segments is `.` or `..`.
pub open spec fn asset_rel_error(rel: Seq<char>) -> Option<Seq<char>> {
    if rel.len() == 0 {
        Some("empty rel"@)
    } else if !crate::lora::no_dot_segment(rel) {
        Some("invalid rel path"@)
    } else {
        None
    }
}

/// The refusal of a joined path that is not under the plugin root.
pub open spec fn escape_message() -> Seq<char> {
    "path escapes plugin directory"@
}

/// Joining `rel` to `root` segment by segment keeps `root` in front: the
/// root is long enough and not a Windows verbatim path, and `rel` has no
/// `\` or `:` that a platform could read as a root or prefix.
pub open spec fn joinable(root: Seq<char>, rel: Seq<char>) -> bool {
    &&& root.len() >= 4
    &&& !crate::local_models::verbatim_prefix(root)
    &&& forall|i: int| 0 <= i < rel.len() ==> #[trigger] rel[i] != '\\' && rel[i] != ':'
}

/// `seg` stands in `rel` at `a`, between separators (or the ends).
pub open spec fn segment_at(rel: Seq<char>, a: int, seg: Seq<char>) -> bool {
    &&& 0 <= a && a + seg.len() <= rel.len()
    &&& rel.subrange(a, a + seg.len()) == seg
    &&& a == 0 || rel[a - 1] == '/'
    &&& a + seg.len() == rel.len() || rel[a + seg.len()] == '/'
    &&& forall|j: int| 0 <= j < seg.len() ==> #[trigger] seg[j] != '/'
}

/// A segment of a path without `.` or `..` segments is neither.
proof fn lemma_segment_not_dot(rel: Seq<char>, a: int, seg: Seq<char>)
    requires
        segment_at(rel, a, seg),
        crate::lora::no_dot_segment(rel),
    ensures
        seg != "."@,
        seg != ".."@,
{
    reveal_strlit(".");
    reveal_strlit("..");
    if seg == "."@ {
        assert(rel[a] == seg[0]);
    }
    if seg == ".."@ {
        assert(rel[a] == seg[0]);
        assert(rel[a + 1] == seg[1]);
    }
}

proof fn lemma_starts_with_trans(a: Seq<char>, b: Seq<char>, c: Seq<char>)
    requires
        starts_with(a, b),
        starts_with(b, c),
    ensures
        starts_with(a, c),
{
    assert(a.take(c.len() as int) =~= b.take(c.len() as int)) by {
        assert forall|i: int| 0 <= i < c.len() implies a.take(c.len() as int)[i] == b.take(c.len() as int)[i] by {
            assert(a.take(b.len() as int)[i] == b[i]);
        }
    }
}

/// The characters of each vector.
pub open spec fn char_vecs(v: Seq<Vec<char>>) -> Seq<Seq<char>> {
    v.map_values(|x: Vec<char>| x@)
}

/// Facts about the characters after the last `/`.
pub proof fn lemma_last_segment_shape(s: Seq<char>)
    ensures
        crate::local_models::last_segment(s).len() <= s.len(),
        s.len() > 0 && s.last() != '/' ==> crate::local_models::last_segment(s).len() > 0,
        crate::local_models::last_segment(s).len() > 0 ==> s.len() > 0 && s.last() != '/',
    decreases s.len(),
{
    if s.len() > 0 {
        lemma_last_segment_shape(s.drop_last());
    }
}

/// The nonempty `/`-segments of `s`, in order.
pub open spec fn segments_of(s: Seq<char>) -> Seq<Seq<char>>
    decreases s.len(),
{
    if s.len() == 0 {
        Seq::empty()
    } else if s.last() == '/' {
        segments_of(s.drop_last())
    } else {
        let seg = crate::local_models::last_segment(s);
        proof {
            lemma_last_segment_shape(s);
        }
        segments_of(s.take(s.len() - seg.len())).push(seg)
    }
}

/// `acc` with `seg` after it, separated by a `/` unless `acc` is empty or
/// already ends with one.
pub open spec fn slash_join(acc: Seq<char>, seg: Seq<char>) -> Seq<char> {
    if acc.len() == 0 || acc.last() == '/' {
        acc + seg
    } else {
        acc + seq!['/'] + seg
    }
}

/// `base` with the segments joined after it in order.
pub open spec fn slash_joined(base: Seq<char>, segs: Seq<Seq<char>>) -> Seq<char>
    decreases segs.len(),
{
    if segs.len() == 0 {
        base
    } else {
        slash_join(slash_joined(base, segs.drop_last()), segs.last())
    }
}

/// Every segment is one clean path component.
pub open spec fn clean_segments(segs: Seq<Seq<char>>) -> bool {
    forall|k: int| 0 <= k < segs.len() ==> crate::local_models::clean_segment(#[trigger] segs[k])
}

/// The nonempty `/`-segments of `rel`, in order.
fn split_segments(rel: &Vec<char>) -> (r: Vec<Vec<char>>)
    ensures
        forall|k: int| 0 <= k < r@.len() ==> #[trigger] r@[k]@.len() > 0 && exists|a: int| segment_at(rel@, a, r@[k]@),
        crate::local_models::all_slashes(rel@) ==> r@.len() == 0,
        char_vecs(r@) == segments_of(rel@),
{
    let mut segs: Vec<Vec<char>> = Vec::new();
    let mut cur: Vec<char> = Vec::new();
    let ghost mut start: int = 0;
    let mut i: usize = 0;
    assert(char_vecs(segs@) =~= segments_of(rel@.take(0)));
    while i < rel.len()
        invariant
            i <= rel@.len(),
            0 <= start <= i,
            start == 0 || rel@[start - 1] == '/',
            cur@ == rel@.subrange(start, i as int),
            forall|j: int| start <= j < i ==> #[trigger] rel@[j] != '/',
            forall|k: int|
                0 <= k < segs@.len() ==> #[trigger] segs@[k]@.len() > 0 && exists|a: int| segment_at(rel@, a, segs@[k]@),
            crate::local_models::all_slashes(rel@.take(i as int)) ==> segs@.len() == 0 && cur@.len() == 0,
            cur@ == crate::local_models::last_segment(rel@.take(i as int)),
            char_vecs(segs@) == segments_of(rel@.take(start)),
        decreases rel.len() - i,
    {
        let c = rel[i];
        let ghost old_segs = segs@;
        let ghost old_cur = cur@;
        let ghost old_start = start;
        let ghost ti = rel@.take(i as int);
        let ghost t1 = rel@.take(i + 1);
        proof {
            assert(t1.drop_last() =~= ti);
            assert(t1.last() == c);
            lemma_last_segment_shape(ti);
            if old_cur.len() > 0 {
                assert(ti.take(ti.len() - old_cur.len()) =~= rel@.take(old_start));
            } else {
                assert(old_start == i);
            }
        }
        if c == '/' {
            if cur.len() > 0 {
                let ghost sv = cur@;
                let done = cur;
                segs.push(done);
                cur = Vec::new();
                proof {
                    assert(segment_at(rel@, start, sv));
                    assert forall|k: int| 0 <= k < segs@.len() implies #[trigger] segs@[k]@.len() > 0 && exists|a: int|
                        segment_at(rel@, a, segs@[k]@) by {
                        if k < old_segs.len() {
                            assert(segs@[k] == old_segs[k]);
                        } else {
                            assert(segs@[k]@ == sv);
                        }
                    }
                    assert(char_vecs(segs@) =~= char_vecs(old_segs).push(sv));
                    assert(segments_of(t1) == segments_of(ti));
                }
            } else {
                cur = Vec::new();
                proof {
                    assert(segments_of(t1) == segments_of(ti));
                }
            }
            proof {
                start = i + 1;
                assert(cur@ =~= rel@.subrange(start, i + 1));
                assert(cur@ =~= crate::local_models::last_segment(t1));
            }
        } else {
            cur.push(c);
            assert(cur@ =~= rel@.subrange(start, i + 1));
            assert(cur@ =~= crate::local_models::last_segment(t1));
        }
        proof {
            if crate::local_models::all_slashes(t1) {
                assert forall|j: int| 0 <= j < i implies #[trigger] ti[j] == '/' by {
                    assert(t1[j] == '/');
                }
                assert(t1[i as int] == '/');
            }
        }
        i = i + 1;
    }
    let ghost tn = rel@.take(i as int);
    assert(tn =~= rel@);
    proof {
        lemma_last_segment_shape(tn);
    }
    if cur.len() > 0 {
        let ghost old_segs = segs@;
        let ghost last = cur@;
        segs.push(cur);
        proof {
            assert(segment_at(rel@, start, last));
            assert forall|k: int| 0 <= k < segs@.len() implies #[trigger] segs@[k]@.len() > 0 && exists|a: int|
                segment_at(rel@, a, segs@[k]@) by {
                if k < old_segs.len() {
                    assert(segs@[k] == old_segs[k]);
                } else {
                    assert(segs@[k]@ == last);
                }
            }
            assert(tn.take(tn.len() - last.len()) =~= rel@.take(start));
            assert(char_vecs(segs@) =~= char_vecs(old_segs).push(last));
        }
    } else {
        proof {
            assert(start == i);
        }
    }
    segs
}

/// Calls `std::path::Path::starts_with`. Trusted: a path starts with
/// itself; and, since `Path::starts_with` compares whole components, a path
/// made of a base that is not a Windows verbatim path followed by clean
/// components joined with `/` (a separator on every platform) starts with
/// that base. Other paths follow each platform's rules, left unsaid.
#[verifier::external_body]
fn path_starts_with(p: &str, base: &str) -> (r: bool)
    ensures
        p@ == base@ ==> r,
        !crate::local_models::verbatim_prefix(base@) && (exists|segs: Seq<Seq<char>>|
            #![trigger slash_joined(base@, segs)]
            clean_segments(segs) && p@ == slash_joined(base@, segs)) ==> r,
{
    std::path::Path::new(p).starts_with(base)
}

/// The path of a plugin asset under its canonical root: `rel` (already
/// normalised) is refused when empty or when a segment is `.` or `..`;
/// otherwise its nonempty segments are joined to the root in order with
/// `std::path::Path::join`, each after a `/` unless the path so far is
/// empty or ends with one (a `/` separates on every platform), and the
/// result is refused when `std::path::Path::starts_with` finds it outside
/// the root. Whether the file exists is for the caller to check.
pub fn find_plugin_asset_path(canonical_root: &str, rel: &str) -> (r: Result<String, String>)
    ensures
        asset_rel_error(rel@) matches Some(e) ==> (r matches Err(x) && x@ == e),
        asset_rel_error(rel@) is None ==> (r is Ok || (r matches Err(x) && x@ == escape_message())),
        asset_rel_error(rel@) is None && crate::local_models::all_slashes(rel@) ==> (r matches Ok(p) && p@
            == canonical_root@),
        asset_rel_error(rel@) is None && joinable(canonical_root@, rel@) ==> (r matches Ok(p) && p@ == slash_joined(
            canonical_root@,
            segments_of(rel@),
        )),
{
    proof {
        reveal_strlit("empty rel");
        reveal_strlit("invalid rel path");
        reveal_strlit(".");
        reveal_strlit("..");
    }
    let rc = crate::text::chars_of(rel);
    if rc.len() == 0 {
        return Err(crate::text::owned("empty rel"));
    }
    if !no_dot_segment_exec(&rc) {
        return Err(crate::text::owned("invalid rel path"));
    }
    let segs = split_segments(&rc);
    let ghost root = canonical_root@;
    let ghost ok = joinable(root, rel@);
    let ghost all = char_vecs(segs@);
    proof {
        if ok {
            assert forall|q: int| 0 <= q < all.len() implies crate::local_models::clean_segment(#[trigger] all[q]) by {
                let sv = segs@[q]@;
                assert(all[q] == sv);
                let a = choose|a: int| segment_at(rel@, a, sv);
                assert forall|i: int| 0 <= i < sv.len() implies #[trigger] sv[i] != '/' && sv[i] != '\\' by {
                    assert(sv[i] == rel@.subrange(a, a + sv.len())[i]);
                    assert(rel@[a + i] != '\\');
                }
                if sv.len() >= 2 {
                    assert(sv[1] == rel@.subrange(a, a + sv.len())[1]);
                    assert(rel@[a + 1] != ':');
                }
                lemma_segment_not_dot(rel@, a, sv);
            }
        }
    }
    let mut resolved = crate::text::owned(canonical_root);
    assert(resolved@.take(root.len() as int) =~= root);
    assert(all.take(0) =~= Seq::<Seq<char>>::empty());
    let mut k: usize = 0;
    while k < segs.len()
        invariant
            k <= segs@.len(),
            root == canonical_root@,
            ok == joinable(root, rel@),
            all == char_vecs(segs@),
            ok ==> clean_segments(all),
            k == 0 ==> resolved@ == root,
            ok ==> starts_with(resolved@, root),
            ok ==> resolved@ == slash_joined(root, all.take(k as int)),
        decreases segs.len() - k,
    {
        let seg = crate::text::string_of(&segs[k]);
        let ghost prev = resolved@;
        proof {
            if ok {
                assert(all[k as int] == segs@[k as int]@);
                assert(crate::local_models::clean_segment(seg@));
                assert(prev.take(4) =~= root.take(4));
                assert(!crate::local_models::verbatim_prefix(prev)) by {
                    if crate::local_models::verbatim_prefix(prev) {
                        assert(root.take(4) =~= seq!['\\', '\\', '?', '\\']);
                    }
                }
            }
        }
        let next = join_under(resolved.as_str(), seg.as_str());
        proof {
            if ok {
                let t1 = all.take(k + 1);
                assert(t1.drop_last() =~= all.take(k as int));
                assert(t1.last() == seg@);
                assert(next@.take(root.len() as int) =~= prev.take(root.len() as int));
            }
        }
        resolved = next;
        k = k + 1;
    }
    proof {
        if ok {
            assert(all.take(k as int) =~= all);
            assert(clean_segments(all) && resolved@ == slash_joined(root, all));
        }
    }
    if path_starts_with(resolved.as_str(), canonical_root) {
        Ok(resolved)
    } else {
        Err(crate::text::owned("path escapes plugin directory"))
    }
}

fn no_dot_segment_exec(v: &Vec<char>) -> (r: bool)
    ensures
        r == crate::lora::no_dot_segment(v@),
{
    let n = v.len();
    let mut i: usize = 0;
    while i < n
        invariant
            n == v@.len(),
            i <= n,
            forall|j: int|
                0 <= j < i && #[trigger] v@[j] == '.' && (j == 0 || v@[j - 1] == '/') ==> !(j + 1 == n || v@[j + 1] == '/'
                    || (v@[j + 1] == '.' && (j + 2 == n || v@[j + 2] == '/'))),
        decreases n - i,
    {
        if v[i] == '.' && (i == 0 || v[i - 1] == '/') {
            let single = i + 1 == n || v[i + 1] == '/';
            let double = i + 1 < n && v[i + 1] == '.' && (i + 2 == n || v[i + 2] == '/');
            if single || double {
                return false;
            }
        }
        i = i + 1;
    }
    true
}


/// `s` without its leading `/` and `\` characters.
pub open spec fn strip_leading_seps(s: Seq<char>) -> Seq<char>
    decreases s.len(),
{
    if s.len() > 0 && (s[0] == '/' || s[0] == '\\') {
        strip_leading_seps(s.drop_first())
    } else {
        s
    }
}

/// A slot entry as the UI host loads it: trimmed, without leading
/// separators, with `/` for `\`; none when nothing is left.
pub open spec fn slot_entry_of(entry: Seq<char>) -> Option<Seq<char>> {
    let e = strip_leading_seps(trim(entry));
    if e.len() == 0 {
        None
    } else {
        Some(crate::text::replace_char(e, '\\', '/'))
    }
}

/// The event names trimmed, blank ones dropped, order kept.
pub open spec fn trimmed_events(s: Seq<Seq<char>>) -> Seq<Seq<char>>
    decreases s.len(),
{
    if s.len() == 0 {
        Seq::empty()
    } else if trim(s.last()).len() == 0 {
        trimmed_events(s.drop_last())
    } else {
        trimmed_events(s.drop_last()).push(trim(s.last()))
    }
}

/// The normalised entry of a slot declaration.
pub fn slot_decl_entry(entry: &str) -> (r: Option<String>)
    ensures
        crate::resource::model::opt_view(r) == slot_entry_of(entry@),
{
    let t = crate::text::trim_chars(entry);
    let mut i: usize = 0;
    proof {
        assert(t@.skip(0) =~= t@);
    }
    while i < t.len() && (t[i] == '/' || t[i] == '\\')
        invariant
            i <= t@.len(),
            strip_leading_seps(t@) == strip_leading_seps(t@.skip(i as int)),
        decreases t.len() - i,
    {
        assert(t@.skip(i as int).drop_first() =~= t@.skip(i + 1));
        i = i + 1;
    }
    let rest = crate::text::slice_vec(&t, i, t.len());
    assert(rest@ =~= t@.skip(i as int));
    if rest.len() == 0 {
        return None;
    }
    let norm = crate::text::replace_char_vec(&rest, '\\', '/');
    Some(crate::text::string_of(&norm))
}

fn trimmed_event_names(events: &Vec<String>) -> (r: Vec<String>)
    ensures
        views(r@) == trimmed_events(views(events@)),
{
    let ghost ev = views(events@);
    let mut out: Vec<String> = Vec::new();
    let mut i: usize = 0;
    assert(ev.take(0) =~= Seq::<Seq<char>>::empty());
    while i < events.len()
        invariant
            i <= events@.len(),
            ev == views(events@),
            views(out@) == trimmed_events(ev.take(i as int)),
        decreases events.len() - i,
    {
        assert(ev.take(i + 1).drop_last() =~= ev.take(i as int));
        assert(ev.take(i + 1).last() == events@[i as int]@);
        let t = crate::text::trim_chars(events[i].as_str());
        if t.len() > 0 {
            let ghost before = views(out@);
            out.push(crate::text::string_of(&t));
            assert(views(out@) =~= before.push(t@));
        }
        i = i + 1;
    }
    assert(ev.take(i as int) =~= ev);
    out
}

/// The UI slot a plugin's declaration becomes, none when its entry is
/// blank: the normalised entry, the Vue component trimmed with `/` for
/// `\` (none when blank), the bridge events trimmed without blanks, and
/// the declaration's asset URL.
pub open spec fn decl_dto(pid: Seq<char>, decl: SlotDeclCandidate) -> Option<SlotView> {
    match slot_entry_of(decl.entry@) {
        Some(e) => Some(
            SlotView {
                plugin_id: pid,
                slot: decl.slot@,
                appearance_id: decl.appearance_id@,
                label: crate::resource::model::opt_view(decl.label),
                entry: e,
                vue_component: match decl.vue_component {
                    Some(v) => if trim(v@).len() > 0 {
                        Some(crate::text::replace_char(trim(v@), '\\', '/'))
                    } else {
                        None
                    },
                    None => None,
                },
                bridge_events: trimmed_events(views(decl.bridge_events@)),
                url: decl.asset_url@,
            },
        ),
        None => None,
    }
}

/// The UI slot the declaration `decl` of plugin `pid` becomes.
pub fn plugin_ui_slot_dto_from_decl(pid: &str, decl: &SlotDeclCandidate) -> (r: Option<PluginUiSlotDto>)
    ensures
        match r {
            Some(d) => decl_dto(pid@, *decl) == Some(d@),
            None => decl_dto(pid@, *decl) is None,
        },
{
    let entry = match slot_decl_entry(decl.entry.as_str()) {
        Some(e) => e,
        None => return None,
    };
    let vue = match &decl.vue_component {
        Some(v) => {
            let t = crate::text::trim_chars(v.as_str());
            if t.len() > 0 {
                Some(crate::text::string_of(&crate::text::replace_char_vec(&t, '\\', '/')))
            } else {
                None
            }
        },
        None => None,
    };
    let events = trimmed_event_names(&decl.bridge_events);
    Some(
        PluginUiSlotDto {
            plugin_id: crate::text::owned(pid),
            slot: decl.slot.clone(),
            appearance_id: decl.appearance_id.clone(),
            label: crate::resource::model::copy_opt_string(&decl.label),
            entry,
            vue_component: vue,
            bridge_events: events,
            url: decl.asset_url.clone(),
        },
    )
}

} // verus!
