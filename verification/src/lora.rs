//! Managed llama.cpp LoRA adapters: validation of adapter manifests and
//! package paths, and the decisions of importing, resolving and listing
//! adapters. The files themselves are read and written by the host.

use vstd::prelude::*;
use crate::resource::model::opt_view;
use crate::local_models::{clean_segment, lemma_extension_dot_unique, name_extension, names_file, path_file_name, plain_path};
use crate::text::{lemma_lex_antisym, lemma_lex_total, lemma_lex_trans, lex_le};
use crate::text::{
    ascii_lower_seq, eq_ignore_ascii_case, replace_char, starts_with, take_at_most, trim,
};

verus! {

/// A character an adapter id may hold: ASCII letters and digits, `.`,
/// `_` and `-`.
pub open spec fn adapter_id_char(c: char) -> bool {
    ('a' <= c <= 'z') || ('A' <= c <= 'Z') || ('0' <= c <= '9') || c == '.' || c == '_' || c == '-'
}

/// A valid (trimmed) adapter id: 1 to 96 id characters, not starting with
/// `.`.
pub open spec fn valid_adapter_id(t: Seq<char>) -> bool {
    &&& t.len() > 0
    &&& t.len() <= 96
    &&& t[0] != '.'
    &&& forall|i: int| 0 <= i < t.len() ==> adapter_id_char(#[trigger] t[i])
}

pub open spec fn adapter_id_message() -> Seq<char> {
    "adapter id must contain only ASCII letters, digits, '.', '_' or '-'"@
}

/// The trimmed adapter id, or the refusal when it is not a valid id.
pub fn validate_adapter_id(id: &str) -> (r: Result<String, String>)
    ensures
        valid_adapter_id(trim(id@)) ==> (r matches Ok(v) && v@ == trim(id@)),
        !valid_adapter_id(trim(id@)) ==> (r matches Err(e) && e@ == adapter_id_message()),
{
    let t = crate::text::trim_chars(id);
    let mut ok = t.len() > 0 && t.len() <= 96 && t[0] != '.';
    let mut i: usize = 0;
    while i < t.len()
        invariant
            i <= t@.len(),
            ok == (t@.len() > 0 && t@.len() <= 96 && t@[0] != '.' && forall|j: int|
                0 <= j < i ==> adapter_id_char(#[trigger] t@[j])),
        decreases t.len() - i,
    {
        let c = t[i];
        let good = ('a' <= c && c <= 'z') || ('A' <= c && c <= 'Z') || ('0' <= c && c <= '9') || c == '.' || c
            == '_' || c == '-';
        if !good {
            ok = false;
        }
        i = i + 1;
    }
    if ok {
        Ok(crate::text::string_of(&t))
    } else {
        Err(crate::text::owned("adapter id must contain only ASCII letters, digits, '.', '_' or '-'"))
    }
}

/// `value` trimmed and cut to `max_chars` characters; none when that
/// leaves nothing.
pub open spec fn normalized_optional(value: Option<Seq<char>>, max_chars: nat) -> Option<Seq<char>> {
    match value {
        Some(v) => {
            let t = take_at_most(trim(v), max_chars);
            if t.len() > 0 {
                Some(t)
            } else {
                None
            }
        },
        None => None,
    }
}

pub fn normalize_optional(value: Option<String>, max_chars: usize) -> (r: Option<String>)
    ensures
        crate::resource::model::opt_view(r) == normalized_optional(
            crate::resource::model::opt_view(value),
            max_chars as nat,
        ),
{
    match value {
        Some(v) => {
            let t = crate::text::trim_chars(v.as_str());
            let cut = if max_chars <= t.len() {
                crate::text::take_vec(&t, max_chars)
            } else {
                t
            };
            if cut.len() > 0 {
                Some(crate::text::string_of(&cut))
            } else {
                None
            }
        },
        None => None,
    }
}

/// A path of one component: no `/` or `\` and no drive prefix (a second
/// character `:`), so no root, prefix or separator on any platform.
pub open spec fn single_segment(p: Seq<char>) -> bool {
    &&& forall|i: int| 0 <= i < p.len() ==> #[trigger] p[i] != '/' && p[i] != '\\'
    &&& !(p.len() >= 2 && p[1] == ':')
}

/// No `/`-segment of `p` is `.` or `..`.
pub open spec fn no_dot_segment(p: Seq<char>) -> bool {
    forall|i: int|
        0 <= i < p.len() && #[trigger] p[i] == '.' && (i == 0 || p[i - 1] == '/') ==> !(i + 1 == p.len() || p[i + 1]
            == '/' || (p[i + 1] == '.' && (i + 2 == p.len() || p[i + 2] == '/')))
}

/// `..` stands between separators (or the ends) somewhere in `p`.
pub open spec fn has_parent_segment(p: Seq<char>) -> bool {
    exists|i: int|
        0 <= i && i + 2 <= p.len() && #[trigger] p[i] == '.' && p[i + 1] == '.' && (i == 0 || p[i - 1] == '/') && (
        i + 2 == p.len() || p[i + 2] == '/')
}

/// Calls `std::path::Path::is_absolute`. Trusted: a path with no
/// separator and no prefix is not absolute, nor is a plain path that does
/// not start with `/`. What else counts as absolute depends on the
/// platform (a leading `/` is absolute on Unix only) and is left unsaid.
#[verifier::external_body]
fn path_is_absolute(p: &str) -> (r: bool)
    ensures
        single_segment(p@) ==> !r,
        plain_path(p@) && !starts_with(p@, "/"@) ==> !r,
{
    std::path::Path::new(p).is_absolute()
}

/// The kinds of components `std::path::Path::components` yields.
#[derive(Clone, Copy, Debug, PartialEq, Eq, Structural)]
pub enum PathComponentKind {
    Prefix,
    RootDir,
    CurDir,
    ParentDir,
    Normal,
}

/// `p` holds no `\`, so only `/` can separate its components.
pub open spec fn no_backslash(p: Seq<char>) -> bool {
    forall|i: int| 0 <= i < p.len() ==> #[trigger] p[i] != '\\'
}

/// Calls `std::path::Path::components` and names each component's kind.
/// Trusted: a nonempty single component other than `.` and `..` is one
/// normal component; in a plain path, a `..` between separators is a
/// parent component, a leading `/` is the root, and when it is relative
/// and has no `.` or `..` segment every component is normal (empty
/// segments yield none). Paths with `\`, a drive prefix or a leading `//`
/// follow each platform's own rules, which are left unsaid.
#[verifier::external_body]
fn path_component_kinds(p: &str) -> (r: Vec<PathComponentKind>)
    ensures
        single_segment(p@) && p@.len() > 0 && p@ != "."@ && p@ != ".."@ ==> r@ == seq![PathComponentKind::Normal],
        plain_path(p@) && has_parent_segment(p@) ==> r@.contains(PathComponentKind::ParentDir),
        plain_path(p@) && starts_with(p@, "/"@) ==> r@.contains(PathComponentKind::RootDir),
        plain_path(p@) && !starts_with(p@, "/"@) && no_dot_segment(p@) ==> forall|k: int|
            0 <= k < r@.len() ==> #[trigger] r@[k] == PathComponentKind::Normal,
{
    std::path::Path::new(p).components().map(|part| match part {
        std::path::Component::Prefix(_) => PathComponentKind::Prefix,
        std::path::Component::RootDir => PathComponentKind::RootDir,
        std::path::Component::CurDir => PathComponentKind::CurDir,
        std::path::Component::ParentDir => PathComponentKind::ParentDir,
        std::path::Component::Normal(_) => PathComponentKind::Normal,
    }).collect()
}

/// Whether every component kind is `Normal`.
fn all_normal(kinds: &Vec<PathComponentKind>) -> (r: bool)
    ensures
        r == forall|i: int| 0 <= i < kinds@.len() ==> #[trigger] kinds@[i] == PathComponentKind::Normal,
{
    let mut i: usize = 0;
    while i < kinds.len()
        invariant
            i <= kinds@.len(),
            forall|j: int| 0 <= j < i ==> #[trigger] kinds@[j] == PathComponentKind::Normal,
        decreases kinds.len() - i,
    {
        match kinds[i] {
            PathComponentKind::Normal => {},
            _ => return false,
        }
        i = i + 1;
    }
    true
}

/// `k` is the position of the last `.` of `p`, with something before it.
pub open spec fn extension_dot(p: Seq<char>, k: int) -> bool {
    0 < k < p.len() && p[k] == '.' && forall|j: int| k < j < p.len() ==> #[trigger] p[j] != '.'
}

/// What `std::path::Path::extension` may give for `p` on any platform:
/// for a single component other than `.` and `..`, what follows its last `.` when something
/// precedes that dot, and none otherwise; for a plain path whose last
/// segment is clean, that segment's extension.
pub open spec fn extension_outcome(p: Seq<char>, r: Option<Seq<char>>) -> bool {
    &&& single_segment(p) && p != "."@ && p != ".."@ ==> match r {
        Some(e) => exists|k: int| extension_dot(p, k) && e == p.skip(k + 1),
        None => forall|k: int| !extension_dot(p, k),
    }
    &&& names_file(p) ==> r == name_extension(path_file_name(p))
}

/// Calls `std::path::Path::extension`. Trusted: the result is one
/// `extension_outcome` allows. Paths with `\`, a drive prefix or a
/// leading `//` are read differently by each platform; their extension is
/// left unsaid.
#[verifier::external_body]
pub(crate) fn path_extension(p: &str) -> (r: Option<String>)
    ensures
        extension_outcome(p@, opt_view(r)),
{
    std::path::Path::new(p).extension().and_then(|ext| ext.to_str()).map(|ext| ext.to_string())
}

proof fn lemma_gguf_extension(n: Seq<char>, e: Seq<char>, k: int)
    requires
        n.len() > 5,
        eq_ignore_ascii_case(n.skip(n.len() - 5), ".gguf"@),
        extension_dot(n, k),
        e == n.skip(k + 1),
    ensures
        eq_ignore_ascii_case(e, "gguf"@),
{
    reveal_strlit(".gguf");
    reveal_strlit("gguf");
    let t = n.skip(n.len() - 5);
    assert(ascii_lower_seq(t)[0] == '.');
    assert(crate::text::ascii_lower(t[0]) == '.');
    assert(t[0] == '.');
    assert(n[n.len() - 5] == '.');
    if k < n.len() - 5 {
        assert(n[n.len() - 5] != '.');
    }
    if k > n.len() - 5 {
        let q = k - (n.len() - 5);
        assert(1 <= q < 5);
        assert(ascii_lower_seq(t)[q] == ".gguf"@[q]);
        assert(crate::text::ascii_lower(t[q]) != '.');
    }
    assert(k == n.len() - 5);
    assert(ascii_lower_seq(e) =~= ascii_lower_seq(t).skip(1));
    assert(ascii_lower_seq(e) =~= "gguf"@);
    assert(ascii_lower_seq("gguf"@) =~= "gguf"@);
}

pub open spec fn package_path_message() -> Seq<char> {
    "adapterFile must be a relative GGUF path without parent traversal"@
}

/// A file name ending in `.gguf`, ignoring ASCII case, with something
/// before that ending.
pub open spec fn gguf_name(f: Seq<char>) -> bool {
    f.len() > 5 && eq_ignore_ascii_case(f.skip(f.len() - 5), ".gguf"@)
}

/// What a package path check may give for `path`, once `\` is turned into
/// `/`: an empty path is refused; a relative plain path whose segments are
/// all ordinary names and whose file name ends in `.gguf` is accepted; an
/// accepted path is the normalised one, nonempty, and (when plain, so read
/// alike on every platform) relative and free of `..`; the refusal
/// otherwise.
pub open spec fn package_path_outcome(path: Seq<char>, r: Result<Seq<char>, Seq<char>>) -> bool {
    let n = replace_char(path, '\\', '/');
    &&& n.len() == 0 ==> r is Err
    &&& (single_segment(n) && n != "."@ && n != ".."@ && gguf_name(n)) ==> r is Ok
    &&& (n.len() > 0 && plain_path(n) && !starts_with(n, "/"@) && no_dot_segment(n) && clean_segment(
        path_file_name(n),
    ) && gguf_name(path_file_name(n))) ==> r is Ok
    &&& match r {
        Ok(v) => v == n && n.len() > 0 && (plain_path(n) ==> !has_parent_segment(n) && !starts_with(n, "/"@)),
        Err(e) => e == package_path_message(),
    }
}

pub open spec fn result_view(r: Result<String, String>) -> Result<Seq<char>, Seq<char>> {
    match r {
        Ok(v) => Ok(v@),
        Err(e) => Err(e@),
    }
}

/// The package path with `/` separators, when it is a relative `.gguf`
/// path without parent traversal.
pub fn validate_package_path(path: &str) -> (r: Result<String, String>)
    ensures
        package_path_outcome(path@, result_view(r)),
{
    let n = crate::text::replace_char_vec(&crate::text::chars_of(path), '\\', '/');
    let normalized = crate::text::string_of(&n);
    let ext = path_extension(normalized.as_str());
    let gguf = match &ext {
        Some(e) => crate::text::eq_ignore_case_vec(&crate::text::chars_of(e.as_str()), &crate::text::chars_of("gguf")),
        None => false,
    };
    let kinds = path_component_kinds(normalized.as_str());
    let normal = all_normal(&kinds);
    let absolute = path_is_absolute(normalized.as_str());
    proof {
        let nn = normalized@;
        reveal_strlit(".");
        reveal_strlit("..");
        reveal_strlit("gguf");
        assert forall|i: int| 0 <= i < nn.len() implies #[trigger] nn[i] != '\\' by {
            assert(nn[i] == n@[i]);
        }
        if single_segment(nn) && nn != "."@ && nn != ".."@ && gguf_name(nn) {
            lemma_gguf_dot(nn);
            match ext {
                Some(e) => {
                    let kk = choose|kk: int| extension_dot(nn, kk) && e@ == nn.skip(kk + 1);
                    lemma_gguf_extension(nn, e@, kk);
                },
                None => {},
            }
        }
        let f = path_file_name(nn);
        if nn.len() > 0 && plain_path(nn) && !starts_with(nn, "/"@) && no_dot_segment(nn) && clean_segment(f)
            && gguf_name(f) {
            lemma_gguf_dot(f);
            let kk = choose|kk: int| extension_dot(f, kk);
            lemma_extension_dot_unique(f, kk, f.len() - 5);
            lemma_gguf_extension(f, f.skip(kk + 1), kk);
            assert(gguf);
            assert(normal);
        }
        if normal && plain_path(nn) {
            if has_parent_segment(nn) {
                let k = choose|k: int| 0 <= k < kinds@.len() && kinds@[k] == PathComponentKind::ParentDir;
                assert(kinds@[k] == PathComponentKind::Normal);
            }
            if starts_with(nn, "/"@) {
                let k = choose|k: int| 0 <= k < kinds@.len() && kinds@[k] == PathComponentKind::RootDir;
                assert(kinds@[k] == PathComponentKind::Normal);
            }
        }
    }
    let valid = n.len() > 0 && !absolute && normal && gguf;
    if valid {
        Ok(normalized)
    } else {
        Err(crate::text::owned("adapterFile must be a relative GGUF path without parent traversal"))
    }
}

/// A `.gguf` ending puts the last dot five characters from the end.
proof fn lemma_gguf_dot(f: Seq<char>)
    requires
        gguf_name(f),
    ensures
        extension_dot(f, f.len() - 5),
{
    reveal_strlit(".gguf");
    let k = f.len() - 5;
    assert(f[k] == '.') by {
        assert(crate::text::ascii_lower_seq(f.skip(k))[0] == ".gguf"@[0]);
    }
    assert forall|j: int| k < j < f.len() implies #[trigger] f[j] != '.' by {
        assert(crate::text::ascii_lower_seq(f.skip(k))[j - k] == ".gguf"@[j - k]);
    }
}

#[derive(Clone, Copy, Debug, PartialEq, Eq, Structural)]
pub enum LoraContentRating {
    General,
    Adult,
}

/// The manifest of a managed adapter (`adapter.json`).
#[derive(Debug)]
pub struct AdapterManifest {
    pub schema_version: u32,
    pub id: String,
    pub name: String,
    pub version: String,
    pub format: String,
    pub adapter_file: String,
    pub adapter_sha256: String,
    pub base_model: Option<String>,
    pub architecture: Option<String>,
    pub content_rating: LoraContentRating,
    pub description: Option<String>,
    pub license: Option<String>,
    pub source: Option<String>,
    pub installed_at: String,
}

/// An adapter manifest as plain values.
pub struct AdapterManifestView {
    pub schema_version: u32,
    pub id: Seq<char>,
    pub name: Seq<char>,
    pub version: Seq<char>,
    pub format: Seq<char>,
    pub adapter_file: Seq<char>,
    pub adapter_sha256: Seq<char>,
    pub base_model: Option<Seq<char>>,
    pub architecture: Option<Seq<char>>,
    pub content_rating: LoraContentRating,
    pub description: Option<Seq<char>>,
    pub license: Option<Seq<char>>,
    pub source: Option<Seq<char>>,
    pub installed_at: Seq<char>,
}

impl View for AdapterManifest {
    type V = AdapterManifestView;

    open spec fn view(&self) -> AdapterManifestView {
        AdapterManifestView {
            schema_version: self.schema_version,
            id: self.id@,
            name: self.name@,
            version: self.version@,
            format: self.format@,
            adapter_file: self.adapter_file@,
            adapter_sha256: self.adapter_sha256@,
            base_model: opt_view(self.base_model),
            architecture: opt_view(self.architecture),
            content_rating: self.content_rating,
            description: opt_view(self.description),
            license: opt_view(self.license),
            source: opt_view(self.source),
            installed_at: self.installed_at@,
        }
    }
}

pub open spec fn is_hex_digit(c: char) -> bool {
    ('0' <= c <= '9') || ('a' <= c <= 'f') || ('A' <= c <= 'F')
}

/// Sixty-four hexadecimal digits.
pub open spec fn is_sha256_hex(s: Seq<char>) -> bool {
    s.len() == 64 && forall|i: int| 0 <= i < s.len() ==> is_hex_digit(#[trigger] s[i])
}

/// The first problem of a manifest, in the order it is checked: schema
/// version, id, package path (`path_error`), name, version, format,
/// checksum.
pub open spec fn manifest_error(m: AdapterManifestView, path_error: Option<Seq<char>>) -> Option<Seq<char>> {
    let name = trim(m.name);
    let version = trim(m.version);
    let format = trim(m.format);
    if m.schema_version != 1 {
        Some("unsupported .ocadapter schemaVersion "@ + crate::text::decimal(m.schema_version as nat) + "; expected 1"@)
    } else if !valid_adapter_id(trim(m.id)) {
        Some(adapter_id_message())
    } else if path_error is Some {
        path_error
    } else if name.len() == 0 || name.len() > 160 {
        Some("adapter name must contain 1 to 160 characters"@)
    } else if version.len() == 0 || version.len() > 64 {
        Some("adapter version must contain 1 to 64 characters"@)
    } else if format != "llama.cpp-lora-gguf"@ {
        Some("unsupported adapter format '"@ + format + "'; expected llama.cpp-lora-gguf"@)
    } else if !is_sha256_hex(ascii_lower_seq(trim(m.adapter_sha256))) {
        Some("adapterSha256 must be a 64-character SHA-256"@)
    } else {
        None
    }
}

/// `v` is `m` with its text fields trimmed, its package path `file` and
/// its checksum in lowercase.
pub open spec fn normalized_manifest(m: AdapterManifestView, file: Seq<char>) -> AdapterManifestView {
    AdapterManifestView {
        id: trim(m.id),
        name: trim(m.name),
        version: trim(m.version),
        format: trim(m.format),
        adapter_file: file,
        adapter_sha256: ascii_lower_seq(trim(m.adapter_sha256)),
        ..m
    }
}

/// `r` is what checking manifest `m` gives when its package path check
/// gave `path`.
pub open spec fn manifest_checked(
    m: AdapterManifestView,
    path: Result<Seq<char>, Seq<char>>,
    r: Result<AdapterManifest, String>,
) -> bool {
    let path_error = match path {
        Ok(_) => None,
        Err(e) => Some(e),
    };
    match manifest_error(m, path_error) {
        Some(e) => r matches Err(x) && x@ == e,
        None => r matches Ok(v) && path matches Ok(file) && v@ == normalized_manifest(m, file),
    }
}

fn all_hex(v: &Vec<char>) -> (r: bool)
    ensures
        r == forall|i: int| 0 <= i < v@.len() ==> is_hex_digit(#[trigger] v@[i]),
{
    let mut i: usize = 0;
    while i < v.len()
        invariant
            i <= v@.len(),
            forall|j: int| 0 <= j < i ==> is_hex_digit(#[trigger] v@[j]),
        decreases v.len() - i,
    {
        let c = v[i];
        if !(('0' <= c && c <= '9') || ('a' <= c && c <= 'f') || ('A' <= c && c <= 'F')) {
            return false;
        }
        i = i + 1;
    }
    true
}

/// Checks manifest `m` whose package path check gave `adapter_file`, and
/// normalises it.
pub fn check_manifest(m: AdapterManifest, adapter_file: Result<String, String>) -> (r: Result<AdapterManifest, String>)
    ensures
        manifest_checked(m@, result_view(adapter_file), r),
{
    let ghost gm = m@;
    let ghost gp = result_view(adapter_file);
    let AdapterManifest {
        schema_version,
        id,
        name,
        version,
        format,
        adapter_file: _,
        adapter_sha256,
        base_model,
        architecture,
        content_rating,
        description,
        license,
        source,
        installed_at,
    } = m;
    if schema_version != 1 {
        let mut e = crate::text::owned("unsupported .ocadapter schemaVersion ");
        crate::text::append_chars(&mut e, &crate::text::decimal_string(schema_version as u64));
        crate::text::append(&mut e, "; expected 1");
        return Err(e);
    }
    let id = match validate_adapter_id(id.as_str()) {
        Ok(v) => v,
        Err(e) => return Err(e),
    };
    let file = match adapter_file {
        Ok(f) => f,
        Err(e) => return Err(e),
    };
    let name_t = crate::text::trim_chars(name.as_str());
    let version_t = crate::text::trim_chars(version.as_str());
    let format_t = crate::text::trim_chars(format.as_str());
    let sha = crate::text::ascii_lower_vec(&crate::text::trim_chars(adapter_sha256.as_str()));
    if name_t.len() == 0 || name_t.len() > 160 {
        return Err(crate::text::owned("adapter name must contain 1 to 160 characters"));
    }
    if version_t.len() == 0 || version_t.len() > 64 {
        return Err(crate::text::owned("adapter version must contain 1 to 64 characters"));
    }
    let format_ok = crate::text::seq_eq(&format_t, &crate::text::chars_of("llama.cpp-lora-gguf"));
    if !format_ok {
        let mut e = crate::text::owned("unsupported adapter format '");
        crate::text::append_chars(&mut e, &format_t);
        crate::text::append(&mut e, "'; expected llama.cpp-lora-gguf");
        return Err(e);
    }
    if sha.len() != 64 || !all_hex(&sha) {
        return Err(crate::text::owned("adapterSha256 must be a 64-character SHA-256"));
    }
    let v = AdapterManifest {
        schema_version,
        id,
        name: crate::text::string_of(&name_t),
        version: crate::text::string_of(&version_t),
        format: crate::text::string_of(&format_t),
        adapter_file: file,
        adapter_sha256: crate::text::string_of(&sha),
        base_model,
        architecture,
        content_rating,
        description,
        license,
        source,
        installed_at,
    };
    assert(v@ == normalized_manifest(gm, v.adapter_file@));
    Ok(v)
}

/// Checks and normalises a manifest: its package path is checked as
/// `validate_package_path` does.
pub fn validate_manifest(m: AdapterManifest) -> (r: Result<AdapterManifest, String>)
    ensures
        exists|p: Result<Seq<char>, Seq<char>>| package_path_outcome(m.adapter_file@, p) && manifest_checked(m@, p, r),
{
    let path = validate_package_path(m.adapter_file.as_str());
    let ghost p = result_view(path);
    let ghost gm = m@;
    let r = check_manifest(m, path);
    assert(package_path_outcome(gm.adapter_file, p) && manifest_checked(gm, p, r));
    r
}

/// Whether archive entry `name`, with `\` read as `/`, is `wanted`.
pub open spec fn entry_is(name: Seq<char>, wanted: Seq<char>) -> bool {
    replace_char(name, '\\', '/') == wanted
}

/// Exactly one of `names` is `wanted`, at index `i`.
pub open spec fn only_entry(names: Seq<String>, wanted: Seq<char>, i: int) -> bool {
    &&& 0 <= i < names.len()
    &&& entry_is(names[i]@, wanted)
    &&& forall|j: int| 0 <= j < names.len() && j != i ==> !entry_is(#[trigger] names[j]@, wanted)
}

/// The index of the one entry of `names` that is `wanted`; none when no
/// entry or more than one is.
fn single_entry(names: &Vec<String>, wanted: &str) -> (r: Option<usize>)
    ensures
        match r {
            Some(i) => only_entry(names@, wanted@, i as int),
            None => forall|i: int| !only_entry(names@, wanted@, i),
        },
{
    let w = crate::text::chars_of(wanted);
    let mut found: Option<usize> = None;
    let mut twice = false;
    let mut k: usize = 0;
    while k < names.len()
        invariant
            k <= names@.len(),
            w@ == wanted@,
            !twice ==> match found {
                Some(i) => i < k && entry_is(names@[i as int]@, wanted@) && forall|j: int|
                    0 <= j < k && j != i ==> !entry_is(#[trigger] names@[j]@, wanted@),
                None => forall|j: int| 0 <= j < k ==> !entry_is(#[trigger] names@[j]@, wanted@),
            },
            twice ==> exists|a: int, b: int|
                0 <= a < b < k && entry_is(#[trigger] names@[a]@, wanted@) && entry_is(#[trigger] names@[b]@, wanted@),
        decreases names.len() - k,
    {
        let n = crate::text::replace_char_vec(&crate::text::chars_of(names[k].as_str()), '\\', '/');
        if crate::text::seq_eq(&n, &w) {
            match found {
                Some(i) => {
                    if !twice {
                        assert(entry_is(names@[i as int]@, wanted@) && entry_is(names@[k as int]@, wanted@));
                    }
                    twice = true;
                },
                None => {
                    found = Some(k);
                },
            }
        }
        k = k + 1;
    }
    if twice {
        proof {
            let (a, b) = choose|a: int, b: int|
                0 <= a < b < k && entry_is(#[trigger] names@[a]@, wanted@) && entry_is(#[trigger] names@[b]@, wanted@);
            assert forall|i: int| !only_entry(names@, wanted@, i) by {
                if only_entry(names@, wanted@, i) {
                    if i != a {
                        assert(!entry_is(names@[a]@, wanted@));
                    } else {
                        assert(!entry_is(names@[b]@, wanted@));
                    }
                }
            }
        }
        None
    } else {
        proof {
            if found is None {
                assert forall|i: int| !only_entry(names@, wanted@, i) by {
                    if only_entry(names@, wanted@, i) {
                        assert(!entry_is(names@[i]@, wanted@));
                    }
                }
            }
        }
        found
    }
}

/// The index of a package's root `adapter.json` among its entry names;
/// refused unless there is exactly one.
pub fn package_manifest_entry(names: &Vec<String>) -> (r: Result<usize, String>)
    ensures
        match r {
            Ok(i) => only_entry(names@, "adapter.json"@, i as int),
            Err(e) => (forall|i: int| !only_entry(names@, "adapter.json"@, i)) && e@
                == ".ocadapter must contain exactly one root adapter.json"@,
        },
{
    match single_entry(names, "adapter.json") {
        Some(i) => Ok(i),
        None => Err(crate::text::owned(".ocadapter must contain exactly one root adapter.json")),
    }
}

/// Whether a package holds its adapter file exactly once among its entry
/// names.
pub fn package_adapter_entry(names: &Vec<String>, adapter_file: &str) -> (r: Result<(), String>)
    ensures
        match r {
            Ok(_) => exists|i: int| only_entry(names@, adapter_file@, i),
            Err(e) => (forall|i: int| !only_entry(names@, adapter_file@, i)) && e@
                == ".ocadapter must contain exactly one '"@ + adapter_file@ + "' entry"@,
        },
{
    match single_entry(names, adapter_file) {
        Some(_) => Ok(()),
        None => {
            let mut e = crate::text::owned(".ocadapter must contain exactly one '");
            crate::text::append(&mut e, adapter_file);
            crate::text::append(&mut e, "' entry");
            Err(e)
        },
    }
}

/// The largest manifest the host reads or writes: 1 MiB.
pub open spec fn max_manifest_bytes() -> nat {
    1024 * 1024
}

/// The largest adapter file the host imports: 16 GiB.
pub open spec fn max_adapter_bytes() -> nat {
    16 * 1024 * 1024 * 1024
}

/// Where a manifest comes from or goes to.
#[derive(Clone, Copy, Debug, PartialEq, Eq, Structural)]
pub enum ManifestPlace {
    Installed,
    Written,
    Packaged,
}

pub open spec fn manifest_size_message(place: ManifestPlace) -> Seq<char> {
    match place {
        ManifestPlace::Installed => "installed adapter manifest exceeds the safe limit"@,
        ManifestPlace::Written => "adapter manifest exceeds the safe limit"@,
        ManifestPlace::Packaged => "adapter.json exceeds the 1 MiB safe limit"@,
    }
}

/// A manifest of `len` bytes is refused when it exceeds 1 MiB.
pub fn check_manifest_size(len: u64, place: ManifestPlace) -> (r: Result<(), String>)
    ensures
        len <= max_manifest_bytes() ==> r is Ok,
        len > max_manifest_bytes() ==> (r matches Err(e) && e@ == manifest_size_message(place)),
{
    if len <= 1024 * 1024 {
        Ok(())
    } else {
        match place {
            ManifestPlace::Installed => Err(crate::text::owned("installed adapter manifest exceeds the safe limit")),
            ManifestPlace::Written => Err(crate::text::owned("adapter manifest exceeds the safe limit")),
            ManifestPlace::Packaged => Err(crate::text::owned("adapter.json exceeds the 1 MiB safe limit")),
        }
    }
}

/// A packaged adapter entry is refused when it is a directory or larger
/// than 16 GiB.
pub fn check_packaged_adapter(is_dir: bool, size: u64) -> (r: Result<(), String>)
    ensures
        !is_dir && size <= max_adapter_bytes() ==> r is Ok,
        is_dir || size > max_adapter_bytes() ==> (r matches Err(e) && e@
            == "packaged adapter is not a valid file or is too large"@),
{
    if is_dir || size > 16 * 1024 * 1024 * 1024 {
        Err(crate::text::owned("packaged adapter is not a valid file or is too large"))
    } else {
        Ok(())
    }
}

/// The running size of an adapter copy after `read` more bytes; refused
/// past 16 GiB.
pub fn count_copied(total: u64, read: u64) -> (r: Result<u64, String>)
    ensures
        total + read <= max_adapter_bytes() ==> r == Ok::<u64, String>((total + read) as u64),
        total + read > max_adapter_bytes() ==> (r matches Err(e) && (e@ == "adapter size overflow"@ || e@
            == "adapter exceeds the 16 GiB managed import limit"@)),
        total + read > u64::MAX ==> (r matches Err(e) && e@ == "adapter size overflow"@),
{
    match total.checked_add(read) {
        None => Err(crate::text::owned("adapter size overflow")),
        Some(t) => {
            if t > 16 * 1024 * 1024 * 1024 {
                Err(crate::text::owned("adapter exceeds the 16 GiB managed import limit"))
            } else {
                Ok(t)
            }
        },
    }
}

/// A packaged adapter's copied bytes must hash to the checksum its
/// manifest declares.
pub fn check_package_checksum(copied_sha256: &str, declared: &str) -> (r: Result<(), String>)
    ensures
        copied_sha256@ == declared@ ==> r is Ok,
        copied_sha256@ != declared@ ==> (r matches Err(e) && e@
            == "packaged adapter SHA-256 does not match adapter.json"@),
{
    if crate::text::str_eq(copied_sha256, declared) {
        Ok(())
    } else {
        Err(crate::text::owned("packaged adapter SHA-256 does not match adapter.json"))
    }
}

/// A packaged manifest as installed: refused when its architecture and the
/// GGUF's differ (ignoring ASCII case); else it names `adapter.gguf`, takes
/// the GGUF's architecture when it declares none, and records
/// `installed_at`.
pub fn finish_package_manifest(
    m: AdapterManifest,
    gguf_architecture: Option<String>,
    installed_at: String,
) -> (r: Result<AdapterManifest, String>)
    ensures
        match (opt_view(m.architecture), opt_view(gguf_architecture)) {
            (Some(expected), Some(actual)) => !eq_ignore_ascii_case(expected, actual),
            _ => false,
        } ==> (r matches Err(e) && e@ == "adapter architecture mismatch: manifest '"@ + opt_view(
            m.architecture,
        )->Some_0 + "', GGUF '"@ + opt_view(gguf_architecture)->Some_0 + "'"@),
        match (opt_view(m.architecture), opt_view(gguf_architecture)) {
            (Some(expected), Some(actual)) => eq_ignore_ascii_case(expected, actual),
            _ => true,
        } ==> (r matches Ok(v) && v@ == AdapterManifestView {
            adapter_file: "adapter.gguf"@,
            architecture: match opt_view(m.architecture) {
                Some(a) => Some(a),
                None => opt_view(gguf_architecture),
            },
            installed_at: installed_at@,
            ..m@
        }),
{
    let mut m = m;
    let ghost gm = m@;
    match (&m.architecture, &gguf_architecture) {
        (Some(expected), Some(actual)) => {
            let same = crate::text::eq_ignore_case_vec(
                &crate::text::chars_of(expected.as_str()),
                &crate::text::chars_of(actual.as_str()),
            );
            if !same {
                let mut e = crate::text::owned("adapter architecture mismatch: manifest '");
                crate::text::append(&mut e, expected.as_str());
                crate::text::append(&mut e, "', GGUF '");
                crate::text::append(&mut e, actual.as_str());
                crate::text::append(&mut e, "'");
                return Err(e);
            }
        },
        _ => {},
    }
    let architecture = match m.architecture {
        Some(a) => Some(a),
        None => gguf_architecture,
    };
    let v = AdapterManifest {
        adapter_file: crate::text::owned("adapter.gguf"),
        architecture,
        installed_at,
        ..m
    };
    assert(v@ == AdapterManifestView {
        adapter_file: "adapter.gguf"@,
        architecture: match gm.architecture {
            Some(a) => Some(a),
            None => opt_view(v.architecture),
        },
        installed_at: v.installed_at@,
        ..gm
    });
    Ok(v)
}

/// The number of bytes of `c` in UTF-8.
pub open spec fn utf8_width(c: char) -> nat {
    let u = c as u32;
    if u < 0x80 {
        1
    } else if u < 0x800 {
        2
    } else if u < 0x10000 {
        3
    } else {
        4
    }
}

/// The number of bytes of `s` in UTF-8.
pub open spec fn utf8_len(s: Seq<char>) -> nat
    decreases s.len(),
{
    if s.len() == 0 {
        0
    } else {
        utf8_len(s.drop_last()) + utf8_width(s.last())
    }
}

/// The characters of `s` that make up its first `n` UTF-8 bytes, when a
/// character ends there.
pub open spec fn byte_prefix(s: Seq<char>, n: nat) -> Option<Seq<char>> {
    if exists|k: int| 0 <= k <= s.len() && utf8_len(s.take(k)) == n {
        Some(s.take(choose|k: int| 0 <= k <= s.len() && utf8_len(s.take(k)) == n))
    } else {
        None
    }
}

proof fn lemma_utf8_len_monotone(s: Seq<char>, a: int, b: int)
    requires
        0 <= a <= b <= s.len(),
    ensures
        utf8_len(s.take(a)) <= utf8_len(s.take(b)),
        a < b ==> utf8_len(s.take(a)) < utf8_len(s.take(b)),
    decreases b - a,
{
    if a < b {
        lemma_utf8_len_monotone(s, a, b - 1);
        assert(s.take(b).drop_last() =~= s.take(b - 1));
    }
}

fn char_utf8_width(c: char) -> (w: usize)
    ensures
        w == utf8_width(c),
{
    let u = c as u32;
    if u < 0x80 {
        1
    } else if u < 0x800 {
        2
    } else if u < 0x10000 {
        3
    } else {
        4
    }
}

/// The first `n` bytes of `s` as characters: `&s[..n]`.
fn str_byte_prefix(s: &str, n: usize) -> (r: String)
    requires
        byte_prefix(s@, n as nat) is Some,
    ensures
        byte_prefix(s@, n as nat) == Some(r@),
{
    let cs = crate::text::chars_of(s);
    let mut k: usize = 0;
    let mut acc: usize = 0;
    let ghost target = choose|k: int| 0 <= k <= s@.len() && utf8_len(s@.take(k)) == n;
    while acc < n
        invariant
            k <= cs@.len(),
            cs@ == s@,
            0 <= target <= s@.len(),
            utf8_len(s@.take(target)) == n,
            acc == utf8_len(s@.take(k as int)),
            k <= target,
        decreases n - acc,
    {
        proof {
            if k == target {
                assert(false);
            }
            lemma_utf8_len_monotone(s@, k as int, target);
            assert(s@.take(k + 1).drop_last() =~= s@.take(k as int));
            lemma_utf8_len_monotone(s@, k + 1, target);
            assert(k < cs@.len());
        }
        acc = acc + char_utf8_width(cs[k]);
        k = k + 1;
    }
    proof {
        if k < target {
            lemma_utf8_len_monotone(s@, k as int, target);
        }
    }
    crate::text::string_of(&crate::text::take_vec(&cs, k))
}

/// The manifest of a raw GGUF import, as built before it is checked: id
/// `local.lora.` and the first 16 bytes of the checksum, the requested name
/// (trimmed, when not blank) or else the source's file stem or
/// `Local LoRA`, version `0.0.0-local`, file `adapter.gguf`.
pub open spec fn raw_manifest_view(
    name: Option<Seq<char>>,
    stem: Option<Seq<char>>,
    sha256: Seq<char>,
    base_model: Option<Seq<char>>,
    architecture: Option<Seq<char>>,
    content_rating: LoraContentRating,
    installed_at: Seq<char>,
) -> AdapterManifestView {
    let requested = match name {
        Some(n) => if trim(n).len() > 0 {
            Some(trim(n))
        } else {
            None
        },
        None => None,
    };
    AdapterManifestView {
        schema_version: 1,
        id: "local.lora."@ + byte_prefix(sha256, 16)->Some_0,
        name: match requested {
            Some(n) => n,
            None => match stem {
                Some(s) => s,
                None => "Local LoRA"@,
            },
        },
        version: "0.0.0-local"@,
        format: "llama.cpp-lora-gguf"@,
        adapter_file: "adapter.gguf"@,
        adapter_sha256: sha256,
        base_model: normalized_optional(base_model, 256),
        architecture,
        content_rating,
        description: None,
        license: None,
        source: None,
        installed_at,
    }
}

/// The checked manifest of a raw GGUF import from `source`, whose copy
/// hashed to `sha256`.
pub fn raw_manifest(
    name: Option<&str>,
    source: &str,
    sha256: &str,
    base_model: Option<String>,
    architecture: Option<String>,
    content_rating: LoraContentRating,
    installed_at: String,
) -> (r: Result<AdapterManifest, String>)
    requires
        byte_prefix(sha256@, 16) is Some,
    ensures
        names_file(source@) ==> manifest_checked(
            raw_manifest_view(
                match name {
                    Some(n) => Some(n@),
                    None => None,
                },
                Some(crate::local_models::stem_of_name(path_file_name(source@))),
                sha256@,
                opt_view(base_model),
                opt_view(architecture),
                content_rating,
                installed_at@,
            ),
            Ok("adapter.gguf"@),
            r,
        ),
        exists|stem: Option<Seq<char>>|
            crate::local_models::file_stem_outcome(source@, stem) && manifest_checked(
                raw_manifest_view(
                    match name {
                        Some(n) => Some(n@),
                        None => None,
                    },
                    stem,
                    sha256@,
                    opt_view(base_model),
                    opt_view(architecture),
                    content_rating,
                    installed_at@,
                ),
                Ok("adapter.gguf"@),
                r,
            ),
{
    let stem = crate::local_models::file_stem_of(source);
    let requested = match name {
        Some(n) => {
            let t = crate::text::trim_chars(n);
            if t.len() > 0 {
                Some(crate::text::string_of(&t))
            } else {
                None
            }
        },
        None => None,
    };
    let chosen = match requested {
        Some(n) => n,
        None => match stem {
            Some(s) => s,
            None => crate::text::owned("Local LoRA"),
        },
    };
    let mut id = crate::text::owned("local.lora.");
    let prefix = str_byte_prefix(sha256, 16);
    crate::text::append(&mut id, prefix.as_str());
    let ghost bm = opt_view(base_model);
    let m = AdapterManifest {
        schema_version: 1,
        id,
        name: chosen,
        version: crate::text::owned("0.0.0-local"),
        format: crate::text::owned("llama.cpp-lora-gguf"),
        adapter_file: crate::text::owned("adapter.gguf"),
        adapter_sha256: crate::text::owned(sha256),
        base_model: normalize_optional(base_model, 256),
        architecture,
        content_rating,
        description: None,
        license: None,
        source: None,
        installed_at,
    };
    let ghost gm = m@;
    let r = validate_manifest(m);
    proof {
        reveal_strlit("adapter.gguf");
        reveal_strlit(".");
        reveal_strlit("..");
        let n = "adapter.gguf"@;
        assert(n != "."@ && n != ".."@);
        assert(replace_char(n, '\\', '/') =~= n);
        assert(single_segment(n));
        assert(n.skip(n.len() - 5) =~= ".gguf"@) by {
            reveal_strlit(".gguf");
        }
        let p = choose|p: Result<Seq<char>, Seq<char>>| package_path_outcome(gm.adapter_file, p) && manifest_checked(gm, p, r);
        assert(p == Ok::<Seq<char>, Seq<char>>(n));
    }
    r
}

/// Replacing an adapter's files is refused while that adapter is active.
pub fn check_not_active(active_id: Option<&str>, id: &str) -> (r: Result<(), String>)
    ensures
        (match active_id {
            Some(a) => trim(a@) == id@,
            None => false,
        }) ==> (r matches Err(e) && e@ == "deactivate the LoRA adapter before replacing its managed files"@),
        !(match active_id {
            Some(a) => trim(a@) == id@,
            None => false,
        }) ==> r is Ok,
{
    match active_id {
        Some(a) => {
            if crate::text::seq_eq(&crate::text::trim_chars(a), &crate::text::chars_of(id)) {
                return Err(crate::text::owned("deactivate the LoRA adapter before replacing its managed files"));
            }
            Ok(())
        },
        None => Ok(()),
    }
}

/// An installed adapter is only replaced when replacement was asked for.
pub fn check_replacement(installed: bool, replace_existing: bool, id: &str) -> (r: Result<(), String>)
    ensures
        installed && !replace_existing ==> (r matches Err(e) && e@ == "adapter '"@ + id@
            + "' is already installed; enable replaceExisting to replace it"@),
        !(installed && !replace_existing) ==> r is Ok,
{
    if installed && !replace_existing {
        let mut e = crate::text::owned("adapter '");
        crate::text::append(&mut e, id);
        crate::text::append(&mut e, "' is already installed; enable replaceExisting to replace it");
        Err(e)
    } else {
        Ok(())
    }
}

/// The refusal for an adapter that is not installed.
pub fn not_installed_message(id: &str) -> (r: String)
    ensures
        r@ == "LoRA adapter '"@ + id@ + "' is not installed"@,
{
    let mut e = crate::text::owned("LoRA adapter '");
    crate::text::append(&mut e, id);
    crate::text::append(&mut e, "' is not installed");
    e
}

/// An installed manifest must carry the id of its directory.
pub fn check_installed_id(manifest_id: &str, dir_id: &str) -> (r: Result<(), String>)
    ensures
        manifest_id@ == dir_id@ ==> r is Ok,
        manifest_id@ != dir_id@ ==> (r matches Err(e) && e@
            == "installed adapter directory id does not match manifest id"@),
{
    if crate::text::str_eq(manifest_id, dir_id) {
        Ok(())
    } else {
        Err(crate::text::owned("installed adapter directory id does not match manifest id"))
    }
}

/// An installed adapter's file must hash to its manifest's checksum.
pub fn check_installed_checksum(actual: &str, declared: &str, id: &str) -> (r: Result<(), String>)
    ensures
        actual@ == declared@ ==> r is Ok,
        actual@ != declared@ ==> (r matches Err(e) && e@ == "installed LoRA adapter '"@ + id@
            + "' failed checksum verification"@),
{
    if crate::text::str_eq(actual, declared) {
        Ok(())
    } else {
        let mut e = crate::text::owned("installed LoRA adapter '");
        crate::text::append(&mut e, id);
        crate::text::append(&mut e, "' failed checksum verification");
        Err(e)
    }
}

/// An installed adapter as the host lists it.
#[derive(Debug, PartialEq, Eq)]
pub struct LocalLoraAdapterDto {
    pub id: String,
    pub name: String,
    pub version: String,
    pub format: String,
    pub content_rating: LoraContentRating,
    pub file_name: String,
    pub size_bytes: u64,
    pub sha256: String,
    pub base_model: Option<String>,
    pub architecture: Option<String>,
    pub description: Option<String>,
    pub license: Option<String>,
    pub source: Option<String>,
    pub installed_at: String,
    pub active: bool,
}

/// The listing of an installed manifest whose GGUF file has `size_bytes`
/// bytes; active when `active_id` is its id.
pub fn manifest_to_dto(m: &AdapterManifest, size_bytes: u64, active_id: Option<&str>) -> (r: LocalLoraAdapterDto)
    ensures
        r.id == m.id,
        r.name == m.name,
        r.version == m.version,
        r.format == m.format,
        r.content_rating == m.content_rating,
        r.file_name@ == "adapter.gguf"@,
        r.size_bytes == size_bytes,
        r.sha256 == m.adapter_sha256,
        r.base_model == m.base_model,
        r.architecture == m.architecture,
        r.description == m.description,
        r.license == m.license,
        r.source == m.source,
        r.installed_at == m.installed_at,
        r.active == match active_id {
            Some(a) => a@ == m.id@,
            None => false,
        },
{
    let active = match active_id {
        Some(a) => crate::text::str_eq(a, m.id.as_str()),
        None => false,
    };
    LocalLoraAdapterDto {
        id: m.id.clone(),
        name: m.name.clone(),
        version: m.version.clone(),
        format: m.format.clone(),
        content_rating: m.content_rating,
        file_name: crate::text::owned("adapter.gguf"),
        size_bytes,
        sha256: m.adapter_sha256.clone(),
        base_model: crate::resource::model::copy_opt_string(&m.base_model),
        architecture: crate::resource::model::copy_opt_string(&m.architecture),
        description: crate::resource::model::copy_opt_string(&m.description),
        license: crate::resource::model::copy_opt_string(&m.license),
        source: crate::resource::model::copy_opt_string(&m.source),
        installed_at: m.installed_at.clone(),
        active,
    }
}

/// A directory entry named `name` is listed as an adapter when it is a
/// directory whose name does not start with `.`.
pub fn listed_directory(name: &str, is_dir: bool) -> (r: bool)
    ensures
        r == (is_dir && !starts_with(name@, "."@)),
{
    let cs = crate::text::chars_of(name);
    proof {
        reveal_strlit(".");
    }
    let hidden = crate::text::starts_with_vec(&cs, &crate::text::chars_of("."));
    is_dir && !hidden
}

/// An installed manifest's architecture must agree with its GGUF's
/// (ignoring ASCII case) when both are known.
pub fn check_installed_architecture(manifest: &Option<String>, gguf: &Option<String>) -> (r: Result<(), String>)
    ensures
        match (opt_view(*manifest), opt_view(*gguf)) {
            (Some(a), Some(b)) => !eq_ignore_ascii_case(a, b),
            _ => false,
        } ==> (r matches Err(e) && e@ == "installed adapter architecture metadata mismatch"@),
        !match (opt_view(*manifest), opt_view(*gguf)) {
            (Some(a), Some(b)) => !eq_ignore_ascii_case(a, b),
            _ => false,
        } ==> r is Ok,
{
    match (manifest, gguf) {
        (Some(a), Some(b)) => {
            if !crate::text::eq_ignore_case_vec(&crate::text::chars_of(a.as_str()), &crate::text::chars_of(b.as_str())) {
                return Err(crate::text::owned("installed adapter architecture metadata mismatch"));
            }
            Ok(())
        },
        _ => Ok(()),
    }
}

/// Listing order: by name ignoring ASCII case, then by id.
pub open spec fn listing_le(a: LocalLoraAdapterDto, b: LocalLoraAdapterDto) -> bool {
    let la = ascii_lower_seq(a.name@);
    let lb = ascii_lower_seq(b.name@);
    lex_le(la, lb) && (la == lb ==> lex_le(a.id@, b.id@))
}

proof fn lemma_listing_total(a: LocalLoraAdapterDto, b: LocalLoraAdapterDto)
    ensures
        listing_le(a, b) || listing_le(b, a),
{
    let la = ascii_lower_seq(a.name@);
    let lb = ascii_lower_seq(b.name@);
    lemma_lex_total(la, lb);
    lemma_lex_total(a.id@, b.id@);
}

proof fn lemma_listing_trans(a: LocalLoraAdapterDto, b: LocalLoraAdapterDto, c: LocalLoraAdapterDto)
    requires
        listing_le(a, b),
        listing_le(b, c),
    ensures
        listing_le(a, c),
{
    let la = ascii_lower_seq(a.name@);
    let lb = ascii_lower_seq(b.name@);
    let lc = ascii_lower_seq(c.name@);
    lemma_lex_trans(la, lb, lc);
    if la == lc {
        lemma_lex_antisym(la, lb);
        lemma_lex_trans(a.id@, b.id@, c.id@);
    }
}

fn listing_le_exec(a: &LocalLoraAdapterDto, b: &LocalLoraAdapterDto) -> (r: bool)
    ensures
        r == listing_le(*a, *b),
{
    let la = crate::text::ascii_lower_vec(&crate::text::chars_of(a.name.as_str()));
    let lb = crate::text::ascii_lower_vec(&crate::text::chars_of(b.name.as_str()));
    if crate::text::seq_eq(&la, &lb) {
        proof {
            lemma_lex_refl(la@);
        }
        crate::text::lex_le_exec(a.id.as_str(), b.id.as_str())
    } else {
        crate::text::lex_le_chars(&la, &lb)
    }
}

proof fn lemma_lex_refl(a: Seq<char>)
    ensures
        lex_le(a, a),
    decreases a.len(),
{
    if a.len() > 0 {
        lemma_lex_refl(a.drop_first());
    }
}

pub open spec fn listing_sorted(v: Seq<LocalLoraAdapterDto>) -> bool {
    forall|i: int, j: int| 0 <= i < j < v.len() ==> listing_le(v[i], v[j])
}

/// The adapters in listing order: by name ignoring ASCII case, then by id.
pub fn order_adapter_listing(v: Vec<LocalLoraAdapterDto>) -> (r: Vec<LocalLoraAdapterDto>)
    ensures
        listing_sorted(r@),
        r@.to_multiset() == v@.to_multiset(),
{
    broadcast use vstd::seq_lib::group_to_multiset_ensures;
    let mut input = v;
    let ghost orig = input@;
    let mut out: Vec<LocalLoraAdapterDto> = Vec::new();
    while input.len() > 0
        invariant
            listing_sorted(out@),
            out@.to_multiset().add(input@.to_multiset()) == orig.to_multiset(),
        decreases input.len(),
    {
        let ghost before_in = input@;
        let c = input.pop().unwrap();
        assert(before_in =~= input@.push(c));
        let ghost ov = out@;
        let mut k: usize = out.len();
        while k > 0 && !listing_le_exec(&out[k - 1], &c)
            invariant
                k <= out.len(),
                ov == out@,
                listing_sorted(ov),
                forall|j: int| k <= j < ov.len() ==> !listing_le(ov[j], c),
            decreases k,
        {
            k = k - 1;
        }
        proof {
            assert forall|j: int| k <= j < ov.len() implies listing_le(c, ov[j]) by {
                lemma_listing_total(ov[j], c);
            }
        }
        out.insert(k, c);
        let ghost nv = out@;
        proof {
            assert(nv =~= ov.insert(k as int, c));
            assert forall|i: int, j: int| 0 <= i < j < nv.len() implies listing_le(nv[i], nv[j]) by {
                if j < k {
                    assert(nv[i] == ov[i] && nv[j] == ov[j]);
                } else if j == k {
                    assert(nv[i] == ov[i]);
                    if i < k - 1 {
                        lemma_listing_trans(ov[i], ov[k - 1], c);
                    }
                } else if i == k {
                    assert(nv[j] == ov[j - 1]);
                } else if i < k {
                    assert(nv[i] == ov[i] && nv[j] == ov[j - 1]);
                } else {
                    assert(nv[i] == ov[i - 1] && nv[j] == ov[j - 1]);
                }
            }
            vstd::seq_lib::to_multiset_insert(ov, k as int, c);
            vstd::seq_lib::to_multiset_build(input@, c);
        }
    }
    out
}

#[derive(Clone, Copy, Debug, PartialEq, Eq, Structural)]
pub enum ImportSourceKind {
    Gguf,
    Package,
}

/// The kind of import a source file's extension asks for: `gguf` or
/// `ocadapter` (ignoring ASCII case); refused otherwise.
pub open spec fn source_kind(ext: Option<Seq<char>>) -> Result<ImportSourceKind, Seq<char>> {
    let e = match ext {
        Some(e) => e,
        None => Seq::empty(),
    };
    if eq_ignore_ascii_case(e, "gguf"@) {
        Ok(ImportSourceKind::Gguf)
    } else if eq_ignore_ascii_case(e, "ocadapter"@) {
        Ok(ImportSourceKind::Package)
    } else {
        Err("LoRA import accepts only llama.cpp adapter .gguf or .ocadapter files"@)
    }
}

pub fn source_kind_of_extension(ext: Option<&str>) -> (r: Result<ImportSourceKind, String>)
    ensures
        match r {
            Ok(k) => source_kind(
                match ext {
                    Some(e) => Some(e@),
                    None => None,
                },
            ) == Ok::<ImportSourceKind, Seq<char>>(k),
            Err(e) => source_kind(
                match ext {
                    Some(e) => Some(e@),
                    None => None,
                },
            ) == Err::<ImportSourceKind, Seq<char>>(e@),
        },
{
    let e = match ext {
        Some(e) => crate::text::chars_of(e),
        None => Vec::new(),
    };
    if crate::text::eq_ignore_case_vec(&e, &crate::text::chars_of("gguf")) {
        Ok(ImportSourceKind::Gguf)
    } else if crate::text::eq_ignore_case_vec(&e, &crate::text::chars_of("ocadapter")) {
        Ok(ImportSourceKind::Package)
    } else {
        Err(crate::text::owned("LoRA import accepts only llama.cpp adapter .gguf or .ocadapter files"))
    }
}

/// The kind of import the (trimmed) source path asks for, by its
/// extension as `std::path::Path::extension` reads it: for a plain path
/// whose last segment is clean, that segment's extension.
pub fn import_source_kind(source_path: &str) -> (r: Result<ImportSourceKind, String>)
    ensures
        exists|ext: Option<Seq<char>>|
            extension_outcome(trim(source_path@), ext) && match r {
                Ok(k) => source_kind(ext) == Ok::<ImportSourceKind, Seq<char>>(k),
                Err(e) => source_kind(ext) == Err::<ImportSourceKind, Seq<char>>(e@),
            },
        names_file(trim(source_path@)) ==> match r {
            Ok(k) => source_kind(name_extension(path_file_name(trim(source_path@)))) == Ok::<
                ImportSourceKind,
                Seq<char>,
            >(k),
            Err(e) => source_kind(name_extension(path_file_name(trim(source_path@)))) == Err::<
                ImportSourceKind,
                Seq<char>,
            >(e@),
        },
{
    let t = crate::text::trim_str(source_path);
    let ext = path_extension(t.as_str());
    let r = match &ext {
        Some(e) => source_kind_of_extension(Some(e.as_str())),
        None => source_kind_of_extension(None),
    };
    assert(extension_outcome(trim(source_path@), opt_view(ext)));
    r
}

proof fn lemma_lower_idempotent(s: Seq<char>)
    ensures
        ascii_lower_seq(ascii_lower_seq(s)) == ascii_lower_seq(s),
{
    assert(ascii_lower_seq(ascii_lower_seq(s)) =~= ascii_lower_seq(s));
}

/// A manifest that passed its check passes again unchanged: its text is
/// already trimmed and its checksum already lowercase, so re-reading an
/// installed manifest gives back what was written.
pub proof fn law_checked_manifest_is_stable(m: AdapterManifestView, file: Seq<char>)
    requires
        manifest_error(m, None) is None,
    ensures
        manifest_error(normalized_manifest(m, file), None) is None,
        normalized_manifest(normalized_manifest(m, file), file) == normalized_manifest(m, file),
{
    crate::text::lemma_trim_idempotent(m.id);
    crate::text::lemma_trim_idempotent(m.name);
    crate::text::lemma_trim_idempotent(m.version);
    crate::text::lemma_trim_idempotent(m.format);
    let sha = ascii_lower_seq(trim(m.adapter_sha256));
    assert(is_sha256_hex(sha));
    assert(!crate::text::is_ws(sha[0]) && !crate::text::is_ws(sha.last())) by {
        assert(is_hex_digit(sha[0]) && is_hex_digit(sha[63]));
    }
    crate::text::lemma_trim_fixed(sha);
    lemma_lower_idempotent(trim(m.adapter_sha256));
    let n = normalized_manifest(m, file);
    assert(normalized_manifest(n, file) =~= n) by {
        assert(normalized_manifest(n, file).adapter_sha256 == ascii_lower_seq(trim(sha)));
    }
}

} // verus!
