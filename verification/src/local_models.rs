//! Names and places of local model files.

use vstd::prelude::*;
use crate::resource::model::opt_view;
use crate::text::{contains, ends_with, starts_with, strip_trailing};
use crate::lora::{extension_dot, extension_outcome, is_sha256_hex, single_segment, LoraContentRating};
use crate::text::{ascii_lower_seq, eq_ignore_ascii_case, lex_le, trim};

verus! {

/// The stem of a one-component file name: the part before its last `.`
/// when something precedes that dot, else the whole name.
pub open spec fn stem_of_name(p: Seq<char>) -> Seq<char> {
    if exists|k: int| extension_dot(p, k) {
        p.take(choose|k: int| extension_dot(p, k))
    } else {
        p
    }
}

/// Every character of `path` is `/` (the empty path too): it has no file
/// name on any platform.
pub open spec fn all_slashes(path: Seq<char>) -> bool {
    forall|i: int| 0 <= i < path.len() ==> #[trigger] path[i] == '/'
}

/// What `std::path::Path::file_stem` may give for `path` on any platform:
/// for a nonempty single component other than `.` and `..`, its stem; for
/// a plain path whose last segment is clean, that segment's stem; for the
/// root or the empty path, none; for any path, a stem is a nonempty piece
/// of it.
pub open spec fn file_stem_outcome(path: Seq<char>, r: Option<Seq<char>>) -> bool {
    &&& (single_segment(path) && path.len() > 0 && path != "."@ && path != ".."@) ==> r == Some(stem_of_name(path))
    &&& names_file(path) ==> r == Some(stem_of_name(path_file_name(path)))
    &&& all_slashes(path) ==> r is None
    &&& r matches Some(s) ==> s.len() > 0 && contains(path, s)
}

/// Calls `std::path::Path::file_stem`. Trusted: the result is a stem
/// `file_stem_outcome` allows; the stem of a path made from a `str` is
/// valid UTF-8, so the conversion back to a string keeps it. Paths with
/// `\`, a drive prefix or a leading `//` are read differently by each
/// platform; their stem is left unsaid.
#[verifier::external_body]
pub(crate) fn file_stem_of(path: &str) -> (r: Option<String>)
    ensures
        file_stem_outcome(path@, opt_view(r)),
{
    std::path::Path::new(path).file_stem().and_then(|s| s.to_str()).map(|s| s.to_string())
}

/// A Windows verbatim path (`\\?\` in front), which `PathBuf::push`
/// rebuilds from its components.
pub open spec fn verbatim_prefix(base: Seq<char>) -> bool {
    starts_with(base, seq!['\\', '\\', '?', '\\'])
}

/// Calls `std::path::Path::join`. Trusted: joining a one-component
/// relative `segment` other than `.` and `..` to a base without a verbatim
/// prefix keeps `base` in front and ends with `segment`; when the base is
/// empty or already ends with `/` (a separator on every platform), no
/// separator is added and the result is the two texts one after the other.
/// Otherwise the separator added depends on the platform, and what a
/// verbatim base turns into is left unsaid.
#[verifier::external_body]
pub(crate) fn join_path(base: &str, segment: &str) -> (r: String)
    ensures
        !verbatim_prefix(base@) && clean_segment(segment@) ==> starts_with(r@, base@) && ends_with(r@, segment@),
        !verbatim_prefix(base@) && clean_segment(segment@) && (base@.len() == 0 || base@.last() == '/') ==> r@
            == base@ + segment@,
{
    std::path::Path::new(base).join(segment).to_string_lossy().into_owned()
}

/// A character a model name keeps: ASCII letters and digits, `-`, `_`, `.`.
pub open spec fn name_char(c: char) -> bool {
    ('a' <= c <= 'z') || ('A' <= c <= 'Z') || ('0' <= c <= '9') || c == '-' || c == '_' || c == '.'
}

/// `s` with every other character replaced by `_`.
pub open spec fn sanitized_name(s: Seq<char>) -> Seq<char> {
    s.map_values(|c: char| if name_char(c) { c } else { '_' })
}

/// The model name for a file stem (`local-model` when there is none):
/// every character other than ASCII letters, digits, `-`, `_` and `.`
/// replaced by `_`.
pub fn model_name_from_stem(stem: Option<&str>) -> (r: String)
    ensures
        r@ == sanitized_name(
            match stem {
                Some(s) => s@,
                None => "local-model"@,
            },
        ),
{
    let cs = match stem {
        Some(s) => crate::text::chars_of(s),
        None => crate::text::chars_of("local-model"),
    };
    let mut out: Vec<char> = Vec::new();
    let mut i: usize = 0;
    while i < cs.len()
        invariant
            i <= cs@.len(),
            out@ == sanitized_name(cs@.take(i as int)),
        decreases cs.len() - i,
    {
        let c = cs[i];
        let keep = ('a' <= c && c <= 'z') || ('A' <= c && c <= 'Z') || ('0' <= c && c <= '9') || c == '-' || c == '_'
            || c == '.';
        out.push(if keep { c } else { '_' });
        assert(out@ =~= sanitized_name(cs@.take(i + 1)));
        i = i + 1;
    }
    assert(cs@.take(i as int) =~= cs@);
    crate::text::string_of(&out)
}

/// The characters after the last `/` of `s`.
pub open spec fn last_segment(s: Seq<char>) -> Seq<char>
    decreases s.len(),
{
    if s.len() == 0 {
        s
    } else if s.last() == '/' {
        Seq::empty()
    } else {
        last_segment(s.drop_last()).push(s.last())
    }
}

proof fn lemma_last_segment(s: Seq<char>, i: int)
    requires
        0 <= i <= s.len(),
        forall|j: int| i <= j < s.len() ==> #[trigger] s[j] != '/',
        i == 0 || s[i - 1] == '/',
    ensures
        last_segment(s) == s.skip(i),
    decreases s.len() - i,
{
    if i == s.len() {
        assert(s.skip(i) =~= Seq::<char>::empty());
    } else {
        let t = s.drop_last();
        if i > 0 {
            assert(t[i - 1] == s[i - 1]);
        }
        assert forall|j: int| i <= j < t.len() implies #[trigger] t[j] != '/' by {
            assert(t[j] == s[j]);
        }
        lemma_last_segment(t, i);
        assert(t.skip(i).push(s.last()) =~= s.skip(i));
    }
}

fn last_segment_exec(path: &str) -> (r: Vec<char>)
    ensures
        r@ == last_segment(strip_trailing(path@, '/')),
{
    let trimmed = crate::text::strip_trailing_vec(&crate::text::chars_of(path), '/');
    let mut i: usize = trimmed.len();
    while i > 0 && trimmed[i - 1] != '/'
        invariant
            i <= trimmed@.len(),
            forall|j: int| i <= j < trimmed@.len() ==> #[trigger] trimmed@[j] != '/',
        decreases i,
    {
        i = i - 1;
    }
    proof {
        lemma_last_segment(trimmed@, i as int);
    }
    let seg_chars = crate::text::slice_vec(&trimmed, i, trimmed.len());
    assert(seg_chars@ =~= trimmed@.skip(i as int));
    seg_chars
}

fn is_clean_segment(v: &Vec<char>) -> (r: bool)
    ensures
        r == clean_segment(v@),
{
    proof {
        reveal_strlit(".");
        reveal_strlit("..");
    }
    let dot = crate::text::chars_of(".");
    let dotdot = crate::text::chars_of("..");
    if v.len() == 0 || crate::text::seq_eq(v, &dot) || crate::text::seq_eq(v, &dotdot) || (v.len() >= 2 && v[1] == ':') {
        return false;
    }
    let mut k: usize = 0;
    while k < v.len()
        invariant
            k <= v@.len(),
            forall|j: int| 0 <= j < k ==> #[trigger] v@[j] != '/' && v@[j] != '\\',
        decreases v.len() - k,
    {
        if v[k] == '/' || v[k] == '\\' {
            assert(!(v@[k as int] != '/' && v@[k as int] != '\\'));
            return false;
        }
        k = k + 1;
    }
    true
}

/// The model name a file stem gives (`local-model` when there is none).
pub open spec fn name_of_stem(stem: Option<Seq<char>>) -> Seq<char> {
    sanitized_name(
        match stem {
            Some(s) => s,
            None => "local-model"@,
        },
    )
}

/// A path that Unix and Windows split alike at `/`: no `\`, no drive
/// prefix (a second character `:`), and no leading `//`, so no prefix.
pub open spec fn plain_path(p: Seq<char>) -> bool {
    &&& forall|i: int| 0 <= i < p.len() ==> #[trigger] p[i] != '\\'
    &&& !(p.len() >= 2 && p[1] == ':')
    &&& !starts_with(p, "//"@)
}

/// The last `/`-segment of a path once its trailing `/` are dropped.
pub open spec fn path_file_name(p: Seq<char>) -> Seq<char> {
    last_segment(strip_trailing(p, '/'))
}

/// `p` is a plain path whose last segment is clean: that segment is its
/// file name on every platform.
pub open spec fn names_file(p: Seq<char>) -> bool {
    plain_path(p) && clean_segment(path_file_name(p))
}

/// The extension of a one-component name: what follows its last `.` when
/// something precedes that dot.
pub open spec fn name_extension(name: Seq<char>) -> Option<Seq<char>> {
    if exists|k: int| extension_dot(name, k) {
        Some(name.skip((choose|k: int| extension_dot(name, k)) + 1))
    } else {
        None
    }
}

/// The last dot of a name is unique.
pub proof fn lemma_extension_dot_unique(name: Seq<char>, a: int, b: int)
    requires
        extension_dot(name, a),
        extension_dot(name, b),
    ensures
        a == b,
{
    if a < b {
        assert(name[b] == '.');
    }
    if b < a {
        assert(name[a] == '.');
    }
}

/// A clean last segment: one component other than `.` and `..`.
pub open spec fn clean_segment(seg: Seq<char>) -> bool {
    single_segment(seg) && seg.len() > 0 && seg != "."@ && seg != ".."@
}

/// The model name of a GGUF file: the name of its file stem. When the path
/// (without trailing `/`) ends in a clean segment, that segment's stem is
/// used; the root or the empty path gives `local-model`.
#[verifier::spinoff_prover]
#[verifier::rlimit(60)]
pub fn model_name_from_gguf_path(path: &str) -> (r: String)
    ensures
        clean_segment(last_segment(strip_trailing(path@, '/'))) ==> r@ == sanitized_name(
            stem_of_name(last_segment(strip_trailing(path@, '/'))),
        ),
        all_slashes(path@) ==> r@ == sanitized_name("local-model"@),
        exists|stem: Option<Seq<char>>|
            #![trigger name_of_stem(stem)]
            (file_stem_outcome(path@, stem) || file_stem_outcome(last_segment(strip_trailing(path@, '/')), stem))
                && r@ == name_of_stem(stem),
{
    let seg_chars = last_segment_exec(path);
    let ghost seg = seg_chars@;
    let clean = is_clean_segment(&seg_chars);
    let stem = if clean {
        let seg_string = crate::text::string_of(&seg_chars);
        let st = file_stem_of(seg_string.as_str());
        assert(file_stem_outcome(seg, opt_view(st)));
        st
    } else {
        file_stem_of(path)
    };
    let r = match &stem {
        Some(s) => model_name_from_stem(Some(s.as_str())),
        None => model_name_from_stem(None),
    };
    proof {
        if all_slashes(path@) {
            if !clean {
                assert(file_stem_outcome(path@, opt_view(stem)));
            } else {
                assert(strip_trailing(path@, '/').len() == 0) by {
                    lemma_all_slashes_strip(path@);
                }
            }
        }
    }
    let ghost st = opt_view(stem);
    assert(r@ == sanitized_name(
        match st {
            Some(x) => x,
            None => "local-model"@,
        },
    ));
    assert(file_stem_outcome(path@, st) || file_stem_outcome(seg, st));
    assert(r@ == name_of_stem(st));
    r
}

proof fn lemma_all_slashes_strip(s: Seq<char>)
    requires
        all_slashes(s),
    ensures
        strip_trailing(s, '/').len() == 0,
    decreases s.len(),
{
    if s.len() > 0 {
        assert(s.last() == s[s.len() - 1]);
        assert forall|i: int| 0 <= i < s.drop_last().len() implies #[trigger] s.drop_last()[i] == '/' by {
            assert(s.drop_last()[i] == s[i]);
        }
        lemma_all_slashes_strip(s.drop_last());
    }
}

/// Where managed LoRA adapters live: `adapters` under the models directory
/// (for a Windows verbatim directory, the platform's rebuilt form of it).
pub fn adapters_root(models_dir: &str) -> (r: String)
    ensures
        !verbatim_prefix(models_dir@) ==> starts_with(r@, models_dir@) && ends_with(r@, "adapters"@),
{
    proof {
        reveal_strlit("adapters");
        reveal_strlit(".");
        reveal_strlit("..");
        assert("adapters"@.len() == 8 && "."@.len() == 1 && ".."@.len() == 2);
        assert("adapters"@ != "."@ && "adapters"@ != ".."@);
    }
    join_path(models_dir, "adapters")
}

/// What `std::path::Path::file_name` may give for `path` on any platform:
/// a nonempty single component other than `.` and `..` is its own file
/// name, and so is the clean last segment of a plain path; any file name
/// is a nonempty piece of the path.
pub open spec fn file_name_outcome(path: Seq<char>, r: Option<Seq<char>>) -> bool {
    &&& (single_segment(path) && path.len() > 0 && path != "."@ && path != ".."@) ==> r == Some(path)
    &&& names_file(path) ==> r == Some(path_file_name(path))
    &&& r matches Some(s) ==> s.len() > 0 && contains(path, s)
}

/// Calls `std::path::Path::file_name`. Trusted: the result is one
/// `file_name_outcome` allows; a name taken from a `str` is valid UTF-8.
/// Paths with `\`, a drive prefix or a leading `//` are read differently
/// by each platform; their file name is left unsaid.
#[verifier::external_body]
pub(crate) fn file_name_of(path: &str) -> (r: Option<String>)
    ensures
        file_name_outcome(path@, opt_view(r)),
{
    std::path::Path::new(path).file_name().and_then(|s| s.to_str()).map(|s| s.to_string())
}

/// A model file by extension: `gguf` or `bin`, ignoring ASCII case.
pub open spec fn model_extension(ext: Option<Seq<char>>) -> bool {
    match ext {
        Some(e) => eq_ignore_ascii_case(e, "gguf"@) || eq_ignore_ascii_case(e, "bin"@),
        None => false,
    }
}

/// Whether `path` names a model file, by its extension as
/// `std::path::Path::extension` reads it: for a plain path whose last
/// segment is clean, that segment's extension.
pub fn is_model_file(path: &str) -> (r: bool)
    ensures
        exists|ext: Option<Seq<char>>| extension_outcome(path@, ext) && r == model_extension(ext),
        names_file(path@) ==> r == model_extension(name_extension(path_file_name(path@))),
{
    let ext = crate::lora::path_extension(path);
    let r = match &ext {
        Some(e) => {
            let cs = crate::text::chars_of(e.as_str());
            crate::text::eq_ignore_case_vec(&cs, &crate::text::chars_of("gguf")) || crate::text::eq_ignore_case_vec(
                &cs,
                &crate::text::chars_of("bin"),
            )
        },
        None => false,
    };
    assert(extension_outcome(path@, opt_view(ext)) && r == model_extension(opt_view(ext)));
    r
}

/// A reserved child directory: `adapters` or `downloads`, ignoring ASCII
/// case.
pub open spec fn reserved_name(name: Option<Seq<char>>) -> bool {
    match name {
        Some(n) => eq_ignore_ascii_case(n, "adapters"@) || eq_ignore_ascii_case(n, "downloads"@),
        None => false,
    }
}

/// Whether the directory `path` is one the model scan never enters, by its
/// file name as `std::path::Path::file_name` reads it: for a plain path
/// whose last segment is clean, that segment.
pub fn is_reserved_model_subdirectory(path: &str) -> (r: bool)
    ensures
        exists|name: Option<Seq<char>>| file_name_outcome(path@, name) && r == reserved_name(name),
        names_file(path@) ==> r == reserved_name(Some(path_file_name(path@))),
{
    let name = file_name_of(path);
    let r = match &name {
        Some(n) => {
            let cs = crate::text::chars_of(n.as_str());
            crate::text::eq_ignore_case_vec(&cs, &crate::text::chars_of("adapters"))
                || crate::text::eq_ignore_case_vec(&cs, &crate::text::chars_of("downloads"))
        },
        None => false,
    };
    assert(file_name_outcome(path@, opt_view(name)) && r == reserved_name(opt_view(name)));
    r
}

/// A model's sidecar manifest.
pub struct LocalModelManifest {
    pub schema_version: u32,
    pub kind: String,
    pub file_name: String,
    pub name: String,
    pub content_rating: LoraContentRating,
    pub description: Option<String>,
    pub license: Option<String>,
    pub source: Option<String>,
    pub sha256: Option<String>,
}

/// The first problem of a sidecar manifest at `at` for the model file
/// named `actual_file_name`, given the schema version and kind the host
/// expects.
pub open spec fn model_manifest_error(
    at: Seq<char>,
    m: LocalModelManifest,
    actual_file_name: Seq<char>,
    schema_version: u32,
    kind: Seq<char>,
) -> Option<Seq<char>> {
    if m.schema_version != schema_version {
        Some(at + " uses unsupported schemaVersion "@ + crate::text::decimal(m.schema_version as nat))
    } else if m.kind@ != kind {
        Some(at + " has unsupported kind '"@ + m.kind@ + "'"@)
    } else if !eq_ignore_ascii_case(m.file_name@, actual_file_name) {
        Some(at + " targets '"@ + m.file_name@ + "' instead of '"@ + actual_file_name + "'"@)
    } else if trim(m.name@).len() == 0 {
        Some(at + " has an empty name"@)
    } else if (match opt_view(m.sha256) {
        Some(h) => !is_sha256_hex(h),
        None => false,
    }) {
        Some(at + " has an invalid sha256"@)
    } else {
        None
    }
}

fn all_hex_chars(v: &Vec<char>) -> (r: bool)
    ensures
        r == (v@.len() == 64 && forall|i: int| 0 <= i < v@.len() ==> crate::lora::is_hex_digit(#[trigger] v@[i])),
{
    if v.len() != 64 {
        return false;
    }
    let mut i: usize = 0;
    while i < v.len()
        invariant
            i <= v@.len(),
            forall|j: int| 0 <= j < i ==> crate::lora::is_hex_digit(#[trigger] v@[j]),
        decreases v.len() - i,
    {
        let c = v[i];
        if !(('0' <= c && c <= '9') || ('a' <= c && c <= 'f') || ('A' <= c && c <= 'F')) {
            return false;
        }
        i = i + 1;
    }
    true
}

fn prefixed(at: &str, rest: &str) -> (r: String)
    ensures
        r@ == at@ + rest@,
{
    let mut s = crate::text::owned(at);
    crate::text::append(&mut s, rest);
    s
}

/// Checks a sidecar manifest found at `at` (its display path) for the
/// model file named `actual_file_name`.
pub fn check_local_model_manifest(
    at: &str,
    m: &LocalModelManifest,
    actual_file_name: &str,
    schema_version: u32,
    kind: &str,
) -> (r: Result<(), String>)
    ensures
        match model_manifest_error(at@, *m, actual_file_name@, schema_version, kind@) {
            Some(e) => r matches Err(x) && x@ == e,
            None => r is Ok,
        },
{
    if m.schema_version != schema_version {
        let mut e = prefixed(at, " uses unsupported schemaVersion ");
        crate::text::append_chars(&mut e, &crate::text::decimal_string(m.schema_version as u64));
        return Err(e);
    }
    if !crate::text::str_eq(m.kind.as_str(), kind) {
        let mut e = prefixed(at, " has unsupported kind '");
        crate::text::append(&mut e, m.kind.as_str());
        crate::text::append(&mut e, "'");
        return Err(e);
    }
    if !crate::text::eq_ignore_case_vec(
        &crate::text::chars_of(m.file_name.as_str()),
        &crate::text::chars_of(actual_file_name),
    ) {
        let mut e = prefixed(at, " targets '");
        crate::text::append(&mut e, m.file_name.as_str());
        crate::text::append(&mut e, "' instead of '");
        crate::text::append(&mut e, actual_file_name);
        crate::text::append(&mut e, "'");
        return Err(e);
    }
    if crate::text::trim_chars(m.name.as_str()).len() == 0 {
        return Err(prefixed(at, " has an empty name"));
    }
    match &m.sha256 {
        Some(h) => {
            if !all_hex_chars(&crate::text::chars_of(h.as_str())) {
                return Err(prefixed(at, " has an invalid sha256"));
            }
        },
        None => {},
    }
    Ok(())
}

/// A local model as the host lists it.
#[derive(Debug, PartialEq, Eq)]
pub struct LocalModelFileDto {
    pub name: String,
    pub path: String,
    pub size_bytes: u64,
    pub content_rating: LoraContentRating,
    pub description: Option<String>,
    pub license: Option<String>,
    pub source: Option<String>,
    pub sha256: Option<String>,
}

/// The listing of the model file at `path` of `size_bytes` bytes: its
/// manifest's name and details when it has one, else its file name (or
/// `model`) with a general rating.
pub fn local_model_descriptor(
    path: &str,
    size_bytes: u64,
    manifest: Option<LocalModelManifest>,
) -> (r: LocalModelFileDto)
    ensures
        r.path@ == path@,
        r.size_bytes == size_bytes,
        match manifest {
            Some(m) => r.name == m.name && r.content_rating == m.content_rating && r.description == m.description
                && r.license == m.license && r.source == m.source && r.sha256 == m.sha256,
            None => (exists|n: Option<Seq<char>>|
                file_name_outcome(path@, n) && r.name@ == match n {
                    Some(f) => f,
                    None => "model"@,
                }) && r.content_rating == LoraContentRating::General && r.description is None && r.license is None
                && r.source is None && r.sha256 is None,
        },
{
    match manifest {
        Some(m) => LocalModelFileDto {
            name: m.name,
            path: crate::text::owned(path),
            size_bytes,
            content_rating: m.content_rating,
            description: m.description,
            license: m.license,
            source: m.source,
            sha256: m.sha256,
        },
        None => {
            let file_name = file_name_of(path);
            let ghost n = opt_view(file_name);
            let name = match file_name {
                Some(f) => f,
                None => crate::text::owned("model"),
            };
            assert(file_name_outcome(path@, n));
            LocalModelFileDto {
                name,
                path: crate::text::owned(path),
                size_bytes,
                content_rating: LoraContentRating::General,
                description: None,
                license: None,
                source: None,
                sha256: None,
            }
        },
    }
}

/// A declared model checksum must match the file's, ignoring ASCII case.
pub fn check_model_checksum(path: &str, expected: &str, actual: &str) -> (r: Result<(), String>)
    ensures
        eq_ignore_ascii_case(actual@, expected@) ==> r is Ok,
        !eq_ignore_ascii_case(actual@, expected@) ==> (r matches Err(e) && e@ == "local base model SHA-256 mismatch for '"@
            + path@ + "': expected "@ + expected@ + ", got "@ + actual@),
{
    if crate::text::eq_ignore_case_vec(&crate::text::chars_of(actual), &crate::text::chars_of(expected)) {
        return Ok(());
    }
    let mut e = crate::text::owned("local base model SHA-256 mismatch for '");
    crate::text::append(&mut e, path);
    crate::text::append(&mut e, "': expected ");
    crate::text::append(&mut e, expected);
    crate::text::append(&mut e, ", got ");
    crate::text::append(&mut e, actual);
    Err(e)
}

/// `s` in lowercase as `str::to_lowercase` gives it (Unicode case
/// mapping).
pub uninterp spec fn unicode_lower(s: Seq<char>) -> Seq<char>;

/// Calls `str::to_lowercase`. Trusted: the result is `s` in Unicode
/// lowercase, which for ASCII text lowers `A`-`Z` and keeps every other
/// character.
#[verifier::external_body]
pub(crate) fn to_lowercase(s: &str) -> (r: String)
    ensures
        r@ == unicode_lower(s@),
        (forall|i: int| 0 <= i < s@.len() ==> (#[trigger] s@[i] as u32) < 128) ==> r@
            == crate::text::ascii_lower_seq(s@),
{
    s.to_lowercase()
}

/// Listing order of local models: by lowercase name, then lowercase path.
pub open spec fn model_key_le(a: LocalModelFileDto, b: LocalModelFileDto) -> bool {
    let na = unicode_lower(a.name@);
    let nb = unicode_lower(b.name@);
    lex_le(na, nb) && (na == nb ==> lex_le(unicode_lower(a.path@), unicode_lower(b.path@)))
}

/// `x` inserted into `s` after the trailing elements it does not precede:
/// one step of a stable insertion sort.
pub open spec fn insert_stable(s: Seq<LocalModelFileDto>, x: LocalModelFileDto) -> Seq<LocalModelFileDto>
    decreases s.len(),
{
    if s.len() == 0 {
        seq![x]
    } else if model_key_le(s.last(), x) {
        s.push(x)
    } else {
        insert_stable(s.drop_last(), x).push(s.last())
    }
}

/// `s` sorted stably by `model_key_le`, as `slice::sort_by` orders it.
pub open spec fn stable_model_sort(s: Seq<LocalModelFileDto>) -> Seq<LocalModelFileDto>
    decreases s.len(),
{
    if s.len() == 0 {
        Seq::empty()
    } else {
        insert_stable(stable_model_sort(s.drop_last()), s.last())
    }
}

/// `s` without each element whose path equals the previously kept one's,
/// ignoring ASCII case, as `Vec::dedup_by` removes them.
pub open spec fn dedup_model_paths(s: Seq<LocalModelFileDto>) -> Seq<LocalModelFileDto>
    decreases s.len(),
{
    if s.len() == 0 {
        Seq::empty()
    } else {
        let kept = dedup_model_paths(s.drop_last());
        if kept.len() > 0 && eq_ignore_ascii_case(s.last().path@, kept.last().path@) {
            kept
        } else {
            kept.push(s.last())
        }
    }
}

proof fn lemma_insert_stable_at(s: Seq<LocalModelFileDto>, x: LocalModelFileDto, k: int)
    requires
        0 <= k <= s.len(),
        forall|j: int| k <= j < s.len() ==> !model_key_le(#[trigger] s[j], x),
        k == 0 || model_key_le(s[k - 1], x),
    ensures
        insert_stable(s, x) == s.take(k).push(x) + s.skip(k),
    decreases s.len(),
{
    if s.len() == 0 {
        assert(s.take(k).push(x) + s.skip(k) =~= seq![x]);
    } else if k == s.len() {
        assert(s.take(k).push(x) + s.skip(k) =~= s.push(x));
    } else {
        assert(!model_key_le(s[s.len() - 1], x));
        let t = s.drop_last();
        assert forall|j: int| k <= j < t.len() implies !model_key_le(#[trigger] t[j], x) by {
            assert(t[j] == s[j]);
        }
        if k > 0 {
            assert(t[k - 1] == s[k - 1]);
        }
        lemma_insert_stable_at(t, x, k);
        assert(t.take(k).push(x) + t.skip(k) + seq![s.last()] =~= s.take(k).push(x) + s.skip(k));
        assert(insert_stable(t, x).push(s.last()) =~= t.take(k).push(x) + t.skip(k) + seq![s.last()]);
    }
}

fn model_key_le_exec(a: &LocalModelFileDto, b: &LocalModelFileDto) -> (r: bool)
    ensures
        r == model_key_le(*a, *b),
{
    let na = to_lowercase(a.name.as_str());
    let nb = to_lowercase(b.name.as_str());
    if crate::text::str_eq(na.as_str(), nb.as_str()) {
        let pa = to_lowercase(a.path.as_str());
        let pb = to_lowercase(b.path.as_str());
        proof {
            lemma_lex_refl(na@);
        }
        crate::text::lex_le_exec(pa.as_str(), pb.as_str())
    } else {
        crate::text::lex_le_exec(na.as_str(), nb.as_str())
    }
}

proof fn lemma_lex_refl(a: Seq<char>)
    ensures
        lex_le(a, a),
    decreases a.len(),
{
    if a.len() > 0 {
        lemma_lex_refl(a.drop_first());
    }
}

/// The scanned models in listing order, stably sorted by lowercase name
/// and path, without paths that repeat the previous one (ignoring ASCII
/// case).
pub fn order_model_listing(v: Vec<LocalModelFileDto>) -> (r: Vec<LocalModelFileDto>)
    ensures
        r@ == dedup_model_paths(stable_model_sort(v@)),
{
    let ghost orig = v@;
    let mut sorted: Vec<LocalModelFileDto> = Vec::new();
    let mut rest = v;
    let total: usize = rest.len();
    assert(orig.len() == total);
    assert(rest@ =~= orig.skip(0));
    let mut i: usize = 0;
    while rest.len() > 0
        invariant
            rest@.len() + i == orig.len(),
            orig.len() <= usize::MAX,
            rest@ == orig.skip(i as int),
            sorted@ == stable_model_sort(orig.take(i as int)),
        decreases rest.len(),
    {
        let x = rest.remove(0);
        proof {
            assert(x == orig[i as int]);
            assert(orig.take(i + 1).drop_last() =~= orig.take(i as int));
            assert(rest@ =~= orig.skip(i + 1));
        }
        let mut k: usize = sorted.len();
        while k > 0 && !model_key_le_exec(&sorted[k - 1], &x)
            invariant
                k <= sorted@.len(),
                forall|j: int| k <= j < sorted@.len() ==> !model_key_le(#[trigger] sorted@[j], x),
            decreases k,
        {
            k = k - 1;
        }
        proof {
            lemma_insert_stable_at(sorted@, x, k as int);
        }
        let ghost before = sorted@;
        sorted.insert(k, x);
        assert(sorted@ =~= before.take(k as int).push(x) + before.skip(k as int));
        i = i + 1;
    }
    assert(orig.take(i as int) =~= orig);
    let ghost s = sorted@;
    let mut out: Vec<LocalModelFileDto> = Vec::new();
    let mut src = sorted;
    let count: usize = src.len();
    assert(s.len() == count);
    assert(src@ =~= s.skip(0));
    let mut j: usize = 0;
    while src.len() > 0
        invariant
            src@.len() + j == s.len(),
            s.len() <= usize::MAX,
            src@ == s.skip(j as int),
            out@ == dedup_model_paths(s.take(j as int)),
        decreases src.len(),
    {
        let x = src.remove(0);
        proof {
            assert(x == s[j as int]);
            assert(s.take(j + 1).drop_last() =~= s.take(j as int));
            assert(src@ =~= s.skip(j + 1));
        }
        let dup = out.len() > 0 && crate::text::eq_ignore_case_vec(
            &crate::text::chars_of(x.path.as_str()),
            &crate::text::chars_of(out[out.len() - 1].path.as_str()),
        );
        if !dup {
            out.push(x);
        }
        j = j + 1;
    }
    assert(s.take(j as int) =~= s);
    out
}

/// No entry's path repeats the one before it, ignoring ASCII case.
pub open spec fn no_repeated_paths(d: Seq<LocalModelFileDto>) -> bool {
    forall|i: int, j: int|
        #![trigger d[i], d[j]]
        0 <= i && j == i + 1 && j < d.len() ==> !eq_ignore_ascii_case(d[i].path@, d[j].path@)
}

pub open spec fn models_sorted(s: Seq<LocalModelFileDto>) -> bool {
    forall|i: int, j: int| 0 <= i < j < s.len() ==> model_key_le(#[trigger] s[i], #[trigger] s[j])
}

proof fn lemma_model_total(a: LocalModelFileDto, b: LocalModelFileDto)
    ensures
        model_key_le(a, b) || model_key_le(b, a),
{
    crate::text::lemma_lex_total(unicode_lower(a.name@), unicode_lower(b.name@));
    crate::text::lemma_lex_total(unicode_lower(a.path@), unicode_lower(b.path@));
}

proof fn lemma_model_trans(a: LocalModelFileDto, b: LocalModelFileDto, c: LocalModelFileDto)
    requires
        model_key_le(a, b),
        model_key_le(b, c),
    ensures
        model_key_le(a, c),
{
    let (na, nb, nc) = (unicode_lower(a.name@), unicode_lower(b.name@), unicode_lower(c.name@));
    crate::text::lemma_lex_trans(na, nb, nc);
    if na == nc {
        crate::text::lemma_lex_antisym(na, nb);
        crate::text::lemma_lex_trans(unicode_lower(a.path@), unicode_lower(b.path@), unicode_lower(c.path@));
    }
}

proof fn lemma_insert_stable_members(s: Seq<LocalModelFileDto>, x: LocalModelFileDto)
    ensures
        insert_stable(s, x).len() == s.len() + 1,
        forall|i: int|
            0 <= i < insert_stable(s, x).len() ==> #[trigger] insert_stable(s, x)[i] == x || s.contains(
                insert_stable(s, x)[i],
            ),
    decreases s.len(),
{
    if s.len() > 0 && !model_key_le(s.last(), x) {
        let t = s.drop_last();
        lemma_insert_stable_members(t, x);
        assert forall|i: int| 0 <= i < insert_stable(s, x).len() implies #[trigger] insert_stable(s, x)[i] == x
            || s.contains(insert_stable(s, x)[i]) by {
            if i < t.len() + 1 {
                let e = insert_stable(t, x)[i];
                if e != x {
                    let k = choose|k: int| 0 <= k < t.len() && t[k] == e;
                    assert(s[k] == e);
                }
            } else {
                assert(s[s.len() - 1] == s.last());
            }
        }
    } else if s.len() > 0 {
        assert forall|i: int| 0 <= i < insert_stable(s, x).len() implies #[trigger] insert_stable(s, x)[i] == x
            || s.contains(insert_stable(s, x)[i]) by {
            if i < s.len() {
                assert(s[i] == insert_stable(s, x)[i]);
            }
        }
    }
}

proof fn lemma_insert_stable_sorted(s: Seq<LocalModelFileDto>, x: LocalModelFileDto)
    requires
        models_sorted(s),
    ensures
        models_sorted(insert_stable(s, x)),
    decreases s.len(),
{
    if s.len() == 0 {
    } else if model_key_le(s.last(), x) {
        let r = s.push(x);
        assert forall|i: int, j: int| 0 <= i < j < r.len() implies model_key_le(#[trigger] r[i], #[trigger] r[j]) by {
            if j == s.len() {
                if i < s.len() - 1 {
                    lemma_model_trans(s[i], s.last(), x);
                }
            } else {
                assert(r[i] == s[i] && r[j] == s[j]);
            }
        }
    } else {
        let t = s.drop_last();
        assert(models_sorted(t)) by {
            assert forall|i: int, j: int| 0 <= i < j < t.len() implies model_key_le(#[trigger] t[i], #[trigger] t[j]) by {
                assert(t[i] == s[i] && t[j] == s[j]);
            }
        }
        lemma_insert_stable_sorted(t, x);
        lemma_insert_stable_members(t, x);
        lemma_model_total(s.last(), x);
        let u = insert_stable(t, x);
        let r = u.push(s.last());
        assert forall|i: int, j: int| 0 <= i < j < r.len() implies model_key_le(#[trigger] r[i], #[trigger] r[j]) by {
            if j == u.len() {
                assert(r[i] == u[i]);
                if u[i] != x {
                    let k = choose|k: int| 0 <= k < t.len() && t[k] == u[i];
                    assert(s[k] == t[k]);
                    assert(s[s.len() - 1] == s.last());
                }
            } else {
                assert(r[i] == u[i] && r[j] == u[j]);
            }
        }
    }
}

proof fn lemma_stable_sort_sorted(s: Seq<LocalModelFileDto>)
    ensures
        models_sorted(stable_model_sort(s)),
        stable_model_sort(s).len() == s.len(),
    decreases s.len(),
{
    if s.len() > 0 {
        lemma_stable_sort_sorted(s.drop_last());
        lemma_insert_stable_sorted(stable_model_sort(s.drop_last()), s.last());
        lemma_insert_stable_members(stable_model_sort(s.drop_last()), s.last());
    }
}

proof fn lemma_dedup_members(s: Seq<LocalModelFileDto>)
    ensures
        dedup_model_paths(s).len() <= s.len(),
        forall|i: int| 0 <= i < dedup_model_paths(s).len() ==> s.contains(#[trigger] dedup_model_paths(s)[i]),
    decreases s.len(),
{
    if s.len() > 0 {
        let t = s.drop_last();
        lemma_dedup_members(t);
        let d = dedup_model_paths(s);
        assert forall|i: int| 0 <= i < d.len() implies s.contains(#[trigger] d[i]) by {
            if i < dedup_model_paths(t).len() {
                assert(d[i] == dedup_model_paths(t)[i]);
                let k = choose|k: int| 0 <= k < t.len() && t[k] == d[i];
                assert(s[k] == t[k]);
            } else {
                assert(s[s.len() - 1] == d[i]);
            }
        }
    }
}

#[verifier::spinoff_prover]
#[verifier::rlimit(50)]
proof fn lemma_dedup_sorted(s: Seq<LocalModelFileDto>)
    requires
        models_sorted(s),
    ensures
        models_sorted(dedup_model_paths(s)),
        no_repeated_paths(dedup_model_paths(s)),
    decreases s.len(),
{
    if s.len() > 0 {
        let t = s.drop_last();
        assert(models_sorted(t)) by {
            assert forall|i: int, j: int| 0 <= i < j < t.len() implies model_key_le(#[trigger] t[i], #[trigger] t[j]) by {
                assert(t[i] == s[i] && t[j] == s[j]);
            }
        }
        lemma_dedup_sorted(t);
        lemma_dedup_members(t);
        let kept = dedup_model_paths(t);
        let d = dedup_model_paths(s);
        if !(kept.len() > 0 && eq_ignore_ascii_case(s.last().path@, kept.last().path@)) {
            assert(d == kept.push(s.last()));
            assert forall|i: int, j: int| 0 <= i < j < d.len() implies model_key_le(#[trigger] d[i], #[trigger] d[j]) by {
                if j == kept.len() {
                    assert(d[i] == kept[i]);
                    let k = choose|k: int| 0 <= k < t.len() && t[k] == kept[i];
                    assert(s[k] == t[k]);
                    assert(s[s.len() - 1] == s.last());
                } else {
                    assert(d[i] == kept[i] && d[j] == kept[j]);
                }
            }
            assert forall|i: int, j: int| 0 <= i && j == i + 1 && j < d.len() implies !eq_ignore_ascii_case(
                #[trigger] d[i].path@,
                #[trigger] d[j].path@,
            ) by {
                if j == kept.len() {
                    assert(d[i] == kept.last());
                    assert(ascii_lower_seq(s.last().path@) != ascii_lower_seq(kept.last().path@));
                } else {
                    assert(d[i] == kept[i] && d[j] == kept[j]);
                }
            }
        }
    }
}

/// The model listing is ordered by lowercase name, then lowercase path,
/// and no entry's path repeats the one before it (ignoring ASCII case).
#[verifier::spinoff_prover]
pub proof fn law_model_listing_ordered(v: Seq<LocalModelFileDto>)
    ensures
        models_sorted(dedup_model_paths(stable_model_sort(v))),
        no_repeated_paths(dedup_model_paths(stable_model_sort(v))),
{
    let s = stable_model_sort(v);
    lemma_stable_sort_sorted(v);
    lemma_dedup_sorted(s);
}

} // verus!
