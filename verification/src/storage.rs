//! Chat storage rows and the pure helpers of the SQLite store: scene ids,
//! limits, GLOB patterns and snippets.

use vstd::prelude::*;
use crate::text::{take_at_most, trim};

verus! {

#[derive(Debug)]
pub struct SessionRow {
    pub session_id: String,
    pub role_id: String,
    pub scene_id: String,
    pub created_at: String,
    pub updated_at: String,
    pub message_count: i64,
}

#[derive(Debug)]
pub struct MessageRow {
    pub id: String,
    pub session_id: String,
    pub turn_index: i32,
    pub sender: String,
    pub content: String,
    pub metadata: Option<String>,
    pub created_at: String,
}

/// A stored chat message as the store returns it.
#[derive(Debug)]
pub struct StoredMessage {
    pub id: String,
    pub session_id: String,
    pub turn_index: i32,
    pub sender: String,
    pub content: String,
    pub metadata: Option<String>,
    pub created_at: String,
}

#[derive(Debug)]
pub struct InsertTurnResult {
    pub message_count: i64,
    pub turn_index: i32,
}

#[derive(Debug)]
pub struct NewTurnMessages {
    pub user_id: String,
    pub assistant_id: String,
    pub user_content: String,
    pub assistant_content: String,
    pub user_metadata: Option<String>,
    pub assistant_metadata: Option<String>,
    pub user_created_at: String,
    pub assistant_created_at: String,
}

#[derive(Debug)]
pub struct ChatSearchRow {
    pub id: String,
    pub session_id: String,
    pub turn_index: i32,
    pub sender: String,
    pub content: String,
    pub metadata: Option<String>,
    pub created_at: String,
    pub role_id: String,
    pub scene_id: String,
}

/// A session row from the columns of one result row, in select order.
pub fn session_row_from_tuple(t: (String, String, String, String, String, i64)) -> (r: SessionRow)
    ensures
        r.session_id == t.0 && r.role_id == t.1 && r.scene_id == t.2 && r.created_at == t.3 && r.updated_at
            == t.4 && r.message_count == t.5,
{
    let (session_id, role_id, scene_id, created_at, updated_at, message_count) = t;
    SessionRow { session_id, role_id, scene_id, created_at, updated_at, message_count }
}

/// The trimmed scene id, `default` when blank.
pub open spec fn scene_id_of(s: Seq<char>) -> Seq<char> {
    if trim(s).len() == 0 {
        "default"@
    } else {
        trim(s)
    }
}

pub fn normalize_scene_id(scene_id: &str) -> (r: String)
    ensures
        r@ == scene_id_of(scene_id@),
{
    let t = crate::text::trim_chars(scene_id);
    if t.len() == 0 {
        crate::text::owned("default")
    } else {
        crate::text::string_of(&t)
    }
}

/// A query limit: zero means unlimited, others are capped at 10 000.
pub fn cap_limit(limit: u32) -> (r: u32)
    ensures
        r == if limit == 0 {
            u32::MAX
        } else if limit <= 10_000 {
            limit
        } else {
            10_000
        },
{
    if limit == 0 {
        u32::MAX
    } else if limit <= 10_000 {
        limit
    } else {
        10_000
    }
}

/// Message rows as stored messages, field for field, in order.
pub fn rows_to_stored(rows: Vec<MessageRow>) -> (r: Vec<StoredMessage>)
    ensures
        r@.len() == rows@.len(),
        forall|i: int|
            0 <= i < rows@.len() ==> {
                let (a, b) = (#[trigger] r@[i], rows@[i]);
                &&& a.id == b.id
                &&& a.session_id == b.session_id
                &&& a.turn_index == b.turn_index
                &&& a.sender == b.sender
                &&& a.content == b.content
                &&& a.metadata == b.metadata
                &&& a.created_at == b.created_at
            },
{
    let mut rest = rows;
    let ghost orig = rest@;
    let mut out: Vec<StoredMessage> = Vec::new();
    let mut i: usize = 0;
    while rest.len() > 0
        invariant
            out@.len() + rest@.len() == orig.len(),
            rest@ == orig.skip(out@.len() as int),
            forall|j: int|
                0 <= j < out@.len() ==> {
                    let (a, b) = (#[trigger] out@[j], orig[j]);
                    &&& a.id == b.id
                    &&& a.session_id == b.session_id
                    &&& a.turn_index == b.turn_index
                    &&& a.sender == b.sender
                    &&& a.content == b.content
                    &&& a.metadata == b.metadata
                    &&& a.created_at == b.created_at
                },
        decreases rest.len(),
    {
        let r = rest.remove(0);
        assert(r == orig[out@.len() as int]);
        out.push(
            StoredMessage {
                id: r.id,
                session_id: r.session_id,
                turn_index: r.turn_index,
                sender: r.sender,
                content: r.content,
                metadata: r.metadata,
                created_at: r.created_at,
            },
        );
        assert(rest@ =~= orig.skip(out@.len() as int));
    }
    out
}

/// GLOB metacharacters.
pub open spec fn is_glob_meta(c: char) -> bool {
    c == '*' || c == '?' || c == '[' || c == ']'
}

/// Every GLOB metacharacter `c` written as the class `[c]`.
pub open spec fn glob_escaped(s: Seq<char>) -> Seq<char>
    decreases s.len(),
{
    if s.len() == 0 {
        Seq::empty()
    } else {
        let c = s.last();
        glob_escaped(s.drop_last()) + if is_glob_meta(c) {
            seq!['[', c, ']']
        } else {
            seq![c]
        }
    }
}

/// Escapes SQLite GLOB metacharacters (`*`, `?`, `[`, `]`) in a literal segment.
pub fn escape_sqlite_glob_literal(raw: &str) -> (r: String)
    ensures
        r@ == glob_escaped(raw@),
{
    let v = crate::text::chars_of(raw);
    let mut out: Vec<char> = Vec::new();
    let mut i: usize = 0;
    while i < v.len()
        invariant
            i <= v.len(),
            out@ == glob_escaped(v@.take(i as int)),
        decreases v.len() - i,
    {
        let c = v[i];
        assert(v@.take(i + 1).drop_last() =~= v@.take(i as int));
        assert(v@.take(i + 1).last() == c);
        if c == '*' || c == '?' || c == '[' || c == ']' {
            out.push('[');
            out.push(c);
            out.push(']');
        } else {
            out.push(c);
        }
        i = i + 1;
        assert(out@ =~= glob_escaped(v@.take(i as int)));
    }
    assert(v@.take(v@.len() as int) =~= v@);
    crate::text::string_of(&out)
}

/// `{role id}__sess__*` with GLOB metacharacters in the trimmed role id escaped.
pub fn manifest_sess_glob_pattern(manifest_role_id: &str) -> (r: String)
    ensures
        r@ == glob_escaped(trim(manifest_role_id@)) + "__sess__*"@,
{
    let t = crate::text::trim_str(manifest_role_id);
    let mut out = escape_sqlite_glob_literal(t.as_str());
    crate::text::append(&mut out, "__sess__*");
    out
}

/// The trimmed text, cut to `max_chars` characters and marked with `…`
/// when longer.
pub open spec fn snippet_of(s: Seq<char>, max_chars: nat) -> Seq<char> {
    let t = trim(s);
    if t.len() <= max_chars {
        t
    } else {
        take_at_most(t, max_chars) + "…"@
    }
}

pub fn truncate_snippet(s: &str, max_chars: usize) -> (r: String)
    ensures
        r@ == snippet_of(s@, max_chars as nat),
{
    let t = crate::text::trim_chars(s);
    if t.len() <= max_chars {
        return crate::text::string_of(&t);
    }
    let cut = crate::text::take_vec(&t, max_chars);
    let mut out = crate::text::string_of(&cut);
    crate::text::append(&mut out, "…");
    out
}

/// The number of bytes UTF-8 takes for `c`.
pub open spec fn char_width(c: char) -> nat {
    if c <= '\u{7f}' {
        1
    } else if c <= '\u{7ff}' {
        2
    } else if c <= '\u{ffff}' {
        3
    } else {
        4
    }
}

/// The number of bytes UTF-8 takes for `s`: the byte length of a `str`
/// holding it.
pub open spec fn utf8_len(s: Seq<char>) -> nat
    decreases s.len(),
{
    if s.len() == 0 {
        0
    } else {
        utf8_len(s.drop_last()) + char_width(s.last())
    }
}

/// The character index at which byte offset `b` of `s` falls between two
/// characters (a character boundary), if it does.
pub open spec fn boundary_index(s: Seq<char>, b: int) -> Option<int> {
    if exists|i: int| 0 <= i <= s.len() && #[trigger] utf8_len(s.take(i)) == b {
        Some(choose|i: int| 0 <= i <= s.len() && #[trigger] utf8_len(s.take(i)) == b)
    } else {
        None
    }
}

/// The first position at which `p` occurs in `s`.
pub open spec fn first_match(s: Seq<char>, p: Seq<char>) -> Option<int> {
    if crate::text::contains(s, p) {
        Some(
            choose|i: int|
                crate::text::occurs_at(s, p, i) && forall|j: int| 0 <= j < i ==> !crate::text::occurs_at(s, p, j),
        )
    } else {
        None
    }
}

/// The byte offset, in the lowercased content, of the first occurrence of
/// the lowercased query `q`.
pub open spec fn match_pos(content: Seq<char>, q: Seq<char>) -> Option<int> {
    let cl = crate::local_models::unicode_lower(content);
    match first_match(cl, crate::local_models::unicode_lower(q)) {
        Some(j) => Some(utf8_len(cl.take(j)) as int),
        None => None,
    }
}

/// The byte window around a match at byte `pos` of length `qlen`: `ctx`
/// bytes before it (at least 0) to `ctx` bytes after it (at most the end of
/// the content).
pub open spec fn window_bounds(content: Seq<char>, pos: int, qlen: int, ctx: nat) -> (int, int) {
    let start = if pos > ctx { pos - ctx } else { 0 };
    let stop = pos + qlen + ctx;
    let end = if stop < utf8_len(content) { stop } else { utf8_len(content) as int };
    (start, end)
}

/// The window can be cut from the content: it is not reversed and both
/// ends fall on character boundaries (else slicing the text panics).
pub open spec fn window_cuttable(content: Seq<char>, pos: int, qlen: int, ctx: nat) -> bool {
    let (start, end) = window_bounds(content, pos, qlen, ctx);
    start <= end && boundary_index(content, start) is Some && boundary_index(content, end) is Some
}

/// The window's text, with `…` on each side that was cut.
pub open spec fn window_of(content: Seq<char>, pos: int, qlen: int, ctx: nat) -> Seq<char> {
    let (start, end) = window_bounds(content, pos, qlen, ctx);
    let a = boundary_index(content, start)->0;
    let b = boundary_index(content, end)->0;
    (if start > 0 { "…"@ } else { Seq::empty() }) + content.subrange(a, b) + (if end < utf8_len(content) {
        "…"@
    } else {
        Seq::empty()
    })
}

/// With a nonblank lowercased query and a match, its window can be cut.
pub open spec fn highlight_cuttable(content: Seq<char>, q: Seq<char>, ctx: nat) -> bool {
    let ql = crate::local_models::unicode_lower(q);
    ql.len() > 0 ==> match match_pos(content, q) {
        Some(pos) => window_cuttable(content, pos, utf8_len(ql) as int, ctx),
        None => true,
    }
}

/// The search snippet for the (trimmed) query `q`: with an empty lowercased
/// query or no match, the content cut to `2 * ctx` characters; else the
/// match window.
pub open spec fn highlight_of(content: Seq<char>, q: Seq<char>, ctx: nat) -> Seq<char> {
    let ql = crate::local_models::unicode_lower(q);
    if ql.len() == 0 {
        snippet_of(content, 2 * ctx)
    } else {
        match match_pos(content, q) {
            Some(pos) => window_of(content, pos, utf8_len(ql) as int, ctx),
            None => snippet_of(content, 2 * ctx),
        }
    }
}

/// Byte lengths of prefixes grow with every character.
pub proof fn lemma_utf8_prefix_grows(s: Seq<char>, i: int, k: int)
    requires
        0 <= i < k <= s.len(),
    ensures
        utf8_len(s.take(i)) < utf8_len(s.take(k)),
    decreases k - i,
{
    let t = s.take(k);
    assert(t.drop_last() =~= s.take(k - 1));
    if i < k - 1 {
        lemma_utf8_prefix_grows(s, i, k - 1);
    }
}

fn width_of(c: char) -> (r: u128)
    ensures
        r == char_width(c),
{
    if c <= '\u{7f}' {
        1
    } else if c <= '\u{7ff}' {
        2
    } else if c <= '\u{ffff}' {
        3
    } else {
        4
    }
}

/// The UTF-8 byte length of the first `n` characters of `v`.
fn utf8_prefix_len(v: &Vec<char>, n: usize) -> (r: u128)
    requires
        n <= v@.len(),
    ensures
        r == utf8_len(v@.take(n as int)),
        r <= 4 * n,
{
    let mut acc: u128 = 0;
    let mut i: usize = 0;
    assert(v@.take(0) =~= Seq::<char>::empty());
    while i < n
        invariant
            i <= n <= v@.len(),
            acc == utf8_len(v@.take(i as int)),
            acc <= 4 * i,
        decreases n - i,
    {
        assert(v@.take(i + 1).drop_last() =~= v@.take(i as int));
        acc = acc + width_of(v[i]);
        i = i + 1;
    }
    acc
}

/// The character index of byte offset `b` of `v`, which falls on a
/// character boundary.
fn index_of_byte(v: &Vec<char>, b: u128) -> (r: usize)
    requires
        boundary_index(v@, b as int) is Some,
    ensures
        boundary_index(v@, b as int) == Some(r as int),
        r <= v@.len(),
{
    let n = v.len();
    let ghost i0 = boundary_index(v@, b as int)->0;
    let mut acc: u128 = 0;
    let mut i: usize = 0;
    assert(v@.take(0) =~= Seq::<char>::empty());
    proof {
        if 0 < i0 {
            lemma_utf8_prefix_grows(v@, 0, i0);
        }
    }
    while acc < b
        invariant
            0 <= i0 <= v@.len(),
            v@.len() == n,
            utf8_len(v@.take(i0)) == b,
            i <= i0,
            acc == utf8_len(v@.take(i as int)),
            acc <= 4 * i,
        decreases i0 - i,
    {
        proof {
            if i == i0 {
                assert(false);
            }
        }
        assert(v@.take(i + 1).drop_last() =~= v@.take(i as int));
        acc = acc + width_of(v[i]);
        i = i + 1;
        proof {
            if i < i0 {
                lemma_utf8_prefix_grows(v@, i as int, i0);
            }
        }
    }
    proof {
        if i < i0 {
            lemma_utf8_prefix_grows(v@, i as int, i0);
        }
        let c = choose|c: int| 0 <= c <= v@.len() && #[trigger] utf8_len(v@.take(c)) == b as int;
        if c < i {
            lemma_utf8_prefix_grows(v@, c, i as int);
        }
        if i < c {
            lemma_utf8_prefix_grows(v@, i as int, c);
        }
    }
    i
}

/// The search snippet of `content` for `query`: the text around the first
/// match of the trimmed query, ignoring case, with `context_chars` bytes on
/// each side and `…` where it was cut; without a match (or with a blank
/// query) the content cut to twice that many characters. The window must
/// fall on character boundaries of the content.
pub fn highlight_snippet(content: &str, query: &str, context_chars: usize) -> (r: String)
    requires
        context_chars <= usize::MAX / 2,
        highlight_cuttable(content@, trim(query@), context_chars as nat),
    ensures
        r@ == highlight_of(content@, trim(query@), context_chars as nat),
{
    try_highlight_snippet(content, query, context_chars).unwrap()
}

/// The search snippet of `content` for `query` as `highlight_snippet`
/// gives it; none when the window around the match does not fall on
/// character boundaries of the content (lowercasing changed byte lengths
/// before it), where cutting the text would fail.
pub fn try_highlight_snippet(content: &str, query: &str, context_chars: usize) -> (r: Option<String>)
    requires
        context_chars <= usize::MAX / 2,
    ensures
        r is Some <==> highlight_cuttable(content@, trim(query@), context_chars as nat),
        r matches Some(s) ==> s@ == highlight_of(content@, trim(query@), context_chars as nat),
{
    let lower = crate::local_models::to_lowercase(content);
    let q = crate::text::trim_str(query);
    let qlower = crate::local_models::to_lowercase(q.as_str());
    let cl = crate::text::chars_of(lower.as_str());
    let ql = crate::text::chars_of(qlower.as_str());
    if ql.len() == 0 {
        return Some(truncate_snippet(content, context_chars * 2));
    }
    let found = crate::text::find_vec(&cl, &ql);
    proof {
        match found {
            Some(j) => {
                let c = choose|i: int|
                    crate::text::occurs_at(cl@, ql@, i) && forall|k: int| 0 <= k < i ==> !crate::text::occurs_at(cl@, ql@, k);
                if c < j {
                    assert(!crate::text::occurs_at(cl@, ql@, c));
                }
                if j < c {
                    assert(!crate::text::occurs_at(cl@, ql@, j as int));
                }
            },
            None => {},
        }
    }
    match found {
        None => Some(truncate_snippet(content, context_chars * 2)),
        Some(j) => {
            let pos = utf8_prefix_len(&cl, j);
            let qb = utf8_prefix_len(&ql, ql.len());
            assert(ql@.take(ql@.len() as int) =~= ql@);
            if window_fits(content, pos, qb, context_chars) {
                Some(window_text(content, pos, qb, context_chars))
            } else {
                None
            }
        },
    }
}

/// Whether byte offset `b` of `v` falls on a character boundary.
fn on_boundary(v: &Vec<char>, b: u128) -> (r: bool)
    ensures
        r == (boundary_index(v@, b as int) is Some),
{
    let n = v.len();
    let mut acc: u128 = 0;
    let mut i: usize = 0;
    assert(v@.take(0) =~= Seq::<char>::empty());
    while i < n && acc < b
        invariant
            n == v@.len(),
            i <= n,
            acc == utf8_len(v@.take(i as int)),
            acc <= 4 * i,
            forall|j: int| 0 <= j < i ==> #[trigger] utf8_len(v@.take(j)) < b,
        decreases n - i,
    {
        assert(v@.take(i + 1).drop_last() =~= v@.take(i as int));
        acc = acc + width_of(v[i]);
        i = i + 1;
    }
    if acc == b {
        return true;
    }
    proof {
        assert forall|c: int| 0 <= c <= v@.len() implies #[trigger] utf8_len(v@.take(c)) != b by {
            if c < i {
            } else if c > i {
                lemma_utf8_prefix_grows(v@, i as int, c);
                if acc < b {
                    assert(i == n);
                }
            }
        }
    }
    false
}

/// Whether the window around a match can be cut from the content.
fn window_fits(content: &str, pos: u128, qlen: u128, ctx: usize) -> (r: bool)
    requires
        pos <= 4 * (usize::MAX as int),
        qlen <= 4 * (usize::MAX as int),
    ensures
        r == window_cuttable(content@, pos as int, qlen as int, ctx as nat),
{
    let cc = crate::text::chars_of(content);
    let cb = utf8_prefix_len(&cc, cc.len());
    assert(cc@.take(cc@.len() as int) =~= cc@);
    let c = ctx as u128;
    let start = if pos > c { pos - c } else { 0 };
    let stop = pos + qlen + c;
    let end = if stop < cb { stop } else { cb };
    start <= end && on_boundary(&cc, start) && on_boundary(&cc, end)
}

/// The text of the byte window around a match at `pos` of length `qlen`.
fn window_text(content: &str, pos: u128, qlen: u128, ctx: usize) -> (r: String)
    requires
        pos <= 4 * (usize::MAX as int),
        qlen <= 4 * (usize::MAX as int),
        window_cuttable(content@, pos as int, qlen as int, ctx as nat),
    ensures
        r@ == window_of(content@, pos as int, qlen as int, ctx as nat),
{
    let cc = crate::text::chars_of(content);
    let cb = utf8_prefix_len(&cc, cc.len());
    assert(cc@.take(cc@.len() as int) =~= cc@);
    let c = ctx as u128;
    let start = if pos > c { pos - c } else { 0 };
    let stop = pos + qlen + c;
    let end = if stop < cb { stop } else { cb };
    let a = index_of_byte(&cc, start);
    let b = index_of_byte(&cc, end);
    proof {
        if b < a {
            lemma_utf8_prefix_grows(cc@, b as int, a as int);
        }
        reveal_strlit("");
    }
    let mut out = if start > 0 { crate::text::owned("…") } else { crate::text::owned("") };
    let piece = crate::text::slice_vec(&cc, a, b);
    crate::text::append(&mut out, crate::text::string_of(&piece).as_str());
    if end < cb {
        crate::text::append(&mut out, "…");
    }
    proof {
        if start == 0 {
            assert(""@ =~= Seq::<char>::empty());
        }
    }
    out
}

/// The RFC 3339 text `chrono` gives for the UTC instant `ms` milliseconds
/// after the epoch; none when `DateTime::from_timestamp_millis` finds it out
/// of range.
pub uninterp spec fn rfc3339_of_millis(ms: i64) -> Option<Seq<char>>;

/// Calls `chrono::DateTime::from_timestamp_millis` and `to_rfc3339`.
/// Trusted: the result is the instant's RFC 3339 text, none out of range.
#[verifier::external_body]
fn millis_to_rfc3339(ms: i64) -> (r: Option<String>)
    ensures
        crate::resource::model::opt_view(r) == rfc3339_of_millis(ms),
{
    chrono::DateTime::from_timestamp_millis(ms).map(|dt| dt.to_rfc3339())
}

/// Calls `chrono::Utc::now` and `to_rfc3339`: the current time, of which
/// nothing is promised.
#[verifier::external_body]
fn now_rfc3339() -> (r: String) {
    chrono::Utc::now().to_rfc3339()
}

/// A stored millisecond timestamp as RFC 3339 text; the current time when
/// it is out of range.
pub fn timestamp_ms_to_rfc3339(ms: i64) -> (r: String)
    ensures
        rfc3339_of_millis(ms) matches Some(t) ==> r@ == t,
{
    match millis_to_rfc3339(ms) {
        Some(t) => t,
        None => now_rfc3339(),
    }
}

} // verus!
