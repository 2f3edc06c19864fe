//! OpenAI-compatible servers: endpoint normalisation, the server-sent
//! event stream of a chat completion, and the model list.

use vstd::prelude::*;
use crate::text::{ascii_lower_seq, contains, ends_with, eq_ignore_ascii_case, lex_le, starts_with, strip_trailing, trim};
use crate::resource::model::opt_view;

verus! {

/// `s` with every trailing copy of the non-empty suffix `p` removed
/// (`str::trim_end_matches`).
pub open spec fn strip_suffixes(s: Seq<char>, p: Seq<char>) -> Seq<char>
    decreases s.len(),
{
    if p.len() > 0 && ends_with(s, p) {
        strip_suffixes(s.take(s.len() - p.len()), p)
    } else {
        s
    }
}

fn strip_suffixes_vec(v: &[char], p: &[char]) -> (r: Vec<char>)
    requires
        p@.len() > 0,
    ensures
        r@ == strip_suffixes(v@, p@),
{
    let mut k: usize = v.len();
    let ghost mut cur = v@;
    loop
        invariant_except_break
            k <= v.len(),
            p@.len() > 0,
            cur == v@.take(k as int),
            strip_suffixes(v@, p@) == strip_suffixes(cur, p@),
        ensures
            k <= v.len(),
            strip_suffixes(v@, p@) == v@.take(k as int),
        decreases k,
    {
        let cur_v = crate::text::slice_vec(v, 0, k);
        assert(cur_v@ =~= cur);
        if crate::text::ends_with_vec(&cur_v, p) {
            proof {
                assert(cur.take(cur.len() - p@.len()) =~= v@.take(k - p@.len()));
                cur = v@.take(k - p@.len());
            }
            k = k - p.len();
        } else {
            break;
        }
    }
    crate::text::slice_vec(v, 0, k)
}

/// The trimmed base without trailing slashes.
pub open spec fn base_of(base: Seq<char>) -> Seq<char> {
    strip_trailing(trim(base), '/')
}

/// The chat completions endpoint of a base URL.
pub open spec fn chat_url(base: Seq<char>) -> Seq<char> {
    let b = base_of(base);
    if b.len() == 0 {
        Seq::empty()
    } else if ends_with(b, "/chat/completions"@) {
        b
    } else if ends_with(b, "/v1"@) {
        b + "/chat/completions"@
    } else if contains(b, "/v1/"@) {
        b
    } else {
        b + "/v1/chat/completions"@
    }
}

/// The chat completions endpoint is empty exactly when the base, trimmed
/// and without trailing slashes, is empty.
pub proof fn law_chat_url_empty_iff_blank_base(base: Seq<char>)
    ensures
        chat_url(base).len() == 0 <==> base_of(base).len() == 0,
{
}

/// Taking the chat completions endpoint of an endpoint gives the same
/// endpoint back. The one exception is a base that holds `/v1/`, does not
/// end in `/chat/completions` or `/v1`, and ends in whitespace once its
/// trailing `/` are stripped: it is kept with that whitespace, which a
/// second call trims.
pub proof fn law_chat_url_idempotent(base: Seq<char>)
    requires
        contains(base_of(base), "/v1/"@) ==> trim(base_of(base)) == base_of(base),
    ensures
        chat_url(chat_url(base)) == chat_url(base),
{
    reveal_strlit("/chat/completions");
    reveal_strlit("/v1/chat/completions");
    reveal_strlit("/v1");
    let t = trim(base);
    let b = base_of(base);
    let u = crate::text::trim_start(base);
    crate::text::lemma_trim_start_shape(base);
    crate::text::lemma_trim_end_shape(u);
    crate::text::lemma_strip_trailing_shape(t, '/');
    if b.len() > 0 {
        assert(b[0] == t[0]);
        assert(t[0] == u[0]);
        assert(!crate::text::is_ws(b[0]));
    }
    if b.len() == 0 {
    } else if ends_with(b, "/chat/completions"@) {
        assert(b.last() == b.skip(b.len() - 17)[16]);
        crate::text::lemma_trim_fixed(b);
    } else if ends_with(b, "/v1"@) {
        assert("/chat/completions"@.skip(0) =~= "/chat/completions"@);
        lemma_suffixed_endpoint(b, "/chat/completions"@);
    } else if contains(b, "/v1/"@) {
    } else {
        assert("/v1/chat/completions"@.skip(3) =~= "/chat/completions"@);
        lemma_suffixed_endpoint(b, "/v1/chat/completions"@);
    }
}

/// `b` (a trimmed base without trailing `/`) followed by a suffix ending in
/// `/chat/completions` is its own base and its own endpoint.
proof fn lemma_suffixed_endpoint(b: Seq<char>, sfx: Seq<char>)
    requires
        b.len() > 0,
        !crate::text::is_ws(b[0]),
        ends_with(sfx, "/chat/completions"@),
    ensures
        base_of(b + sfx) == b + sfx,
        chat_url(b + sfx) == b + sfx,
{
    reveal_strlit("/chat/completions");
    let r = b + sfx;
    assert(r.last() == sfx.last());
    assert(sfx.last() == sfx.skip(sfx.len() - 17)[16]);
    crate::text::lemma_trim_fixed(r);
    assert(r.skip(r.len() - 17) =~= sfx.skip(sfx.len() - 17));
}

/// The model listing endpoint of a base URL.
pub open spec fn models_url(base: Seq<char>) -> Seq<char> {
    let b = base_of(base);
    let root = strip_suffixes(b, "/chat/completions"@);
    if b.len() == 0 {
        Seq::empty()
    } else if ends_with(b, "/models"@) {
        b
    } else if ends_with(b, "/chat/completions"@) && ends_with(root, "/v1"@) {
        root + "/models"@
    } else if ends_with(b, "/v1"@) {
        b + "/models"@
    } else if contains(b, "/v1/"@) {
        b
    } else {
        b + "/v1/models"@
    }
}

fn base_chars(base: &str) -> (r: Vec<char>)
    ensures
        r@ == base_of(base@),
{
    let t = crate::text::trim_chars(base);
    crate::text::strip_trailing_vec(&t, '/')
}

fn with_suffix(b: &[char], suffix: &str) -> (r: String)
    ensures
        r@ == b@ + suffix@,
{
    let mut s = crate::text::string_of(b);
    crate::text::append(&mut s, suffix);
    s
}

/// Normalises a base URL to `…/v1/chat/completions`.
pub fn chat_completions_url(base: &str) -> (r: String)
    ensures
        r@ == chat_url(base@),
{
    let b = base_chars(base);
    if b.len() == 0 {
        return String::new();
    }
    let cc = crate::text::chars_of("/chat/completions");
    let v1 = crate::text::chars_of("/v1");
    let v1s = crate::text::chars_of("/v1/");
    if crate::text::ends_with_vec(&b, &cc) {
        return crate::text::string_of(&b);
    }
    if crate::text::ends_with_vec(&b, &v1) {
        return with_suffix(&b, "/chat/completions");
    }
    if crate::text::contains_vec(&b, &v1s) {
        return crate::text::string_of(&b);
    }
    with_suffix(&b, "/v1/chat/completions")
}

/// Normalises a base URL to `…/v1/models`.
pub fn models_list_url(base: &str) -> (r: String)
    ensures
        r@ == models_url(base@),
{
    let b = base_chars(base);
    if b.len() == 0 {
        return String::new();
    }
    let cc = crate::text::chars_of("/chat/completions");
    let models = crate::text::chars_of("/models");
    let v1 = crate::text::chars_of("/v1");
    let v1s = crate::text::chars_of("/v1/");
    proof {
        reveal_strlit("/chat/completions");
    }
    if crate::text::ends_with_vec(&b, &models) {
        return crate::text::string_of(&b);
    }
    let root = strip_suffixes_vec(&b, &cc);
    if crate::text::ends_with_vec(&b, &cc) && crate::text::ends_with_vec(&root, &v1) {
        return with_suffix(&root, "/models");
    }
    if crate::text::ends_with_vec(&b, &v1) {
        return with_suffix(&b, "/models");
    }
    if crate::text::contains_vec(&b, &v1s) {
        return crate::text::string_of(&b);
    }
    with_suffix(&b, "/v1/models")
}


/// `line` without one trailing carriage return.
pub open spec fn strip_cr(line: Seq<u8>) -> Seq<u8> {
    if line.len() > 0 && line.last() == 13u8 { line.drop_last() } else { line }
}

pub open spec fn first_newline(p: Seq<u8>) -> Option<int> {
    if exists|i: int| 0 <= i < p.len() && p[i] == 10u8 {
        Some(choose|i: int| 0 <= i < p.len() && p[i] == 10u8 && forall|j: int| 0 <= j < i ==> p[j] != 10u8)
    } else {
        None
    }
}

/// The complete lines at the front of a stream buffer (without their line
/// ends) and what remains after them.
pub open spec fn split_lines(p: Seq<u8>) -> (Seq<Seq<u8>>, Seq<u8>)
    decreases p.len(),
{
    match first_newline(p) {
        Some(i) => if 0 <= i < p.len() {
            let rest = split_lines(p.subrange(i + 1, p.len() as int));
            (seq![strip_cr(p.subrange(0, i))] + rest.0, rest.1)
        } else {
            (Seq::empty(), p)
        },
        None => (Seq::empty(), p),
    }
}

proof fn lemma_first_newline(p: Seq<u8>, i: int)
    requires
        0 <= i < p.len(),
        p[i] == 10u8,
        forall|j: int| 0 <= j < i ==> p[j] != 10u8,
    ensures
        first_newline(p) == Some(i),
{
    let c = choose|c: int| 0 <= c < p.len() && p[c] == 10u8 && forall|j: int| 0 <= j < c ==> p[j] != 10u8;
    assert(c == i) by {
        if c < i {
        } else if c > i {
        }
    }
}

fn strip_cr_exec(mut line: Vec<u8>) -> (r: Vec<u8>)
    ensures
        r@ == strip_cr(line@),
{
    let n = line.len();
    if n > 0 && line[n - 1] == 13u8 {
        line.pop();
    }
    line
}

proof fn lemma_split_at(p: Seq<u8>, start: int, i: int)
    requires
        0 <= start <= i < p.len(),
        p[i] == 10u8,
        forall|j: int| start <= j < i ==> p[j] != 10u8,
    ensures
        split_lines(p.subrange(start, p.len() as int)) == (seq![strip_cr(p.subrange(start, i))] + split_lines(
            p.subrange(i + 1, p.len() as int),
        ).0, split_lines(p.subrange(i + 1, p.len() as int)).1),
{
    let rest = p.subrange(start, p.len() as int);
    let k = i - start;
    assert(rest[k] == 10u8);
    assert forall|j: int| 0 <= j < k implies rest[j] != 10u8 by {
        assert(rest[j] == p[start + j]);
    }
    lemma_first_newline(rest, k);
    assert(rest.subrange(k + 1, rest.len() as int) =~= p.subrange(i + 1, p.len() as int));
    assert(rest.subrange(0, k) =~= p.subrange(start, i));
}

proof fn lemma_split_none(p: Seq<u8>, start: int)
    requires
        0 <= start <= p.len(),
        forall|j: int| start <= j < p.len() ==> p[j] != 10u8,
    ensures
        split_lines(p.subrange(start, p.len() as int)) == (Seq::<Seq<u8>>::empty(), p.subrange(start, p.len() as int)),
{
    let rest = p.subrange(start, p.len() as int);
    if first_newline(rest) is Some {
        let c = choose|c: int| 0 <= c < rest.len() && rest[c] == 10u8;
        assert(rest[c] == p[start + c]);
    }
}

fn copy_range(v: &Vec<u8>, a: usize, b: usize) -> (r: Vec<u8>)
    requires
        a <= b <= v@.len(),
    ensures
        r@ == v@.subrange(a as int, b as int),
{
    let mut r: Vec<u8> = Vec::new();
    let mut j: usize = a;
    while j < b
        invariant
            a <= j <= b <= v@.len(),
            r@ == v@.subrange(a as int, j as int),
        decreases b - j,
    {
        r.push(v[j]);
        j = j + 1;
        assert(r@ =~= v@.subrange(a as int, j as int));
    }
    r
}

fn next_newline(v: &Vec<u8>, start: usize) -> (r: Option<usize>)
    requires
        start <= v@.len(),
    ensures
        match r {
            Some(i) => start <= i < v@.len() && v@[i as int] == 10u8 && forall|j: int| start <= j < i ==> v@[j] != 10u8,
            None => forall|j: int| start <= j < v@.len() ==> v@[j] != 10u8,
        },
{
    let mut i: usize = start;
    while i < v.len()
        invariant
            start <= i <= v@.len(),
            forall|j: int| start <= j < i ==> v@[j] != 10u8,
        decreases v.len() - i,
    {
        if v[i] == 10u8 {
            return Some(i);
        }
        i = i + 1;
    }
    None
}

pub open spec fn line_views(s: Seq<Vec<u8>>) -> Seq<Seq<u8>> {
    s.map_values(|l: Vec<u8>| l@)
}

proof fn lemma_push_line(lines: Seq<Vec<u8>>, line: Vec<u8>, rest: Seq<Seq<u8>>)
    ensures
        line_views(lines.push(line)) + rest == line_views(lines) + (seq![line@] + rest),
{
    assert(line_views(lines.push(line)) =~= line_views(lines).push(line@));
    assert(line_views(lines).push(line@) + rest =~= line_views(lines) + (seq![line@] + rest));
}

/// Take every complete line off the front of a stream buffer; what is left
/// is an unfinished line.
pub fn take_complete_lines(pending: &mut Vec<u8>) -> (lines: Vec<Vec<u8>>)
    ensures
        line_views(lines@) == split_lines(old(pending)@).0,
        final(pending)@ == split_lines(old(pending)@).1,
{
    let ghost p0 = pending@;
    let ghost target = split_lines(p0);
    let mut lines: Vec<Vec<u8>> = Vec::new();
    let mut start: usize = 0;
    assert(p0.len() == pending.len());
    assert(p0.subrange(0, p0.len() as int) =~= p0);
    assert(line_views(lines@) + target.0 =~= target.0);
    loop
        invariant
            pending@ == p0,
            p0 == old(pending)@,
            target == split_lines(p0),
            p0.len() <= usize::MAX,
            start <= p0.len(),
            line_views(lines@) + split_lines(p0.subrange(start as int, p0.len() as int)).0 == target.0,
            split_lines(p0.subrange(start as int, p0.len() as int)).1 == target.1,
        decreases p0.len() - start,
    {
        match next_newline(pending, start) {
            Some(i) => {
                proof {
                    lemma_split_at(p0, start as int, i as int);
                }
                let line = strip_cr_exec(copy_range(pending, start, i));
                proof {
                    lemma_push_line(lines@, line, split_lines(p0.subrange(i + 1, p0.len() as int)).0);
                }
                lines.push(line);
                start = i + 1;
            },
            None => {
                proof {
                    lemma_split_none(p0, start as int);
                    assert(line_views(lines@) + Seq::<Seq<u8>>::empty() =~= line_views(lines@));
                    assert(line_views(lines@) == target.0);
                }
                let remaining = copy_range(pending, start, pending.len());
                *pending = remaining;
                return lines;
            },
        }
    }
}

/// What one line of the event stream says.
#[derive(Debug, PartialEq, Eq)]
pub enum SseLine {
    /// A blank line, a comment or a field other than `data`.
    Skip,
    /// `data: [DONE]`: the stream is over.
    Done,
    /// The JSON payload of a `data` field.
    Payload(String),
}

pub open spec fn sse_kind(line: Seq<char>) -> Option<Option<Seq<char>>> {
    let t = trim(line);
    if t.len() == 0 || t[0] == ':' || !starts_with(t, "data:"@) {
        None
    } else {
        let d = trim(t.skip(5));
        if d == "[DONE]"@ { Some(None) } else { Some(Some(d)) }
    }
}

/// Classify one line of a chat completion's event stream.
pub fn classify_sse_line(line: &str) -> (r: SseLine)
    ensures
        match sse_kind(line@) {
            None => r is Skip,
            Some(None) => r is Done,
            Some(Some(d)) => r matches SseLine::Payload(p) && p@ == d,
        },
{
    let t = crate::text::trim_chars(line);
    if t.len() == 0 || t[0] == ':' {
        return SseLine::Skip;
    }
    let prefix = crate::text::chars_of("data:");
    if !crate::text::starts_with_vec(&t, &prefix) {
        return SseLine::Skip;
    }
    proof {
        reveal_strlit("data:");
    }
    let rest = crate::text::slice_vec(&t, 5, t.len());
    assert(rest@ =~= t@.skip(5));
    let d = crate::text::trim_vec(&rest);
    let done = crate::text::chars_of("[DONE]");
    if crate::text::seq_eq(&d, &done) {
        SseLine::Done
    } else {
        SseLine::Payload(crate::text::string_of(&d))
    }
}

pub open spec fn nonempty_contents(cs: Seq<Option<String>>) -> Seq<Seq<char>>
    decreases cs.len(),
{
    if cs.len() == 0 {
        Seq::empty()
    } else {
        let prev = nonempty_contents(cs.drop_last());
        match opt_view(cs.last()) {
            Some(c) => if c.len() > 0 { prev.push(c) } else { prev },
            None => prev,
        }
    }
}

pub open spec fn concat(parts: Seq<Seq<char>>) -> Seq<char>
    decreases parts.len(),
{
    if parts.len() == 0 {
        Seq::empty()
    } else {
        concat(parts.drop_last()) + parts.last()
    }
}

/// Append the non-empty delta contents of one stream chunk to the reply;
/// returns them, in order, for the token sink.
pub fn append_stream_contents(reply: &mut String, contents: &Vec<Option<String>>) -> (emitted: Vec<String>)
    ensures
        crate::text::views(emitted@) == nonempty_contents(contents@),
        final(reply)@ == old(reply)@ + concat(nonempty_contents(contents@)),
{
    let ghost r0 = reply@;
    let mut emitted: Vec<String> = Vec::new();
    let mut i: usize = 0;
    while i < contents.len()
        invariant
            i <= contents@.len(),
            crate::text::views(emitted@) == nonempty_contents(contents@.take(i as int)),
            reply@ == r0 + concat(nonempty_contents(contents@.take(i as int))),
        decreases contents.len() - i,
    {
        assert(contents@.take(i + 1).drop_last() =~= contents@.take(i as int));
        assert(contents@.take(i + 1).last() == contents@[i as int]);
        let ghost before = crate::text::views(emitted@);
        match &contents[i] {
            Some(c) => {
                if crate::text::chars_of(c.as_str()).len() > 0 {
                    crate::text::append(reply, c.as_str());
                    emitted.push(c.clone());
                    assert(crate::text::views(emitted@) =~= before.push(c@));
                    assert(nonempty_contents(contents@.take(i + 1)) == before.push(c@));
                    assert(before.push(c@).drop_last() =~= before);
                    assert(concat(before.push(c@)) == concat(before) + c@);
                    assert(reply@ =~= r0 + concat(nonempty_contents(contents@.take(i + 1))));
                }
            },
            None => {},
        }
        i = i + 1;
    }
    assert(contents@.take(i as int) =~= contents@);
    emitted
}

/// A finished stream's reply, refused when the server sent no content.
pub fn stream_reply(reply: String) -> (r: Result<String, String>)
    ensures
        reply@.len() > 0 ==> r == Ok::<String, String>(reply),
        reply@.len() == 0 ==> (r matches Err(e) && e@ == "OpenAI stream ended without assistant content"@),
{
    if crate::text::chars_of(reply.as_str()).len() == 0 {
        Err(crate::text::owned("OpenAI stream ended without assistant content"))
    } else {
        Ok(reply)
    }
}

/// The assistant content of a non-streaming completion, trimmed; refused
/// when it is missing or blank.
pub fn chat_reply_content(content: Option<String>) -> (r: Result<String, String>)
    ensures
        match opt_view(content) {
            Some(c) => if trim(c).len() > 0 {
                r matches Ok(s) && s@ == trim(c)
            } else {
                r matches Err(e) && e@ == "OpenAI API response missing choices[0].message.content"@
            },
            None => r matches Err(e) && e@ == "OpenAI API response missing choices[0].message.content"@,
        },
{
    match content {
        Some(c) => {
            let t = crate::text::trim_chars(c.as_str());
            if t.len() > 0 {
                return Ok(crate::text::string_of(&t));
            }
        },
        None => {},
    }
    Err(crate::text::owned("OpenAI API response missing choices[0].message.content"))
}

/// A model id's sort key: its ASCII lowercase form.
pub open spec fn id_key(s: Seq<char>) -> Seq<char> {
    ascii_lower_seq(s)
}

pub open spec fn key_lt(a: Seq<char>, b: Seq<char>) -> bool {
    lex_le(id_key(a), id_key(b)) && id_key(a) != id_key(b)
}

/// Where a stable sort places `x` among sorted `acc`: after every id whose
/// key is not greater.
pub open spec fn id_insert_at(acc: Seq<Seq<char>>, x: Seq<char>) -> int
    decreases acc.len(),
{
    if acc.len() == 0 {
        0
    } else if key_lt(x, acc[0]) {
        0
    } else {
        1 + id_insert_at(acc.drop_first(), x)
    }
}

proof fn lemma_id_insert_at_bound(acc: Seq<Seq<char>>, x: Seq<char>)
    ensures
        0 <= id_insert_at(acc, x) <= acc.len(),
    decreases acc.len(),
{
    if acc.len() > 0 {
        lemma_id_insert_at_bound(acc.drop_first(), x);
    }
}

/// Ids stably sorted by key.
pub open spec fn sorted_ids(s: Seq<Seq<char>>) -> Seq<Seq<char>>
    decreases s.len(),
{
    if s.len() == 0 {
        Seq::empty()
    } else {
        let a = sorted_ids(s.drop_last());
        a.insert(id_insert_at(a, s.last()), s.last())
    }
}

/// The ids with each run of case-insensitively equal ids reduced to its
/// first.
pub open spec fn dedup_ids(s: Seq<Seq<char>>) -> Seq<Seq<char>>
    decreases s.len(),
{
    if s.len() == 0 {
        Seq::empty()
    } else {
        let prev = dedup_ids(s.drop_last());
        if prev.len() > 0 && eq_ignore_ascii_case(prev.last(), s.last()) { prev } else { prev.push(s.last()) }
    }
}

/// The listed ids, trimmed, blank ones dropped.
pub open spec fn listed_ids(entries: Seq<Option<String>>) -> Seq<Seq<char>>
    decreases entries.len(),
{
    if entries.len() == 0 {
        Seq::empty()
    } else {
        let prev = listed_ids(entries.drop_last());
        match opt_view(entries.last()) {
            Some(id) => if trim(id).len() > 0 { prev.push(trim(id)) } else { prev },
            None => prev,
        }
    }
}

pub open spec fn model_ids(entries: Seq<Option<String>>) -> Seq<Seq<char>> {
    dedup_ids(sorted_ids(listed_ids(entries)))
}

fn key_lt_exec(a: &String, b: &String) -> (r: bool)
    ensures
        r == key_lt(a@, b@),
{
    let ka = crate::text::ascii_lower_vec(&crate::text::chars_of(a.as_str()));
    let kb = crate::text::ascii_lower_vec(&crate::text::chars_of(b.as_str()));
    crate::text::lex_le_chars(&ka, &kb) && !crate::text::seq_eq(&ka, &kb)
}

fn insert_id(acc: &mut Vec<String>, x: String)
    ensures
        crate::text::views(final(acc)@) == crate::text::views(old(acc)@).insert(
            id_insert_at(crate::text::views(old(acc)@), x@),
            x@,
        ),
{
    let ghost av = crate::text::views(acc@);
    let mut i: usize = 0;
    assert(av.skip(0) =~= av);
    while i < acc.len() && !key_lt_exec(&x, &acc[i])
        invariant
            i <= acc.len(),
            av == crate::text::views(acc@),
            id_insert_at(av, x@) == i + id_insert_at(av.skip(i as int), x@),
        decreases acc.len() - i,
    {
        assert(av.skip(i as int)[0] == acc@[i as int]@);
        assert(av.skip(i as int).drop_first() =~= av.skip(i + 1));
        i = i + 1;
    }
    proof {
        if i < acc.len() {
            assert(av.skip(i as int)[0] == acc@[i as int]@);
        } else {
            assert(av.skip(i as int).len() == 0);
        }
    }
    let ghost xv = x@;
    acc.insert(i, x);
    assert(crate::text::views(acc@) =~= av.insert(i as int, xv));
}

/// The model ids of a model list: trimmed, blank ones dropped, sorted
/// case-insensitively (stable) and with case-insensitive repeats removed;
/// refused when none is left.
pub fn normalize_model_ids(entries: &Vec<Option<String>>) -> (r: Result<Vec<String>, String>)
    ensures
        model_ids(entries@).len() > 0 ==> (r matches Ok(v) && crate::text::views(v@) == model_ids(entries@)),
        model_ids(entries@).len() == 0 ==> (r matches Err(e) && e@
            == "OpenAI models list response contained no model ids"@),
{
    let mut listed: Vec<String> = Vec::new();
    let mut i: usize = 0;
    while i < entries.len()
        invariant
            i <= entries@.len(),
            crate::text::views(listed@) == listed_ids(entries@.take(i as int)),
        decreases entries.len() - i,
    {
        assert(entries@.take(i + 1).drop_last() =~= entries@.take(i as int));
        assert(entries@.take(i + 1).last() == entries@[i as int]);
        let ghost before = crate::text::views(listed@);
        match &entries[i] {
            Some(id) => {
                let t = crate::text::trim_chars(id.as_str());
                if t.len() > 0 {
                    listed.push(crate::text::string_of(&t));
                    assert(crate::text::views(listed@) =~= before.push(t@));
                }
            },
            None => {},
        }
        i = i + 1;
    }
    assert(entries@.take(i as int) =~= entries@);
    let ghost lv = crate::text::views(listed@);
    let mut sorted: Vec<String> = Vec::new();
    let mut k: usize = 0;
    assert(crate::text::views(sorted@) =~= sorted_ids(lv.take(0)));
    while k < listed.len()
        invariant
            k <= listed@.len(),
            lv == crate::text::views(listed@),
            crate::text::views(sorted@) == sorted_ids(lv.take(k as int)),
        decreases listed.len() - k,
    {
        assert(lv.take(k + 1).drop_last() =~= lv.take(k as int));
        assert(lv.take(k + 1).last() == listed@[k as int]@);
        insert_id(&mut sorted, listed[k].clone());
        k = k + 1;
    }
    assert(lv.take(k as int) =~= lv);
    let ghost sv = crate::text::views(sorted@);
    let mut out: Vec<String> = Vec::new();
    let mut j: usize = 0;
    assert(crate::text::views(out@) =~= dedup_ids(sv.take(0)));
    while j < sorted.len()
        invariant
            j <= sorted@.len(),
            sv == crate::text::views(sorted@),
            crate::text::views(out@) == dedup_ids(sv.take(j as int)),
        decreases sorted.len() - j,
    {
        assert(sv.take(j + 1).drop_last() =~= sv.take(j as int));
        assert(sv.take(j + 1).last() == sorted@[j as int]@);
        let ghost before = crate::text::views(out@);
        let n = out.len();
        let repeat = if n > 0 {
            let a = crate::text::chars_of(out[n - 1].as_str());
            let b = crate::text::chars_of(sorted[j].as_str());
            assert(before.last() == out@[n - 1]@);
            crate::text::eq_ignore_case_vec(&a, &b)
        } else {
            false
        };
        if !repeat {
            out.push(sorted[j].clone());
            assert(crate::text::views(out@) =~= before.push(sorted@[j as int]@));
        }
        j = j + 1;
    }
    assert(sv.take(j as int) =~= sv);
    if out.len() == 0 {
        Err(crate::text::owned("OpenAI models list response contained no model ids"))
    } else {
        Ok(out)
    }
}

/// The environment a remote OpenAI-compatible client is configured from:
/// `OCLIVE_REMOTE_LLM_URL`, `OPENAI_API_BASE`, `OPENAI_BASE_URL`,
/// `OCLIVE_REMOTE_LLM_TOKEN`, `OPENAI_API_KEY`, the cached user token and
/// `OCLIVE_REMOTE_LLM_TIMEOUT_MS` (each absent when unset).
pub struct RemoteLlmEnv {
    pub remote_llm_url: Option<String>,
    pub openai_api_base: Option<String>,
    pub openai_base_url: Option<String>,
    pub remote_llm_token: Option<String>,
    pub openai_api_key: Option<String>,
    pub cached_token: Option<String>,
    pub timeout_ms: Option<String>,
}

/// A remote client's endpoint, token and request timeout.
pub struct RemoteLlmConfig {
    pub chat_url: String,
    pub bearer_token: Option<String>,
    pub timeout_ms: u64,
}

/// The base URL: the remote URL when it is not blank, else the first of
/// the OpenAI variables that is set.
pub open spec fn remote_base(env: RemoteLlmEnv) -> Option<Seq<char>> {
    match opt_view(env.remote_llm_url) {
        Some(u) if trim(u).len() > 0 => Some(u),
        _ => match opt_view(env.openai_api_base) {
            Some(b) => Some(b),
            None => opt_view(env.openai_base_url),
        },
    }
}

/// The token: the first of the token variables and the cached token that
/// is set, trimmed; none when that is blank.
pub open spec fn remote_bearer(env: RemoteLlmEnv) -> Option<Seq<char>> {
    let first = match opt_view(env.remote_llm_token) {
        Some(t) => Some(t),
        None => match opt_view(env.openai_api_key) {
            Some(t) => Some(t),
            None => opt_view(env.cached_token),
        },
    };
    match first {
        Some(t) => if trim(t).len() > 0 {
            Some(trim(t))
        } else {
            None
        },
        None => None,
    }
}

/// The timeout: the variable read as a `u64` (120000 when unset or not a
/// number), kept within 1000..=600000 milliseconds.
pub open spec fn remote_timeout_ms(env: RemoteLlmEnv) -> nat {
    let parsed = match opt_view(env.timeout_ms) {
        Some(s) => match crate::text::parse_unsigned(s, u64::MAX as nat) {
            Some(n) => n,
            None => 120_000,
        },
        None => 120_000,
    };
    crate::theater::config::clamped(parsed, 1000, 600_000)
}

fn first_set(a: &Option<String>, b: &Option<String>, c: &Option<String>) -> (r: Option<String>)
    ensures
        opt_view(r) == match opt_view(*a) {
            Some(t) => Some(t),
            None => match opt_view(*b) {
                Some(t) => Some(t),
                None => opt_view(*c),
            },
        },
{
    match a {
        Some(t) => Some(t.clone()),
        None => match b {
            Some(t) => Some(t.clone()),
            None => crate::resource::model::copy_opt_string(c),
        },
    }
}

/// The remote client configuration the environment gives; none when no
/// base URL is set or it normalises to nothing.
pub fn remote_llm_config(env: &RemoteLlmEnv) -> (r: Option<RemoteLlmConfig>)
    ensures
        match remote_base(*env) {
            None => r is None,
            Some(b) => if chat_url(trim(b)).len() == 0 {
                r is None
            } else {
                r matches Some(c) && c.chat_url@ == chat_url(trim(b)) && opt_view(c.bearer_token) == remote_bearer(
                    *env,
                ) && c.timeout_ms == remote_timeout_ms(*env)
            },
        },
{
    let base = match &env.remote_llm_url {
        Some(u) if crate::text::trim_chars(u.as_str()).len() > 0 => Some(u.clone()),
        _ => first_set(&env.openai_api_base, &env.openai_base_url, &None),
    };
    let base = match base {
        Some(b) => b,
        None => return None,
    };
    let t = crate::text::trim_str(base.as_str());
    let url = chat_completions_url(t.as_str());
    if crate::text::chars_of(url.as_str()).len() == 0 {
        return None;
    }
    let token = match first_set(&env.remote_llm_token, &env.openai_api_key, &env.cached_token) {
        Some(t) => {
            let tt = crate::text::trim_chars(t.as_str());
            if tt.len() > 0 {
                Some(crate::text::string_of(&tt))
            } else {
                None
            }
        },
        None => None,
    };
    let parsed: u64 = match &env.timeout_ms {
        Some(s) => match crate::text::parse_u64_chars(&crate::text::chars_of(s.as_str())) {
            Some(n) => n,
            None => 120_000,
        },
        None => 120_000,
    };
    let timeout_ms = if parsed < 1000 {
        1000
    } else if parsed > 600_000 {
        600_000
    } else {
        parsed
    };
    Some(RemoteLlmConfig { chat_url: url, bearer_token: token, timeout_ms })
}

/// The host of `endpoint` as `reqwest::Url::parse` and `host_str` read
/// it; none when it does not parse or has no host.
pub uninterp spec fn url_host(endpoint: Seq<char>) -> Option<Seq<char>>;

/// Calls `reqwest::Url::parse` and `Url::host_str`. Trusted: the result is
/// the parsed URL's host.
#[verifier::external_body]
fn endpoint_host(endpoint: &str) -> (r: Option<String>)
    ensures
        opt_view(r) == url_host(endpoint@),
{
    reqwest::Url::parse(endpoint).ok().and_then(|url| url.host_str().map(|h| h.to_string()))
}

/// A host as `reqwest::Url::host_str` serialises it that is on the local
/// machine: `localhost` (any ASCII case), the IPv6 loopback `[::1]`, or an
/// IPv4 address in `127.0.0.0/8`. The URL parser serialises IPv4 hosts as
/// four decimal numbers and refuses other all-numeric hosts, so a host of
/// digits and dots starting with `127.` is such an address.
pub open spec fn loopback_host(h: Seq<char>) -> bool {
    ||| eq_ignore_ascii_case(h, "localhost"@)
    ||| h == "[::1]"@
    ||| starts_with(h, "127."@) && forall|i: int| 0 <= i < h.len() ==> (('0' <= #[trigger] h[i] && h[i] <= '9') || h[i] == '.')
}

/// Whether an HTTP endpoint is on the local machine; an endpoint that does
/// not parse is not.
pub fn is_loopback_endpoint(endpoint: &str) -> (r: bool)
    ensures
        r == match url_host(endpoint@) {
            None => false,
            Some(h) => loopback_host(h),
        },
{
    match endpoint_host(endpoint) {
        None => false,
        Some(h) => {
            let cs = crate::text::chars_of(h.as_str());
            if crate::text::eq_ignore_case_vec(&cs, &crate::text::chars_of("localhost")) {
                return true;
            }
            if crate::text::seq_eq(&cs, &crate::text::chars_of("[::1]")) {
                return true;
            }
            if !crate::text::starts_with_vec(&cs, &crate::text::chars_of("127.")) {
                return false;
            }
            let mut i: usize = 0;
            while i < cs.len()
                invariant
                    i <= cs@.len(),
                    url_host(endpoint@) == Some(cs@),
                    !eq_ignore_ascii_case(cs@, "localhost"@),
                    cs@ != "[::1]"@,
                    forall|j: int| 0 <= j < i ==> (('0' <= #[trigger] cs@[j] && cs@[j] <= '9') || cs@[j] == '.'),
                decreases cs.len() - i,
            {
                let c = cs[i];
                if !(('0' <= c && c <= '9') || c == '.') {
                    assert(!loopback_host(cs@)) by {
                        assert(!(('0' <= cs@[i as int] && cs@[i as int] <= '9') || cs@[i as int] == '.'));
                    }
                    return false;
                }
                i = i + 1;
            }
            true
        },
    }
}

/// The chat URL of the managed local runtime at `base`; `loopback` says
/// whether that URL is on the local machine, which it must be.
pub fn local_runtime_chat_url(base: &str, loopback: bool) -> (r: Result<String, String>)
    ensures
        chat_url(base@).len() > 0 && loopback ==> (r matches Ok(u) && u@ == chat_url(base@)),
        !(chat_url(base@).len() > 0 && loopback) ==> (r matches Err(e) && e@
            == "local LLM runtime endpoint must use localhost/127.0.0.1/[::1]"@),
{
    let url = chat_completions_url(base);
    if crate::text::chars_of(url.as_str()).len() == 0 || !loopback {
        return Err(crate::text::owned("local LLM runtime endpoint must use localhost/127.0.0.1/[::1]"));
    }
    Ok(url)
}

} // verus!
