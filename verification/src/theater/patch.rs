//! Poke patch mode: a local prose micro-scene inserted after an anchor beat;
//! the official skeleton tail is kept.

use vstd::prelude::*;
use crate::text::{
    append, contains, decimal, eq_ignore_ascii_case, first_index_of, strip_leading, strip_trailing,
    take_at_most, trim,
};
use crate::theater::dto::{
    copy_lines, line_views, ScriptLineView, TheaterSceneRequest, TheaterScriptLine, TheaterTweak,
};
use crate::resource::model::opt_view;

verus! {

pub const MAX_PATCH_TEXT_LEN: usize = 500;
pub const MAX_PATCH_HINT_LEN: usize = 120;

/// Position of the first line with id `id`.
#[verifier::opaque]
pub open spec fn line_pos(s: Seq<ScriptLineView>, id: Seq<char>) -> Option<int> {
    if exists|i: int| 0 <= i < s.len() && s[i].id == id {
        Some(choose|i: int| 0 <= i < s.len() && s[i].id == id && forall|j: int| 0 <= j < i ==> s[j].id != id)
    } else {
        None
    }
}

fn find_line(v: &Vec<TheaterScriptLine>, id: &[char]) -> (r: Option<usize>)
    ensures
        r matches Some(i) ==> line_pos(line_views(v@), id@) == Some(i as int) && i < v@.len() && v@[i as int].id@
            == id@,
        r is None ==> line_pos(line_views(v@), id@) is None,
        r is None ==> forall|j: int| 0 <= j < v@.len() ==> v@[j].id@ != id@,
{
    reveal(line_pos);
    let ghost s = line_views(v@);
    let mut i: usize = 0;
    while i < v.len()
        invariant
            i <= v.len(),
            s == line_views(v@),
            forall|j: int| 0 <= j < i ==> s[j].id != id@,
            forall|j: int| 0 <= j < i ==> v@[j].id@ != id@,
        decreases v.len() - i,
    {
        let c = crate::text::chars_of(v[i].id.as_str());
        assert(s[i as int] == v@[i as int]@);
        if crate::text::seq_eq(&c, id) {
            reveal(line_pos);
            assert(s[i as int].id == id@);
            let ghost k = choose|k: int|
                0 <= k < s.len() && s[k].id == id@ && forall|j: int| 0 <= j < k ==> s[j].id != id@;
            assert(k == i);
            return Some(i);
        }
        i = i + 1;
    }
    None
}

/// The skeleton beats after the anchor beat (none when the anchor is not in
/// the skeleton).
pub open spec fn beats_after(base: Seq<ScriptLineView>, anchor: Seq<char>) -> Seq<ScriptLineView> {
    match line_pos(base, anchor) {
        Some(i) => base.subrange(i + 1, base.len() as int),
        None => Seq::empty(),
    }
}

pub fn beats_after_insert(base: &Vec<TheaterScriptLine>, anchor: &[char]) -> (r: Vec<TheaterScriptLine>)
    ensures
        line_views(r@) == beats_after(line_views(base@), anchor@),
{
    let n = base.len();
    match find_line(base, anchor) {
        Some(i) => copy_lines(base, i + 1, n),
        None => {
            let r: Vec<TheaterScriptLine> = Vec::new();
            assert(line_views(r@) =~= Seq::<ScriptLineView>::empty());
            r
        },
    }
}

/// Some patch line reuses the id of a prefix line.
pub open spec fn ids_conflict(prefix: Seq<ScriptLineView>, patch: Seq<ScriptLineView>) -> bool {
    exists|i: int, j: int| 0 <= i < prefix.len() && 0 <= j < patch.len() && prefix[i].id == patch[j].id
}

pub fn ripple_ids_conflict(prefix: &Vec<TheaterScriptLine>, patch: &Vec<TheaterScriptLine>) -> (r: bool)
    ensures
        r == ids_conflict(line_views(prefix@), line_views(patch@)),
{
    let mut j: usize = 0;
    while j < patch.len()
        invariant
            j <= patch.len(),
            forall|a: int, b: int|
                0 <= a < prefix@.len() && 0 <= b < j ==> prefix@[a].id@ != patch@[b].id@,
        decreases patch.len() - j,
    {
        let id = crate::text::chars_of(patch[j].id.as_str());
        match find_line(prefix, &id) {
            Some(i) => {
                assert(line_views(prefix@)[i as int].id == line_views(patch@)[j as int].id);
                return true;
            },
            None => {
                assert(forall|a: int| 0 <= a < prefix@.len() ==> prefix@[a].id@ != patch@[j as int].id@);
            },
        }
        j = j + 1;
    }
    proof {
        assert forall|a: int, b: int|
            0 <= a < prefix@.len() && 0 <= b < patch@.len() implies line_views(prefix@)[a].id != line_views(
            patch@,
        )[b].id by {
            assert(prefix@[a].id@ != patch@[b].id@);
        }
    }
    false
}

/// What a patch needs besides the request: the beats up to the anchor, the
/// skeleton tail, the canned patch, the tweak and its chip slug.
pub struct PatchContext {
    pub prefix_beats: Vec<TheaterScriptLine>,
    pub skeleton_tail: Vec<TheaterScriptLine>,
    pub canned_patch: Vec<TheaterScriptLine>,
    pub tweak: TheaterTweak,
    pub chip_slug: String,
}

/// The canned fallback lines between the anchor and the first tail beat.
pub open spec fn canned_patch(
    fallback: Seq<ScriptLineView>,
    anchor: Seq<char>,
    tail: Seq<ScriptLineView>,
) -> Seq<ScriptLineView> {
    match line_pos(fallback, anchor) {
        None => Seq::empty(),
        Some(a) => {
            let start = a + 1;
            if start >= fallback.len() {
                Seq::empty()
            } else if tail.len() == 0 {
                fallback.subrange(start, fallback.len() as int)
            } else {
                match line_pos(fallback, tail[0].id) {
                    None => fallback.subrange(start, fallback.len() as int),
                    Some(t) => if t <= start {
                        Seq::empty()
                    } else {
                        fallback.subrange(start, t)
                    },
                }
            }
        },
    }
}

fn extract_canned_patch(fallback: &Vec<TheaterScriptLine>, anchor: &[char], tail: &Vec<TheaterScriptLine>) -> (r: Vec<
    TheaterScriptLine,
>)
    ensures
        line_views(r@) == canned_patch(line_views(fallback@), anchor@, line_views(tail@)),
{
    let empty: Vec<TheaterScriptLine> = Vec::new();
    assert(line_views(empty@) =~= Seq::<ScriptLineView>::empty());
    let n = fallback.len();
    let a = match find_line(fallback, anchor) {
        None => return empty,
        Some(a) => a,
    };
    let start = a + 1;
    if start >= fallback.len() {
        return empty;
    }
    if tail.len() == 0 {
        return copy_lines(fallback, start, fallback.len());
    }
    let tail_id = crate::text::chars_of(tail[0].id.as_str());
    match find_line(fallback, &tail_id) {
        None => copy_lines(fallback, start, fallback.len()),
        Some(t) => {
            if t <= start {
                empty
            } else {
                copy_lines(fallback, start, t)
            }
        },
    }
}

/// The chip slug: the part of the first canned line's id before its first
/// `-` when non-empty, else `custom` for custom tweaks, else `poke`.
pub open spec fn chip_slug(kind: Seq<char>, canned: Seq<ScriptLineView>) -> Seq<char> {
    if canned.len() > 0 && first_index_of(canned[0].id, '-') is Some && first_index_of(canned[0].id, '-')->0 > 0 {
        canned[0].id.take(first_index_of(canned[0].id, '-')->0)
    } else if kind == "custom"@ {
        "custom"@
    } else {
        "poke"@
    }
}

fn infer_chip_slug(tweak: &TheaterTweak, canned: &Vec<TheaterScriptLine>) -> (r: String)
    ensures
        r@ == chip_slug(tweak.kind@, line_views(canned@)),
{
    if canned.len() > 0 {
        let id = crate::text::chars_of(canned[0].id.as_str());
        match crate::text::index_of(&id, '-') {
            Some(i) => {
                if i > 0 {
                    let p = crate::text::slice_vec(&id, 0, i);
                    return crate::text::string_of(&p);
                }
            },
            None => {},
        }
    }
    if crate::text::str_eq(tweak.kind.as_str(), "custom") {
        crate::text::owned("custom")
    } else {
        crate::text::owned("poke")
    }
}

/// The patch context of a request: its last tweak must name a non-blank
/// anchor present among the fallback beats.
pub open spec fn patch_context_of(
    tweaks_len: nat,
    anchor_raw: Seq<char>,
    base: Seq<ScriptLineView>,
    fallback: Seq<ScriptLineView>,
) -> Option<(Seq<ScriptLineView>, Seq<ScriptLineView>, Seq<ScriptLineView>)> {
    let anchor = trim(anchor_raw);
    if tweaks_len == 0 || anchor.len() == 0 {
        None
    } else {
        match line_pos(fallback, anchor) {
            None => None,
            Some(a) => {
                let tail = beats_after(base, anchor);
                Some((fallback.take(a + 1), tail, canned_patch(fallback, anchor, tail)))
            },
        }
    }
}

/// Splits a patch request into prefix, skeleton tail and canned patch
/// around the anchor of its last tweak.
pub fn resolve_patch_context(req: &TheaterSceneRequest) -> (r: Option<PatchContext>)
    ensures
        match patch_context_of(
            req.applied_tweaks@.len(),
            req.applied_tweaks@.last().insert_after_beat_id@,
            line_views(req.base_beats@),
            line_views(req.fallback_beats@),
        ) {
            None => r is None,
            Some((prefix, tail, canned)) => r matches Some(ctx) && {
                &&& line_views(ctx.prefix_beats@) == prefix
                &&& line_views(ctx.skeleton_tail@) == tail
                &&& line_views(ctx.canned_patch@) == canned
                &&& ctx.tweak.kind@ == req.applied_tweaks@.last().kind@
                &&& opt_view(ctx.tweak.chip_label) == opt_view(req.applied_tweaks@.last().chip_label)
                &&& ctx.tweak.drama_seed@ == req.applied_tweaks@.last().drama_seed@
                &&& ctx.tweak.insert_after_beat_id@ == req.applied_tweaks@.last().insert_after_beat_id@
                &&& ctx.tweak.lead_cast@ == req.applied_tweaks@.last().lead_cast@
                &&& ctx.chip_slug@ == chip_slug(req.applied_tweaks@.last().kind@, canned)
            },
        },
{
    let n = req.applied_tweaks.len();
    if n == 0 {
        return None;
    }
    let tweak = req.applied_tweaks[n - 1].copy();
    let anchor = crate::text::trim_chars(tweak.insert_after_beat_id.as_str());
    if anchor.len() == 0 {
        return None;
    }
    let skeleton_tail = beats_after_insert(&req.base_beats, &anchor);
    let n = req.fallback_beats.len();
    let a = match find_line(&req.fallback_beats, &anchor) {
        None => return None,
        Some(a) => a,
    };
    let prefix_beats = copy_lines(&req.fallback_beats, 0, a + 1);
    let canned = extract_canned_patch(&req.fallback_beats, &anchor, &skeleton_tail);
    let slug = infer_chip_slug(&tweak, &canned);
    assert(line_views(req.fallback_beats@).subrange(0, a + 1) =~= line_views(req.fallback_beats@).take(a + 1));
    Some(PatchContext { prefix_beats, skeleton_tail, canned_patch: canned, tweak, chip_slug: slug })
}

/// `b` when the lead is `b` in any ASCII case, else `a`.
pub open spec fn normalized_lead(lead: Seq<char>) -> Seq<char> {
    if eq_ignore_ascii_case(lead, "b"@) {
        "b"@
    } else {
        "a"@
    }
}

fn normalize_lead_cast(lead: &str) -> (r: &'static str)
    ensures
        r@ == normalized_lead(lead@),
{
    let l = crate::text::chars_of(lead);
    let b = crate::text::chars_of("b");
    if crate::text::eq_ignore_case_vec(&l, &b) {
        "b"
    } else {
        "a"
    }
}

/// The beats of a patched scene: prefix, patch, then the skeleton tail.
pub fn merge_patch_beats(
    prefix: &Vec<TheaterScriptLine>,
    patch: Vec<TheaterScriptLine>,
    tail: &Vec<TheaterScriptLine>,
) -> (r: Vec<TheaterScriptLine>)
    ensures
        line_views(r@) == line_views(prefix@) + line_views(patch@) + line_views(tail@),
{
    let mut out = copy_lines(prefix, 0, prefix.len());
    assert(line_views(prefix@).subrange(0, prefix@.len() as int) =~= line_views(prefix@));
    let mut p = patch;
    let ghost pv = line_views(p@);
    let mut rest = copy_lines(tail, 0, tail.len());
    assert(line_views(tail@).subrange(0, tail@.len() as int) =~= line_views(tail@));
    let ghost tv = line_views(rest@);
    let ghost ov = line_views(out@);
    out.append(&mut p);
    assert(line_views(out@) =~= ov + pv);
    let ghost ov2 = line_views(out@);
    out.append(&mut rest);
    assert(line_views(out@) =~= ov2 + tv);
    out
}

/// The beats of the canned fallback: prefix, canned patch, skeleton tail.
pub fn patch_fallback_beats(ctx: &PatchContext) -> (r: Vec<TheaterScriptLine>)
    ensures
        line_views(r@) == line_views(ctx.prefix_beats@) + line_views(ctx.canned_patch@) + line_views(
            ctx.skeleton_tail@,
        ),
{
    let canned = copy_lines(&ctx.canned_patch, 0, ctx.canned_patch.len());
    assert(line_views(ctx.canned_patch@).subrange(0, ctx.canned_patch@.len() as int) =~= line_views(
        ctx.canned_patch@,
    ));
    merge_patch_beats(&ctx.prefix_beats, canned, &ctx.skeleton_tail)
}

/// `s` split at every `c` (`str::split`): always at least one piece.
#[verifier::opaque]
pub open spec fn split_on(s: Seq<char>, c: char) -> Seq<Seq<char>>
    decreases s.len(),
{
    match first_index_of(s, c) {
        Some(i) => if 0 <= i < s.len() {
            seq![s.take(i)] + split_on(s.skip(i + 1), c)
        } else {
            seq![s]
        },
        None => seq![s],
    }
}

/// What a patch line parser needs to know about the request.
pub struct PatchParse {
    pub fallback_name: Seq<char>,
    pub name_a: Seq<char>,
    pub name_b: Seq<char>,
    pub lead: Seq<char>,
    pub id_prefix: Seq<char>,
    pub max_lines: nat,
}

/// A stage direction row: wrapped in round brackets.
pub open spec fn is_stage_row(row: Seq<char>) -> bool {
    row.len() > 0 && row[0] == '(' && row.last() == ')'
}

/// The stage hint of a stage row: brackets stripped, at most
/// `MAX_PATCH_HINT_LEN` characters.
pub open spec fn stage_hint_of(row: Seq<char>) -> Seq<char> {
    take_at_most(strip_trailing(strip_leading(row, '('), ')'), MAX_PATCH_HINT_LEN as nat)
}

/// Speaker and text of a dialogue row: split at the first full-width colon,
/// else the first ASCII colon, else the whole row spoken by the fallback.
pub open spec fn name_and_text(row: Seq<char>, fallback: Seq<char>) -> (Seq<char>, Seq<char>) {
    match first_index_of(row, '：') {
        Some(i) => (trim(row.take(i)), trim(row.skip(i + 1))),
        None => match first_index_of(row, ':') {
            Some(i) => (trim(row.take(i)), trim(row.skip(i + 1))),
            None => (fallback, row),
        },
    }
}

/// The cast of a speaker: `a` or `b` when the name equals or contains that
/// cast member's (non-empty) name, else the lead.
pub open spec fn cast_for_name(name: Seq<char>, na: Seq<char>, nb: Seq<char>, lead: Seq<char>) -> Seq<char> {
    if name == na || (na.len() > 0 && contains(name, na)) {
        "a"@
    } else if name == nb || (nb.len() > 0 && contains(name, nb)) {
        "b"@
    } else {
        lead
    }
}

/// One trimmed row added to the parsed lines.
#[verifier::opaque]
pub open spec fn patch_step(lines: Seq<ScriptLineView>, row: Seq<char>, p: PatchParse) -> Seq<ScriptLineView> {
    if row.len() == 0 || lines.len() >= p.max_lines {
        lines
    } else if is_stage_row(row) {
        if lines.len() == 0 {
            lines
        } else {
            let last = lines.last();
            lines.update(
                lines.len() - 1,
                ScriptLineView {
                    id: last.id,
                    cast: last.cast,
                    name: last.name,
                    text: last.text,
                    stage_hint: Some(stage_hint_of(row)),
                    emotion: last.emotion,
                },
            )
        }
    } else {
        let (name, text) = name_and_text(row, p.fallback_name);
        if text.len() == 0 {
            lines
        } else {
            lines.push(
                ScriptLineView {
                    id: p.id_prefix + seq!['-'] + decimal(lines.len()),
                    cast: cast_for_name(name, p.name_a, p.name_b, p.lead),
                    name: name,
                    text: take_at_most(text, MAX_PATCH_TEXT_LEN as nat),
                    stage_hint: None,
                    emotion: None,
                },
            )
        }
    }
}

/// The lines parsed from `rows`, in order.
pub open spec fn patch_lines(rows: Seq<Seq<char>>, p: PatchParse) -> Seq<ScriptLineView>
    decreases rows.len(),
{
    if rows.len() == 0 {
        Seq::empty()
    } else {
        patch_step(patch_lines(rows.drop_last(), p), trim(rows.last()), p)
    }
}

/// The parser's view of a request.
pub open spec fn patch_parse_of(
    name_a: Seq<char>,
    name_b: Seq<char>,
    lead: Seq<char>,
    chip_slug: Seq<char>,
    max_lines: nat,
) -> PatchParse {
    PatchParse {
        fallback_name: if lead == "b"@ { trim(name_b) } else { trim(name_a) },
        name_a: trim(name_a),
        name_b: trim(name_b),
        lead: lead,
        id_prefix: "patch-"@ + chip_slug,
        max_lines: max_lines,
    }
}

/// What the prose parser returns: none for blank output or when no line
/// survives.
pub open spec fn parsed_patch(raw: Seq<char>, p: PatchParse) -> Option<Seq<ScriptLineView>> {
    let t = trim(raw);
    if t.len() == 0 {
        None
    } else {
        let lines = patch_lines(split_on(t, '\n'), p);
        if lines.len() == 0 {
            None
        } else {
            Some(lines)
        }
    }
}

proof fn lemma_split_next(t: Seq<char>, pos: int, i: int)
    requires
        0 <= pos <= t.len(),
        first_index_of(t.skip(pos), '\n') == Some(i),
        0 <= i < t.len() - pos,
    ensures
        split_on(t.skip(pos), '\n') == seq![t.skip(pos).take(i)] + split_on(t.skip(pos + i + 1), '\n'),
{
    reveal(split_on);
    assert(t.skip(pos).skip(i + 1) =~= t.skip(pos + i + 1));
}

proof fn lemma_split_last(t: Seq<char>)
    requires
        first_index_of(t, '\n') is None,
    ensures
        split_on(t, '\n') == seq![t],
{
    reveal(split_on);
}

proof fn lemma_patch_lines_push(done: Seq<Seq<char>>, row: Seq<char>, p: PatchParse)
    ensures
        patch_lines(done.push(row), p) == patch_step(patch_lines(done, p), trim(row), p),
{
    assert(done.push(row).drop_last() =~= done);
}

struct PatchParseExec {
    fallback_name: Vec<char>,
    name_a: Vec<char>,
    name_b: Vec<char>,
    lead: Vec<char>,
    id_prefix: Vec<char>,
    max_lines: usize,
}

impl PatchParseExec {
    spec fn view(&self) -> PatchParse {
        PatchParse {
            fallback_name: self.fallback_name@,
            name_a: self.name_a@,
            name_b: self.name_b@,
            lead: self.lead@,
            id_prefix: self.id_prefix@,
            max_lines: self.max_lines as nat,
        }
    }
}

fn cast_for_name_exec(name: &[char], p: &PatchParseExec) -> (r: Vec<char>)
    ensures
        r@ == cast_for_name(name@, p.name_a@, p.name_b@, p.lead@),
{
    if crate::text::seq_eq(name, &p.name_a) || (p.name_a.len() > 0 && crate::text::contains_vec(name, &p.name_a)) {
        crate::text::chars_of("a")
    } else if crate::text::seq_eq(name, &p.name_b) || (p.name_b.len() > 0 && crate::text::contains_vec(name, &p.name_b)) {
        crate::text::chars_of("b")
    } else {
        crate::text::slice_vec(&p.lead, 0, p.lead.len())
    }
}

fn name_and_text_exec(row: &[char], fallback: &[char]) -> (r: (Vec<char>, Vec<char>))
    ensures
        (r.0@, r.1@) == name_and_text(row@, fallback@),
{
    let k = match crate::text::index_of(row, '：') {
        Some(i) => Some(i),
        None => crate::text::index_of(row, ':'),
    };
    match k {
        Some(i) => {
            let n = crate::text::slice_vec(row, 0, i);
            let t = crate::text::slice_vec(row, i + 1, row.len());
            assert(row@.take(i as int) =~= n@);
            assert(row@.skip(i + 1) =~= t@);
            (crate::text::trim_vec(&n), crate::text::trim_vec(&t))
        },
        None => {
            let f = crate::text::slice_vec(fallback, 0, fallback.len());
            let r = crate::text::slice_vec(row, 0, row.len());
            assert(f@ =~= fallback@);
            assert(r@ =~= row@);
            (f, r)
        },
    }
}

fn patch_step_exec(lines: &mut Vec<TheaterScriptLine>, row: &[char], p: &PatchParseExec)
    ensures
        line_views(final(lines)@) == patch_step(line_views(old(lines)@), row@, p.view()),
{
    reveal(patch_step);
    let n = lines.len();
    if row.len() == 0 || n >= p.max_lines {
        return;
    }
    if row[0] == '(' && row[row.len() - 1] == ')' {
        if n == 0 {
            return;
        }
        let ghost before = line_views(lines@);
        let mut last = lines.pop().unwrap();
        let s1 = crate::text::strip_leading_vec(row, '(');
        let s2 = crate::text::strip_trailing_vec(&s1, ')');
        let h = crate::text::take_vec(&s2, MAX_PATCH_HINT_LEN);
        last.stage_hint = Some(crate::text::string_of(&h));
        lines.push(last);
        assert(line_views(lines@) =~= patch_step(before, row@, p.view()));
        return;
    }
    let (name, text) = name_and_text_exec(row, &p.fallback_name);
    if text.len() == 0 {
        return;
    }
    let mut id = crate::text::slice_vec(&p.id_prefix, 0, p.id_prefix.len());
    id.push('-');
    let digits = crate::text::decimal_string(n as u64);
    let ghost idv = id@;
    let mut d2 = digits;
    id.append(&mut d2);
    assert(id@ =~= p.id_prefix@ + seq!['-'] + decimal(n as nat));
    let cast = cast_for_name_exec(&name, p);
    let t = crate::text::take_vec(&text, MAX_PATCH_TEXT_LEN);
    let ghost before = line_views(lines@);
    let line = TheaterScriptLine {
        id: crate::text::string_of(&id),
        cast: crate::text::string_of(&cast),
        name: crate::text::string_of(&name),
        text: crate::text::string_of(&t),
        stage_hint: None,
        emotion: None,
    };
    lines.push(line);
    assert(line_views(lines@) =~= patch_step(before, row@, p.view()));
}

/// Parses director prose into patch lines: `name：text` rows (or `name:`),
/// bracketed stage rows attached to the previous line, at most `max_lines`
/// lines with ids `patch-{chip_slug}-{n}`.
#[verifier::spinoff_prover]
#[verifier::rlimit(40)]
pub fn parse_patch_prose(
    raw: &str,
    req: &TheaterSceneRequest,
    lead_cast: &str,
    chip_slug: &str,
    max_lines: usize,
) -> (r: Option<Vec<TheaterScriptLine>>)
    ensures
        match parsed_patch(
            raw@,
            patch_parse_of(req.cast_a.name@, req.cast_b.name@, lead_cast@, chip_slug@, max_lines as nat),
        ) {
            None => r is None,
            Some(lines) => r matches Some(v) && line_views(v@) == lines,
        },
{
    let t = crate::text::trim_chars(raw);
    if t.len() == 0 {
        return None;
    }
    let name_a = crate::text::trim_chars(req.cast_a.name.as_str());
    let name_b = crate::text::trim_chars(req.cast_b.name.as_str());
    let fallback_name = if crate::text::str_eq(lead_cast, "b") {
        crate::text::slice_vec(&name_b, 0, name_b.len())
    } else {
        crate::text::slice_vec(&name_a, 0, name_a.len())
    };
    assert(name_a@.subrange(0, name_a@.len() as int) =~= name_a@);
    assert(name_b@.subrange(0, name_b@.len() as int) =~= name_b@);
    let mut id_prefix = crate::text::chars_of("patch-");
    let mut slug = crate::text::chars_of(chip_slug);
    let ghost ip = id_prefix@;
    let ghost sl = slug@;
    id_prefix.append(&mut slug);
    assert(id_prefix@ =~= "patch-"@ + chip_slug@);
    let p = PatchParseExec {
        fallback_name,
        name_a,
        name_b,
        lead: crate::text::chars_of(lead_cast),
        id_prefix,
        max_lines,
    };
    proof {
        reveal_strlit("patch-");
        reveal_strlit("b");
    }
    assert(p.view() == patch_parse_of(req.cast_a.name@, req.cast_b.name@, lead_cast@, chip_slug@, max_lines as nat));
    let mut lines: Vec<TheaterScriptLine> = Vec::new();
    let mut pos: usize = 0;
    let ghost mut done: Seq<Seq<char>> = Seq::empty();
    assert(t@.skip(0) =~= t@);
    assert(line_views(lines@) =~= Seq::<ScriptLineView>::empty());
    loop
        invariant_except_break
            pos <= t.len(),
            split_on(t@, '\n') == done + split_on(t@.skip(pos as int), '\n'),
            line_views(lines@) == patch_lines(done, p.view()),
        ensures
            line_views(lines@) == patch_lines(split_on(t@, '\n'), p.view()),
        decreases t.len() - pos,
    {
        let rest = crate::text::slice_vec(&t, pos, t.len());
        assert(rest@ =~= t@.skip(pos as int));
        match crate::text::index_of(&rest, '\n') {
            Some(i) => {
                let row = crate::text::slice_vec(&rest, 0, i);
                let tr = crate::text::trim_vec(&row);
                patch_step_exec(&mut lines, &tr, &p);
                proof {
                    assert(row@ =~= t@.skip(pos as int).take(i as int));
                    lemma_split_next(t@, pos as int, i as int);
                    lemma_patch_lines_push(done, row@, p.view());
                    assert(split_on(t@, '\n') =~= done.push(row@) + split_on(t@.skip(pos + i + 1), '\n'));
                    done = done.push(row@);
                }
                pos = pos + i + 1;
            },
            None => {
                let tr = crate::text::trim_vec(&rest);
                patch_step_exec(&mut lines, &tr, &p);
                proof {
                    lemma_split_last(t@.skip(pos as int));
                    lemma_patch_lines_push(done, rest@, p.view());
                    assert(split_on(t@, '\n') =~= done.push(rest@));
                }
                break;
            },
        }
    }
    if lines.len() == 0 {
        None
    } else {
        Some(lines)
    }
}

/// Parses `raw` and merges it into the context unless nothing parsed or a
/// patch id collides with a prefix id.
pub open spec fn merged_patch(
    prefix: Seq<ScriptLineView>,
    tail: Seq<ScriptLineView>,
    parsed: Option<Seq<ScriptLineView>>,
) -> Option<Seq<ScriptLineView>> {
    match parsed {
        None => None,
        Some(patch) => if patch.len() == 0 || ids_conflict(prefix, patch) {
            None
        } else {
            Some(prefix + patch + tail)
        },
    }
}

/// The scene the director output `raw` gives: its patch lines merged
/// between prefix and skeleton tail, when they parse and keep ids unique.
pub open spec fn patch_merge_outcome(
    ctx: PatchContext,
    req: TheaterSceneRequest,
    raw: Seq<char>,
    max_lines: nat,
) -> Option<Seq<ScriptLineView>> {
    merged_patch(
        line_views(ctx.prefix_beats@),
        line_views(ctx.skeleton_tail@),
        parsed_patch(
            raw,
            patch_parse_of(
                req.cast_a.name@,
                req.cast_b.name@,
                normalized_lead(ctx.tweak.lead_cast@),
                ctx.chip_slug@,
                max_lines,
            ),
        ),
    )
}

/// Parses director output and merges it between prefix and skeleton tail.
pub fn try_merge_patch(ctx: &PatchContext, req: &TheaterSceneRequest, raw: &str, max_lines: usize) -> (r: Option<
    Vec<TheaterScriptLine>,
>)
    ensures
        match patch_merge_outcome(*ctx, *req, raw@, max_lines as nat) {
            None => r is None,
            Some(beats) => r matches Some(v) && line_views(v@) == beats,
        },
{
    let lead = normalize_lead_cast(ctx.tweak.lead_cast.as_str());
    let patch = match parse_patch_prose(raw, req, lead, ctx.chip_slug.as_str(), max_lines) {
        None => return None,
        Some(p) => p,
    };
    if patch.len() == 0 {
        return None;
    }
    if ripple_ids_conflict(&ctx.prefix_beats, &patch) {
        return None;
    }
    Some(merge_patch_beats(&ctx.prefix_beats, patch, &ctx.skeleton_tail))
}

/// A beat as a prompt line: `name：text`, both trimmed.
pub open spec fn beat_text(l: ScriptLineView) -> Seq<char> {
    trim(l.name) + "："@ + trim(l.text)
}

/// The last `n` beats (all when fewer).
pub open spec fn last_beats(s: Seq<ScriptLineView>, n: nat) -> Seq<ScriptLineView> {
    if s.len() <= n {
        s
    } else {
        s.skip(s.len() - n)
    }
}

pub open spec fn beat_texts(s: Seq<ScriptLineView>) -> Seq<Seq<char>> {
    s.map_values(|l: ScriptLineView| beat_text(l))
}

/// The recent dialogue block: the last four prefix beats.
pub open spec fn context_block(prefix: Seq<ScriptLineView>) -> Seq<char> {
    crate::text::join_lines(beat_texts(last_beats(prefix, 4)))
}

/// The style examples: the last two prefix beats and the first canned one.
pub open spec fn style_examples(prefix: Seq<ScriptLineView>, canned: Seq<ScriptLineView>) -> Seq<char> {
    crate::text::join_lines(
        beat_texts(last_beats(prefix, 2)) + if canned.len() > 0 {
            seq![beat_text(canned[0])]
        } else {
            Seq::empty()
        },
    )
}

fn beat_text_exec(l: &TheaterScriptLine) -> (r: String)
    ensures
        r@ == beat_text(l@),
{
    let mut s = crate::text::trim_str(l.name.as_str());
    append(&mut s, "：");
    let t = crate::text::trim_str(l.text.as_str());
    append(&mut s, t.as_str());
    s
}

/// Prompt lines of the beats `v[start..]`.
fn beat_texts_from(v: &Vec<TheaterScriptLine>, start: usize) -> (r: Vec<String>)
    requires
        start <= v@.len(),
    ensures
        crate::text::views(r@) == beat_texts(line_views(v@).skip(start as int)),
{
    let mut r: Vec<String> = Vec::new();
    let mut i = start;
    while i < v.len()
        invariant
            start <= i <= v@.len(),
            crate::text::views(r@) == beat_texts(line_views(v@).subrange(start as int, i as int)),
        decreases v.len() - i,
    {
        let ghost prev = r@;
        let b = beat_text_exec(&v[i]);
        r.push(b);
        assert(crate::text::views(r@) =~= crate::text::views(prev).push(b@));
        i = i + 1;
        assert(beat_texts(line_views(v@).subrange(start as int, i as int)) =~= beat_texts(
            line_views(v@).subrange(start as int, i - 1),
        ).push(beat_text(v@[i - 1]@)));
    }
    assert(line_views(v@).subrange(start as int, v@.len() as int) =~= line_views(v@).skip(start as int));
    r
}

fn last_start(len: usize, n: usize) -> (r: usize)
    ensures
        r <= len,
        r == if len <= n { 0 } else { len - n },
{
    if len <= n {
        0
    } else {
        len - n
    }
}

fn context_block_exec(prefix: &Vec<TheaterScriptLine>) -> (r: String)
    ensures
        r@ == context_block(line_views(prefix@)),
{
    let st = last_start(prefix.len(), 4);
    let lines = beat_texts_from(prefix, st);
    assert(line_views(prefix@).skip(st as int) =~= last_beats(line_views(prefix@), 4));
    crate::text::join_with_newline(&lines)
}

fn build_style_examples_block(prefix: &Vec<TheaterScriptLine>, canned: &Vec<TheaterScriptLine>) -> (r: String)
    ensures
        r@ == style_examples(line_views(prefix@), line_views(canned@)),
{
    let st = last_start(prefix.len(), 2);
    let mut lines = beat_texts_from(prefix, st);
    assert(line_views(prefix@).skip(st as int) =~= last_beats(line_views(prefix@), 2));
    let ghost before = crate::text::views(lines@);
    if canned.len() > 0 {
        let b = beat_text_exec(&canned[0]);
        lines.push(b);
        assert(crate::text::views(lines@) =~= before + seq![beat_text(line_views(canned@)[0])]);
    } else {
        assert(crate::text::views(lines@) =~= before + Seq::<Seq<char>>::empty());
    }
    crate::text::join_with_newline(&lines)
}

/// What the patch prompt is built from.
pub struct PatchPromptSpec {
    pub speaker: Seq<char>,
    pub partner: Seq<char>,
    pub lead: Seq<char>,
    pub chip_label: Seq<char>,
    pub drama_seed: Seq<char>,
    pub guardrails: Seq<char>,
    pub name_a: Seq<char>,
    pub name_b: Seq<char>,
    pub persona_a: Seq<char>,
    pub persona_b: Seq<char>,
    pub max_lines: nat,
    pub partner_reply: bool,
    pub variant_index: u8,
    pub strict: bool,
    pub context: Seq<char>,
    pub style: Seq<char>,
}

pub open spec fn prompt_head(i: PatchPromptSpec) -> Seq<Seq<char>> {
    let p0 = seq![
        crate::theater::guardrails::PATCH_TITLE@,
        "这是一幕双人日常戏。本事件主角是「"@ + i.speaker + "」（cast "@ + i.lead + "），须承担事件主体与第一反应；对手戏是「"@
            + i.partner + "」。"@,
        "观众刚刚按下了剧情转折「"@ + i.chip_label + "」。"@,
    ];
    let p1 = if i.drama_seed.len() > 0 { p0.push("本场戏剧目标："@ + i.drama_seed) } else { p0 };
    let p2 = p1.push(i.guardrails);
    let p3 = if i.persona_a.len() > 0 || i.persona_b.len() > 0 {
        let q0 = p2.push(Seq::empty()).push("【人设摘要 · 必须贴合】"@);
        let q1 = if i.persona_a.len() > 0 { q0.push(i.name_a + "（cast a）："@ + i.persona_a) } else { q0 };
        if i.persona_b.len() > 0 { q1.push(i.name_b + "（cast b）："@ + i.persona_b) } else { q1 }
    } else {
        p2
    };
    p3
}

pub open spec fn prompt_rules(i: PatchPromptSpec) -> Seq<Seq<char>> {
    let r0 = seq![
        Seq::empty(),
        "【演出要求】"@,
        "· 写出「"@ + i.speaker + "」接下来的 1–"@ + decimal(i.max_lines) + " 句台词，每句一行，格式：角色名：台词"@,
    ];
    let r1 = if i.partner_reply {
        r0.push(
            "· 「"@ + i.partner
                + "」若回句，须带与主角形成性格反差的反应（吐槽/关心/嘴硬/害羞等），禁止礼貌式「好的」「没事吧」敷衍接话；最多回一句，仍算在上述句数内"@,
        )
    } else {
        r0
    };
    let r2 = r1 + seq![
        "· 至少一句带上动作或神态，单独成行用括号包住，例：(耳朵红了)"@,
        "· 紧接上文语气，口语化、贴合人设；不要旁白、解说、JSON 或引号"@,
        "· 总字数 100 字以内"@,
        "· 禁止把本事件安到「"@ + i.partner + "」身上；主角必须是「"@ + i.speaker + "」"@,
    ];
    let r3 = if i.variant_index == 1 {
        r2.push("· 这是第二版候选：同一事件的不同性格演绎——换情绪走向与措辞，勿换词复述第一版，勿重复同一情节节拍"@)
    } else {
        r2
    };
    if i.strict { r3.push("· 【严格模式】只输出对白行与括号动作行，不要任何前缀说明"@) } else { r3 }
}

pub open spec fn prompt_tail(i: PatchPromptSpec) -> Seq<Seq<char>> {
    seq![
        Seq::empty(),
        "【刚刚发生的对白】"@,
        if i.context.len() == 0 { "（无）"@ } else { i.context },
        Seq::empty(),
        "【可参考的情绪走向（仅作灵感，请改写出新意，禁止照抄）】"@,
        if i.style.len() == 0 { "（自由发挥）"@ } else { i.style },
    ]
}

/// The lines of the patch prompt, joined with newlines.
pub open spec fn patch_prompt(i: PatchPromptSpec) -> Seq<char> {
    crate::text::join_lines(prompt_head(i) + prompt_rules(i) + prompt_tail(i))
}

/// The chip label of a tweak, `剧情转折` when absent or empty.
pub open spec fn chip_label_of(label: Option<Seq<char>>) -> Seq<char> {
    match label {
        Some(l) => if l.len() > 0 { l } else { "剧情转折"@ },
        None => "剧情转折"@,
    }
}

pub open spec fn patch_prompt_spec(
    req: &TheaterSceneRequest,
    ctx: &PatchContext,
    max_lines: nat,
    strict: bool,
    persona_a: Seq<char>,
    persona_b: Seq<char>,
    variant_index: u8,
    partner_reply: bool,
) -> PatchPromptSpec {
    let lead = normalized_lead(ctx.tweak.lead_cast@);
    let na = trim(req.cast_a.name@);
    let nb = trim(req.cast_b.name@);
    PatchPromptSpec {
        speaker: if lead == "b"@ { nb } else { na },
        partner: if lead == "b"@ { na } else { nb },
        lead: lead,
        chip_label: chip_label_of(opt_view(ctx.tweak.chip_label)),
        drama_seed: trim(ctx.tweak.drama_seed@),
        guardrails: seq!['\n'] + crate::theater::guardrails::FULL_CORE@ + crate::theater::guardrails::tone_hint(
            crate::theater::guardrails::resolved_scene(opt_view(req.theater_scene)),
        ),
        name_a: na,
        name_b: nb,
        persona_a: persona_a,
        persona_b: persona_b,
        max_lines: max_lines,
        partner_reply: partner_reply,
        variant_index: variant_index,
        strict: strict,
        context: context_block(line_views(ctx.prefix_beats@)),
        style: style_examples(line_views(ctx.prefix_beats@), line_views(ctx.canned_patch@)),
    }
}

fn cat(a: &str, b: &str) -> (r: String)
    ensures
        r@ == a@ + b@,
{
    let mut s = crate::text::owned(a);
    append(&mut s, b);
    s
}

fn push_part(parts: &mut Vec<String>, s: String)
    ensures
        crate::text::views(final(parts)@) == crate::text::views(old(parts)@).push(s@),
{
    let ghost prev = parts@;
    parts.push(s);
    assert(crate::text::views(parts@) =~= crate::text::views(prev).push(s@));
}

fn opt_as_str(o: &Option<String>) -> (r: Option<&str>)
    ensures
        crate::theater::guardrails::opt_str(r) == opt_view(*o),
{
    match o {
        Some(s) => Some(s.as_str()),
        None => None,
    }
}

fn push_prompt_head(
    parts: &mut Vec<String>,
    Ghost(spec): Ghost<PatchPromptSpec>,
    speaker: &str,
    partner: &str,
    lead: &str,
    chip_label: &str,
    seed: &str,
    guardrails: String,
    na: &str,
    nb: &str,
    persona_a: &str,
    persona_b: &str,
)
    requires
        speaker@ == spec.speaker,
        partner@ == spec.partner,
        lead@ == spec.lead,
        chip_label@ == spec.chip_label,
        seed@ == spec.drama_seed,
        guardrails@ == spec.guardrails,
        na@ == spec.name_a,
        nb@ == spec.name_b,
        persona_a@ == spec.persona_a,
        persona_b@ == spec.persona_b,
    ensures
        crate::text::views(final(parts)@) == crate::text::views(old(parts)@) + prompt_head(spec),
{
    let ghost start = crate::text::views(parts@);
    push_part(parts, crate::text::owned(crate::theater::guardrails::PATCH_TITLE));
    let mut l1 = cat("这是一幕双人日常戏。本事件主角是「", speaker);
    append(&mut l1, "」（cast ");
    append(&mut l1, lead);
    append(&mut l1, "），须承担事件主体与第一反应；对手戏是「");
    append(&mut l1, partner);
    append(&mut l1, "」。");
    push_part(parts, l1);
    let mut l2 = cat("观众刚刚按下了剧情转折「", chip_label);
    append(&mut l2, "」。");
    push_part(parts, l2);
    if seed.unicode_len() > 0 {
        push_part(parts, cat("本场戏剧目标：", seed));
    }
    push_part(parts, guardrails);
    let pa = persona_a.unicode_len() > 0;
    let pb = persona_b.unicode_len() > 0;
    if pa || pb {
        push_part(parts, String::new());
        push_part(parts, crate::text::owned("【人设摘要 · 必须贴合】"));
        if pa {
            let mut s = cat(na, "（cast a）：");
            append(&mut s, persona_a);
            push_part(parts, s);
        }
        if pb {
            let mut s = cat(nb, "（cast b）：");
            append(&mut s, persona_b);
            push_part(parts, s);
        }
    }
    assert(crate::text::views(parts@) =~= start + prompt_head(spec));
}

fn push_prompt_rules(
    parts: &mut Vec<String>,
    Ghost(spec): Ghost<PatchPromptSpec>,
    speaker: &str,
    partner: &str,
    max_lines: usize,
    partner_reply: bool,
    variant_index: u8,
    strict: bool,
)
    requires
        speaker@ == spec.speaker,
        partner@ == spec.partner,
        max_lines as nat == spec.max_lines,
        partner_reply == spec.partner_reply,
        variant_index == spec.variant_index,
        strict == spec.strict,
    ensures
        crate::text::views(final(parts)@) == crate::text::views(old(parts)@) + prompt_rules(spec),
{
    let ghost start = crate::text::views(parts@);
    push_part(parts, String::new());
    push_part(parts, crate::text::owned("【演出要求】"));
    let mut l3 = cat("· 写出「", speaker);
    append(&mut l3, "」接下来的 1–");
    let digits = crate::text::decimal_string(max_lines as u64);
    crate::text::append_chars(&mut l3, &digits);
    append(&mut l3, " 句台词，每句一行，格式：角色名：台词");
    push_part(parts, l3);
    if partner_reply {
        let mut s = cat("· 「", partner);
        append(
            &mut s,
            "」若回句，须带与主角形成性格反差的反应（吐槽/关心/嘴硬/害羞等），禁止礼貌式「好的」「没事吧」敷衍接话；最多回一句，仍算在上述句数内",
        );
        push_part(parts, s);
    }
    push_part(parts, crate::text::owned("· 至少一句带上动作或神态，单独成行用括号包住，例：(耳朵红了)"));
    push_part(parts, crate::text::owned("· 紧接上文语气，口语化、贴合人设；不要旁白、解说、JSON 或引号"));
    push_part(parts, crate::text::owned("· 总字数 100 字以内"));
    let mut l4 = cat("· 禁止把本事件安到「", partner);
    append(&mut l4, "」身上；主角必须是「");
    append(&mut l4, speaker);
    append(&mut l4, "」");
    push_part(parts, l4);
    if variant_index == 1 {
        push_part(
            parts,
            crate::text::owned("· 这是第二版候选：同一事件的不同性格演绎——换情绪走向与措辞，勿换词复述第一版，勿重复同一情节节拍"),
        );
    }
    if strict {
        push_part(parts, crate::text::owned("· 【严格模式】只输出对白行与括号动作行，不要任何前缀说明"));
    }
    assert(crate::text::views(parts@) =~= start + prompt_rules(spec));
}

fn push_prompt_tail(parts: &mut Vec<String>, Ghost(spec): Ghost<PatchPromptSpec>, context: String, style: String)
    requires
        context@ == spec.context,
        style@ == spec.style,
    ensures
        crate::text::views(final(parts)@) == crate::text::views(old(parts)@) + prompt_tail(spec),
{
    let ghost start = crate::text::views(parts@);
    push_part(parts, String::new());
    push_part(parts, crate::text::owned("【刚刚发生的对白】"));
    if context.as_str().unicode_len() == 0 {
        push_part(parts, crate::text::owned("（无）"));
    } else {
        push_part(parts, context);
    }
    push_part(parts, String::new());
    push_part(parts, crate::text::owned("【可参考的情绪走向（仅作灵感，请改写出新意，禁止照抄）】"));
    if style.as_str().unicode_len() == 0 {
        push_part(parts, crate::text::owned("（自由发挥）"));
    } else {
        push_part(parts, style);
    }
    assert(crate::text::views(parts@) =~= start + prompt_tail(spec));
}

/// The director prompt for a poke patch. `partner_reply` says whether the
/// partner may answer with one line.
pub fn build_patch_prompt(
    req: &TheaterSceneRequest,
    ctx: &PatchContext,
    max_lines: usize,
    strict: bool,
    persona_a: &str,
    persona_b: &str,
    variant_index: u8,
    partner_reply: bool,
) -> (r: String)
    ensures
        r@ == patch_prompt(
            patch_prompt_spec(req, ctx, max_lines as nat, strict, persona_a@, persona_b@, variant_index, partner_reply),
        ),
{
    let ghost spec = patch_prompt_spec(
        req,
        ctx,
        max_lines as nat,
        strict,
        persona_a@,
        persona_b@,
        variant_index,
        partner_reply,
    );
    let lead = normalize_lead_cast(ctx.tweak.lead_cast.as_str());
    let na = crate::text::trim_str(req.cast_a.name.as_str());
    let nb = crate::text::trim_str(req.cast_b.name.as_str());
    let is_b = crate::text::str_eq(lead, "b");
    let speaker = if is_b { nb.as_str() } else { na.as_str() };
    let partner = if is_b { na.as_str() } else { nb.as_str() };
    let chip_label: &str = match &ctx.tweak.chip_label {
        Some(l) => if l.as_str().unicode_len() > 0 { l.as_str() } else { "剧情转折" },
        None => "剧情转折",
    };
    let seed = crate::text::trim_str(ctx.tweak.drama_seed.as_str());
    let context = context_block_exec(&ctx.prefix_beats);
    let style = build_style_examples_block(&ctx.prefix_beats, &ctx.canned_patch);
    assert(speaker@ == spec.speaker && partner@ == spec.partner && lead@ == spec.lead);
    assert(chip_label@ == spec.chip_label);

    let mut parts: Vec<String> = Vec::new();
    let g = crate::theater::guardrails::drama_guardrails_full(opt_as_str(&req.theater_scene));
    push_prompt_head(&mut parts, Ghost(spec), speaker, partner, lead, chip_label, seed.as_str(), g, na.as_str(), nb.as_str(), persona_a, persona_b);
    assert(crate::text::views(parts@) =~= Seq::<Seq<char>>::empty() + prompt_head(spec));
    push_prompt_rules(&mut parts, Ghost(spec), speaker, partner, max_lines, partner_reply, variant_index, strict);
    push_prompt_tail(&mut parts, Ghost(spec), context, style);
    assert(crate::text::views(parts@) =~= prompt_head(spec) + prompt_rules(spec) + prompt_tail(spec));
    crate::text::join_with_newline(&parts)
}

/// What the patch scene does after a director attempt.
pub enum PatchSceneAction {
    /// The merged scene.
    Finish(Vec<TheaterScriptLine>),
    /// Ask the director again with the strict prompt.
    RetryStrict,
    /// The canned fork between prefix and skeleton tail.
    Fallback(Vec<TheaterScriptLine>),
}

/// The next step of a patch scene after the director answered `reply`
/// (none when the call failed or timed out) to the normal or the `strict`
/// prompt: the merged scene when it parses, one strict retry after the
/// normal prompt, else the canned fork.
pub fn patch_scene_step(
    ctx: &PatchContext,
    req: &TheaterSceneRequest,
    strict: bool,
    reply: Option<&str>,
    max_lines: usize,
) -> (r: PatchSceneAction)
    ensures
        match reply {
            None => r matches PatchSceneAction::Fallback(b) && line_views(b@) == line_views(ctx.prefix_beats@)
                + line_views(ctx.canned_patch@) + line_views(ctx.skeleton_tail@),
            Some(raw) => match patch_merge_outcome(*ctx, *req, raw@, max_lines as nat) {
                Some(beats) => r matches PatchSceneAction::Finish(b) && line_views(b@) == beats,
                None => if strict {
                    r matches PatchSceneAction::Fallback(b) && line_views(b@) == line_views(ctx.prefix_beats@)
                        + line_views(ctx.canned_patch@) + line_views(ctx.skeleton_tail@)
                } else {
                    r is RetryStrict
                },
            },
        },
{
    match reply {
        None => PatchSceneAction::Fallback(patch_fallback_beats(ctx)),
        Some(raw) => match try_merge_patch(ctx, req, raw, max_lines) {
            Some(beats) => PatchSceneAction::Finish(beats),
            None => if strict {
                PatchSceneAction::Fallback(patch_fallback_beats(ctx))
            } else {
                PatchSceneAction::RetryStrict
            },
        },
    }
}

proof fn lemma_patch_line_casts(rows: Seq<Seq<char>>, p: PatchParse)
    ensures
        forall|w: int|
            0 <= w < patch_lines(rows, p).len() ==> (#[trigger] patch_lines(rows, p)[w]).cast == cast_for_name(
                patch_lines(rows, p)[w].name,
                p.name_a,
                p.name_b,
                p.lead,
            ),
    decreases rows.len(),
{
    if rows.len() > 0 {
        let pre = patch_lines(rows.drop_last(), p);
        lemma_patch_line_casts(rows.drop_last(), p);
        reveal(patch_step);
        let cur = patch_lines(rows, p);
        assert forall|w: int| 0 <= w < cur.len() implies (#[trigger] cur[w]).cast == cast_for_name(
            cur[w].name,
            p.name_a,
            p.name_b,
            p.lead,
        ) by {
            if w < pre.len() {
                assert(pre[w].cast == cast_for_name(pre[w].name, p.name_a, p.name_b, p.lead));
            }
        }
    }
}

/// Each line parsed from director prose goes to cast `a` when its speaker
/// is cast A's trimmed name or contains it (when not empty), else to cast
/// `b` under the same test against cast B's name, and only otherwise to
/// the lead cast.
pub proof fn law_patch_speakers_map_to_cast(
    raw: Seq<char>,
    name_a: Seq<char>,
    name_b: Seq<char>,
    lead: Seq<char>,
    chip_slug: Seq<char>,
    max_lines: nat,
)
    ensures
        parsed_patch(raw, patch_parse_of(name_a, name_b, lead, chip_slug, max_lines)) matches Some(lines)
            ==> forall|w: int|
            0 <= w < lines.len() ==> {
                let l = #[trigger] lines[w];
                let is_a = l.name == trim(name_a) || (trim(name_a).len() > 0 && contains(l.name, trim(name_a)));
                let is_b = l.name == trim(name_b) || (trim(name_b).len() > 0 && contains(l.name, trim(name_b)));
                &&& is_a ==> l.cast == "a"@
                &&& !is_a && is_b ==> l.cast == "b"@
                &&& !is_a && !is_b ==> l.cast == lead
            },
{
    let p = patch_parse_of(name_a, name_b, lead, chip_slug, max_lines);
    let t = trim(raw);
    if t.len() > 0 {
        lemma_patch_line_casts(split_on(t, '\n'), p);
    }
}

} // verus!
