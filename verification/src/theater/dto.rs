//! Theater request and script line types.

use vstd::prelude::*;
use crate::resource::model::opt_view;

verus! {

/// One line of a theater script.
#[derive(Debug)]
pub struct TheaterScriptLine {
    pub id: String,
    pub cast: String,
    pub name: String,
    pub text: String,
    pub stage_hint: Option<String>,
    pub emotion: Option<String>,
}

/// A script line as plain values.
pub struct ScriptLineView {
    pub id: Seq<char>,
    pub cast: Seq<char>,
    pub name: Seq<char>,
    pub text: Seq<char>,
    pub stage_hint: Option<Seq<char>>,
    pub emotion: Option<Seq<char>>,
}

impl View for TheaterScriptLine {
    type V = ScriptLineView;

    open spec fn view(&self) -> ScriptLineView {
        ScriptLineView {
            id: self.id@,
            cast: self.cast@,
            name: self.name@,
            text: self.text@,
            stage_hint: opt_view(self.stage_hint),
            emotion: opt_view(self.emotion),
        }
    }
}

pub open spec fn line_views(s: Seq<TheaterScriptLine>) -> Seq<ScriptLineView> {
    s.map_values(|l: TheaterScriptLine| l@)
}

impl TheaterScriptLine {
    /// A copy of the line.
    pub fn copy(&self) -> (r: TheaterScriptLine)
        ensures
            r@ == self@,
    {
        TheaterScriptLine {
            id: self.id.clone(),
            cast: self.cast.clone(),
            name: self.name.clone(),
            text: self.text.clone(),
            stage_hint: crate::resource::model::copy_opt_string(&self.stage_hint),
            emotion: crate::resource::model::copy_opt_string(&self.emotion),
        }
    }
}

/// A copy of lines `start..end`.
pub fn copy_lines(v: &Vec<TheaterScriptLine>, start: usize, end: usize) -> (r: Vec<TheaterScriptLine>)
    requires
        start <= end <= v@.len(),
    ensures
        line_views(r@) == line_views(v@).subrange(start as int, end as int),
{
    let mut r: Vec<TheaterScriptLine> = Vec::new();
    let mut i: usize = start;
    while i < end
        invariant
            start <= i <= end,
            end <= v@.len(),
            line_views(r@) == line_views(v@).subrange(start as int, i as int),
        decreases end - i,
    {
        let ghost prev = r@;
        let c = v[i].copy();
        r.push(c);
        assert(line_views(r@) =~= line_views(prev).push(c@));
        i = i + 1;
        assert(line_views(r@) =~= line_views(v@).subrange(start as int, i as int));
    }
    r
}

/// A cast member of a two-person scene.
#[derive(Debug)]
pub struct TheaterCastRef {
    pub role_id: String,
    pub name: String,
}

/// A viewer tweak applied to a scene.
#[derive(Debug)]
pub struct TheaterTweak {
    pub kind: String,
    pub chip_label: Option<String>,
    pub drama_seed: String,
    pub insert_after_beat_id: String,
    pub lead_cast: String,
}

impl TheaterTweak {
    pub fn copy(&self) -> (r: TheaterTweak)
        ensures
            r.kind@ == self.kind@,
            opt_view(r.chip_label) == opt_view(self.chip_label),
            r.drama_seed@ == self.drama_seed@,
            r.insert_after_beat_id@ == self.insert_after_beat_id@,
            r.lead_cast@ == self.lead_cast@,
    {
        TheaterTweak {
            kind: self.kind.clone(),
            chip_label: crate::resource::model::copy_opt_string(&self.chip_label),
            drama_seed: self.drama_seed.clone(),
            insert_after_beat_id: self.insert_after_beat_id.clone(),
            lead_cast: self.lead_cast.clone(),
        }
    }
}

/// A request for a theater scene.
#[derive(Debug)]
pub struct TheaterSceneRequest {
    pub cast_a: TheaterCastRef,
    pub cast_b: TheaterCastRef,
    pub scene_id: String,
    pub base_beats: Vec<TheaterScriptLine>,
    pub applied_tweaks: Vec<TheaterTweak>,
    pub fallback_beats: Vec<TheaterScriptLine>,
    pub max_beats: Option<u32>,
    pub mode: Option<String>,
    pub patch_variant: Option<u8>,
    pub pair_relation_id: Option<String>,
    pub pair_relation_hint: Option<String>,
    pub theater_scene: Option<String>,
    pub scene_brief: Option<String>,
    pub scene_setting_hint: Option<String>,
    pub script_outline: Option<String>,
}

} // verus!
