//! Read-only compilation of resource scheduling intent into a candidate
//! plan: profile selections, lifecycle transitions with their rollbacks,
//! and the capacity checks that decide whether the plan may run.

use vstd::prelude::*;
use super::coordinator::{
    ops_contain, ResourceAdapterDescriptor, ResourceAdapterRegistrationSource, ResourceExecutionTarget,
    ResourceOperatingProfile,
};
use super::model::{copy_opt_string, opt_view, strs, ResourceAdapterOperation};
use crate::text::{lex_le, views};

verus! {

/// Runtime state of an adapter as diagnostics report it.
#[derive(Clone, Copy, Debug, PartialEq, Eq, Structural)]
pub enum ResourceAdapterRuntimeState {
    Inactive,
    Reserved,
    Active,
    Suspended,
}

/// An adapter with its registration and runtime state.
pub struct ResourceAdapterDiagnostic {
    pub descriptor: ResourceAdapterDescriptor,
    pub registration_source: ResourceAdapterRegistrationSource,
    pub registration_source_id: String,
    pub runtime_state: ResourceAdapterRuntimeState,
    pub current_profile_id: Option<String>,
    pub lease_ids: Vec<String>,
    pub reason_codes: Vec<String>,
}

#[derive(Clone, Copy, Debug, PartialEq, Eq, Structural)]
pub enum ResourceSchedulingStrategy {
    PrimaryFirst,
    LatencyFirst,
    CompatibilityFirst,
    Custom,
}

#[derive(Clone, Copy, Debug, PartialEq, Eq, Structural)]
pub enum ResourceResidencyPreference {
    Resident,
    OnDemand,
}

/// One scheduling command of an intent.
pub enum ResourceSchedulingCommand {
    Require { adapter_id: String },
    Residency { adapter_id: String, mode: ResourceResidencyPreference },
    Fallback { adapter_id: String, profile_ids: Vec<String> },
    Coexist { adapter_ids: Vec<String> },
    Exclusive { adapter_ids: Vec<String> },
    YieldThenRun { yielding_adapter_id: String, target_adapter_id: String },
}

/// What the host wants scheduled.
pub struct ResourceSchedulingIntent {
    pub strategy: ResourceSchedulingStrategy,
    pub primary_adapter_id: Option<String>,
    pub commands: Vec<ResourceSchedulingCommand>,
}

impl Default for ResourceSchedulingIntent {
    /// No primary adapter, no commands, compatibility first.
    fn default() -> (r: Self)
        ensures
            r.strategy == ResourceSchedulingStrategy::CompatibilityFirst,
            r.primary_adapter_id is None,
            r.commands@.len() == 0,
    {
        ResourceSchedulingIntent {
            strategy: ResourceSchedulingStrategy::CompatibilityFirst,
            primary_adapter_id: None,
            commands: Vec::new(),
        }
    }
}

#[derive(Clone, Copy, Debug, PartialEq, Eq, Structural)]
pub enum ResourceSchedulingIntentState {
    Ready,
    Degraded,
    Blocked,
}

/// The intent with the validation verdict on it.
pub struct ResourceSchedulingIntentDiagnostics {
    pub state: ResourceSchedulingIntentState,
    pub intent: ResourceSchedulingIntent,
    pub reason_codes: Vec<String>,
}

#[derive(Clone, Copy, Debug, PartialEq, Eq, Structural)]
pub enum ResourceProfileSelectionSource {
    Current,
    Fallback,
    Strategy,
}

/// The profile chosen for an adapter.
#[derive(Debug)]
pub struct ResourceProfileSelection {
    pub adapter_id: String,
    pub profile_id: String,
    pub source: ResourceProfileSelectionSource,
    pub estimated_reservation_mib: Option<u64>,
    pub estimated_ram_mib: Option<u64>,
    pub estimated_cpu_threads: Option<u16>,
}

/// A selection as plain values.
pub struct SelectionView {
    pub adapter_id: Seq<char>,
    pub profile_id: Seq<char>,
    pub source: ResourceProfileSelectionSource,
    pub estimated_reservation_mib: Option<u64>,
    pub estimated_ram_mib: Option<u64>,
    pub estimated_cpu_threads: Option<u16>,
}

impl View for ResourceProfileSelection {
    type V = SelectionView;

    open spec fn view(&self) -> SelectionView {
        SelectionView {
            adapter_id: self.adapter_id@,
            profile_id: self.profile_id@,
            source: self.source,
            estimated_reservation_mib: self.estimated_reservation_mib,
            estimated_ram_mib: self.estimated_ram_mib,
            estimated_cpu_threads: self.estimated_cpu_threads,
        }
    }
}

pub open spec fn selection_views(s: Seq<ResourceProfileSelection>) -> Seq<SelectionView> {
    s.map_values(|x: ResourceProfileSelection| x@)
}

/// The selection of profile `p` of adapter `adapter_id`.
pub open spec fn selection_of(adapter_id: Seq<char>, p: ResourceOperatingProfile, source: ResourceProfileSelectionSource) -> SelectionView {
    SelectionView {
        adapter_id: adapter_id,
        profile_id: p.profile_id@,
        source: source,
        estimated_reservation_mib: p.estimated_reservation_mib,
        estimated_ram_mib: p.estimated_ram_mib,
        estimated_cpu_threads: p.estimated_cpu_threads,
    }
}

fn profile_selection(adapter_id: &String, p: &ResourceOperatingProfile, source: ResourceProfileSelectionSource) -> (r:
    ResourceProfileSelection)
    ensures
        r@ == selection_of(adapter_id@, *p, source),
{
    ResourceProfileSelection {
        adapter_id: adapter_id.clone(),
        profile_id: p.profile_id.clone(),
        source,
        estimated_reservation_mib: p.estimated_reservation_mib,
        estimated_ram_mib: p.estimated_ram_mib,
        estimated_cpu_threads: p.estimated_cpu_threads,
    }
}

pub open spec fn opt_int(r: Option<usize>) -> Option<int> {
    match r {
        Some(i) => Some(i as int),
        None => None,
    }
}

/// Position of the first profile with id `id`.
pub open spec fn profile_pos(ps: Seq<ResourceOperatingProfile>, id: Seq<char>) -> Option<int>
    decreases ps.len(),
{
    if ps.len() == 0 {
        None
    } else {
        match profile_pos(ps.drop_last(), id) {
            Some(i) => Some(i),
            None => if ps.last().profile_id@ == id { Some(ps.len() - 1) } else { None },
        }
    }
}

/// Position of the first coordinator-selectable profile with id `id`.
pub open spec fn selectable_pos(ps: Seq<ResourceOperatingProfile>, id: Seq<char>) -> Option<int>
    decreases ps.len(),
{
    if ps.len() == 0 {
        None
    } else {
        match selectable_pos(ps.drop_last(), id) {
            Some(i) => Some(i),
            None => if ps.last().profile_id@ == id && ps.last().coordinator_selectable {
                Some(ps.len() - 1)
            } else {
                None
            },
        }
    }
}

pub(crate) proof fn lemma_profile_pos_bound(ps: Seq<ResourceOperatingProfile>, id: Seq<char>)
    ensures
        profile_pos(ps, id) matches Some(i) ==> 0 <= i < ps.len() && ps[i].profile_id@ == id,
        selectable_pos(ps, id) matches Some(i) ==> 0 <= i < ps.len() && ps[i].profile_id@ == id
            && ps[i].coordinator_selectable,
    decreases ps.len(),
{
    if ps.len() > 0 {
        lemma_profile_pos_bound(ps.drop_last(), id);
    }
}

/// No profile is named `id` when the search finds none.
pub(crate) proof fn lemma_profile_pos_none(ps: Seq<ResourceOperatingProfile>, id: Seq<char>)
    ensures
        profile_pos(ps, id) is None ==> forall|j: int| 0 <= j < ps.len() ==> ps[j].profile_id@ != id,
    decreases ps.len(),
{
    if ps.len() > 0 {
        lemma_profile_pos_none(ps.drop_last(), id);
        assert forall|j: int| 0 <= j < ps.len() - 1 implies ps[j] == ps.drop_last()[j] by {}
    }
}

pub(crate) fn find_profile_pos(ps: &Vec<ResourceOperatingProfile>, id: &str, need_selectable: bool) -> (r: Option<usize>)
    ensures
        !need_selectable ==> opt_int(r) == profile_pos(ps@, id@),
        need_selectable ==> opt_int(r) == selectable_pos(ps@, id@),
        r matches Some(i) ==> i < ps@.len(),
{
    let mut i: usize = 0;
    while i < ps.len()
        invariant
            i <= ps.len(),
            !need_selectable ==> profile_pos(ps@.take(i as int), id@) is None,
            need_selectable ==> selectable_pos(ps@.take(i as int), id@) is None,
        decreases ps.len() - i,
    {
        assert(ps@.take(i + 1).drop_last() =~= ps@.take(i as int));
        if crate::text::str_eq(ps[i].profile_id.as_str(), id) && (!need_selectable || ps[i].coordinator_selectable) {
            proof {
                assert(ps@.take(i + 1).last() == ps@[i as int]);
                lemma_pos_extends(ps@, id@, i + 1);
            }
            return Some(i);
        }
        i = i + 1;
    }
    assert(ps@.take(i as int) =~= ps@);
    None
}

proof fn lemma_pos_extends(ps: Seq<ResourceOperatingProfile>, id: Seq<char>, n: int)
    requires
        0 <= n <= ps.len(),
    ensures
        profile_pos(ps.take(n), id) is Some ==> profile_pos(ps, id) == profile_pos(ps.take(n), id),
        selectable_pos(ps.take(n), id) is Some ==> selectable_pos(ps, id) == selectable_pos(ps.take(n), id),
    decreases ps.len() - n,
{
    if n < ps.len() {
        assert(ps.take(n + 1).drop_last() =~= ps.take(n));
        lemma_pos_extends(ps, id, n + 1);
    } else {
        assert(ps.take(n) =~= ps);
    }
}

/// The first fallback profile id naming a selectable profile.
pub open spec fn fallback_choice(ps: Seq<ResourceOperatingProfile>, ids: Seq<Seq<char>>) -> Option<int>
    decreases ids.len(),
{
    if ids.len() == 0 {
        None
    } else {
        match selectable_pos(ps, ids[0]) {
            Some(i) => Some(i),
            None => fallback_choice(ps, ids.drop_first()),
        }
    }
}

pub open spec fn target_rank(t: ResourceExecutionTarget) -> nat {
    match t {
        ResourceExecutionTarget::Gpu => 0,
        ResourceExecutionTarget::Hybrid => 1,
        ResourceExecutionTarget::Cpu => 2,
        ResourceExecutionTarget::External => 3,
    }
}

pub open spec fn lex_lt(a: Seq<char>, b: Seq<char>) -> bool {
    lex_le(a, b) && a != b
}

/// `a` sorts strictly before `b` under the strategy's profile key.
pub open spec fn profile_before(a: ResourceOperatingProfile, b: ResourceOperatingProfile, s: ResourceSchedulingStrategy) -> bool {
    match s {
        ResourceSchedulingStrategy::LatencyFirst => {
            if target_rank(a.execution_target) != target_rank(b.execution_target) {
                target_rank(a.execution_target) < target_rank(b.execution_target)
            } else if a.requires_restart != b.requires_restart {
                !a.requires_restart
            } else if a.quality_rank != b.quality_rank {
                a.quality_rank > b.quality_rank
            } else {
                lex_lt(a.profile_id@, b.profile_id@)
            }
        },
        ResourceSchedulingStrategy::CompatibilityFirst => {
            let ra = match a.estimated_reservation_mib { Some(v) => v, None => u64::MAX };
            let rb = match b.estimated_reservation_mib { Some(v) => v, None => u64::MAX };
            let ma = match a.estimated_ram_mib { Some(v) => v, None => u64::MAX };
            let mb = match b.estimated_ram_mib { Some(v) => v, None => u64::MAX };
            let ca = match a.estimated_cpu_threads { Some(v) => v, None => u16::MAX };
            let cb = match b.estimated_cpu_threads { Some(v) => v, None => u16::MAX };
            if ra != rb {
                ra < rb
            } else if ma != mb {
                ma < mb
            } else if ca != cb {
                ca < cb
            } else if a.quality_rank != b.quality_rank {
                a.quality_rank > b.quality_rank
            } else {
                lex_lt(a.profile_id@, b.profile_id@)
            }
        },
        _ => {
            if a.quality_rank != b.quality_rank {
                a.quality_rank > b.quality_rank
            } else {
                lex_lt(a.profile_id@, b.profile_id@)
            }
        },
    }
}

/// The first selectable profile with the smallest strategy key.
pub open spec fn best_profile(ps: Seq<ResourceOperatingProfile>, s: ResourceSchedulingStrategy) -> Option<int>
    decreases ps.len(),
{
    if ps.len() == 0 {
        None
    } else {
        let prev = best_profile(ps.drop_last(), s);
        let i = ps.len() - 1;
        if !ps[i].coordinator_selectable {
            prev
        } else {
            match prev {
                None => Some(i),
                Some(b) => if profile_before(ps[i], ps[b], s) { Some(i) } else { prev },
            }
        }
    }
}

proof fn lemma_best_bound(ps: Seq<ResourceOperatingProfile>, s: ResourceSchedulingStrategy)
    ensures
        best_profile(ps, s) matches Some(i) ==> 0 <= i < ps.len(),
    decreases ps.len(),
{
    if ps.len() > 0 {
        lemma_best_bound(ps.drop_last(), s);
    }
}

fn lex_lt_exec(a: &str, b: &str) -> (r: bool)
    ensures
        r == lex_lt(a@, b@),
{
    crate::text::lex_le_exec(a, b) && !crate::text::str_eq(a, b)
}

fn target_level(t: ResourceExecutionTarget) -> (r: u8)
    ensures
        r == target_rank(t),
{
    match t {
        ResourceExecutionTarget::Gpu => 0,
        ResourceExecutionTarget::Hybrid => 1,
        ResourceExecutionTarget::Cpu => 2,
        ResourceExecutionTarget::External => 3,
    }
}

fn profile_before_exec(a: &ResourceOperatingProfile, b: &ResourceOperatingProfile, s: ResourceSchedulingStrategy) -> (r: bool)
    ensures
        r == profile_before(*a, *b, s),
{
    match s {
        ResourceSchedulingStrategy::LatencyFirst => {
            let ta = target_level(a.execution_target);
            let tb = target_level(b.execution_target);
            if ta != tb {
                ta < tb
            } else if a.requires_restart != b.requires_restart {
                !a.requires_restart
            } else if a.quality_rank != b.quality_rank {
                a.quality_rank > b.quality_rank
            } else {
                lex_lt_exec(a.profile_id.as_str(), b.profile_id.as_str())
            }
        },
        ResourceSchedulingStrategy::CompatibilityFirst => {
            let ra = match a.estimated_reservation_mib { Some(v) => v, None => u64::MAX };
            let rb = match b.estimated_reservation_mib { Some(v) => v, None => u64::MAX };
            let ma = match a.estimated_ram_mib { Some(v) => v, None => u64::MAX };
            let mb = match b.estimated_ram_mib { Some(v) => v, None => u64::MAX };
            let ca = match a.estimated_cpu_threads { Some(v) => v, None => u16::MAX };
            let cb = match b.estimated_cpu_threads { Some(v) => v, None => u16::MAX };
            if ra != rb {
                ra < rb
            } else if ma != mb {
                ma < mb
            } else if ca != cb {
                ca < cb
            } else if a.quality_rank != b.quality_rank {
                a.quality_rank > b.quality_rank
            } else {
                lex_lt_exec(a.profile_id.as_str(), b.profile_id.as_str())
            }
        },
        _ => {
            if a.quality_rank != b.quality_rank {
                a.quality_rank > b.quality_rank
            } else {
                lex_lt_exec(a.profile_id.as_str(), b.profile_id.as_str())
            }
        },
    }
}

fn best_profile_exec(ps: &Vec<ResourceOperatingProfile>, s: ResourceSchedulingStrategy) -> (r: Option<usize>)
    ensures
        opt_int(r) == best_profile(ps@, s),
        r matches Some(i) ==> i < ps@.len(),
{
    let mut best: Option<usize> = None;
    let mut i: usize = 0;
    while i < ps.len()
        invariant
            i <= ps.len(),
            opt_int(best) == best_profile(ps@.take(i as int), s),
            best matches Some(b) ==> b < i,
        decreases ps.len() - i,
    {
        assert(ps@.take(i + 1).drop_last() =~= ps@.take(i as int));
        assert(ps@.take(i + 1)[i as int] == ps@[i as int]);
        if ps[i].coordinator_selectable {
            match best {
                None => {
                    best = Some(i);
                },
                Some(b) => {
                    assert(ps@.take(i + 1)[b as int] == ps@[b as int]);
                    if profile_before_exec(&ps[i], &ps[b], s) {
                        best = Some(i);
                    }
                },
            }
        }
        i = i + 1;
    }
    assert(ps@.take(i as int) =~= ps@);
    best
}

fn fallback_choice_exec(ps: &Vec<ResourceOperatingProfile>, ids: &Vec<String>) -> (r: Option<usize>)
    ensures
        opt_int(r) == fallback_choice(ps@, strs(ids@)),
        r matches Some(i) ==> i < ps@.len(),
{
    let mut k: usize = 0;
    assert(strs(ids@).skip(0) =~= strs(ids@));
    while k < ids.len()
        invariant
            k <= ids.len(),
            fallback_choice(ps@, strs(ids@)) == fallback_choice(ps@, strs(ids@).skip(k as int)),
        decreases ids.len() - k,
    {
        assert(strs(ids@).skip(k as int)[0] == ids@[k as int]@);
        match find_profile_pos(ps, ids[k].as_str(), true) {
            Some(i) => {
                return Some(i);
            },
            None => {},
        }
        assert(strs(ids@).skip(k as int).drop_first() =~= strs(ids@).skip(k + 1));
        k = k + 1;
    }
    None
}

/// The profile an adapter should run.
pub open spec fn select_spec(
    a: ResourceAdapterDiagnostic,
    fallback: Option<Seq<Seq<char>>>,
    s: ResourceSchedulingStrategy,
) -> Option<SelectionView> {
    let ps = a.descriptor.profiles@;
    let id = a.descriptor.adapter_id@;
    let cur = opt_view(a.current_profile_id);
    match fallback {
        Some(ids) => {
            if cur is Some && ids.contains(cur->0) {
                match profile_pos(ps, cur->0) {
                    Some(i) => Some(selection_of(id, ps[i], ResourceProfileSelectionSource::Current)),
                    None => None,
                }
            } else {
                match fallback_choice(ps, ids) {
                    Some(i) => Some(selection_of(id, ps[i], ResourceProfileSelectionSource::Fallback)),
                    None => None,
                }
            }
        },
        None => {
            if cur is Some && profile_pos(ps, cur->0) is Some {
                Some(selection_of(id, ps[profile_pos(ps, cur->0)->0], ResourceProfileSelectionSource::Current))
            } else {
                match best_profile(ps, s) {
                    Some(i) => Some(selection_of(id, ps[i], ResourceProfileSelectionSource::Strategy)),
                    None => None,
                }
            }
        },
    }
}

fn select_profile(a: &ResourceAdapterDiagnostic, fallback: Option<&Vec<String>>, s: ResourceSchedulingStrategy) -> (r:
    Option<ResourceProfileSelection>)
    ensures
        match r {
            Some(x) => select_spec(*a, opt_strs(fallback), s) == Some(x@),
            None => select_spec(*a, opt_strs(fallback), s) is None,
        },
{
    let ps = &a.descriptor.profiles;
    let id = &a.descriptor.adapter_id;
    match fallback {
        Some(ids) => {
            let cur_listed = match &a.current_profile_id {
                Some(c) => {
                    let cc = crate::text::chars_of(c.as_str());
                    crate::plugins::contains_str(ids, &cc)
                },
                None => false,
            };
            if cur_listed {
                let c = a.current_profile_id.as_ref().unwrap();
                match find_profile_pos(ps, c.as_str(), false) {
                    Some(i) => {
                        proof { lemma_profile_pos_bound(ps@, c@); }
                        Some(profile_selection(id, &ps[i], ResourceProfileSelectionSource::Current))
                    },
                    None => None,
                }
            } else {
                match fallback_choice_exec(ps, ids) {
                    Some(i) => Some(profile_selection(id, &ps[i], ResourceProfileSelectionSource::Fallback)),
                    None => None,
                }
            }
        },
        None => {
            let cur_pos = match &a.current_profile_id {
                Some(c) => find_profile_pos(ps, c.as_str(), false),
                None => None,
            };
            match cur_pos {
                Some(i) => Some(profile_selection(id, &ps[i], ResourceProfileSelectionSource::Current)),
                None => match best_profile_exec(ps, s) {
                    Some(i) => Some(profile_selection(id, &ps[i], ResourceProfileSelectionSource::Strategy)),
                    None => None,
                },
            }
        },
    }
}

pub open spec fn opt_strs(o: Option<&Vec<String>>) -> Option<Seq<Seq<char>>> {
    match o {
        Some(v) => Some(strs(v@)),
        None => None,
    }
}

/// Position of the adapter with id `id` (the last listed wins).
pub open spec fn adapter_at(ads: Seq<ResourceAdapterDiagnostic>, id: Seq<char>) -> Option<int>
    decreases ads.len(),
{
    if ads.len() == 0 {
        None
    } else if ads.last().descriptor.adapter_id@ == id {
        Some(ads.len() - 1)
    } else {
        adapter_at(ads.drop_last(), id)
    }
}

pub(crate) proof fn lemma_adapter_at_bound(ads: Seq<ResourceAdapterDiagnostic>, id: Seq<char>)
    ensures
        adapter_at(ads, id) matches Some(i) ==> 0 <= i < ads.len() && ads[i].descriptor.adapter_id@ == id,
    decreases ads.len(),
{
    if ads.len() > 0 {
        lemma_adapter_at_bound(ads.drop_last(), id);
    }
}

pub(crate) fn adapter_at_exec(ads: &Vec<ResourceAdapterDiagnostic>, id: &str) -> (r: Option<usize>)
    ensures
        opt_int(r) == adapter_at(ads@, id@),
        r matches Some(i) ==> i < ads@.len(),
{
    let mut k: usize = ads.len();
    assert(ads@.take(k as int) =~= ads@);
    while k > 0
        invariant
            k <= ads@.len(),
            adapter_at(ads@, id@) == adapter_at(ads@.take(k as int), id@),
        decreases k,
    {
        assert(ads@.take(k as int).last() == ads@[k - 1]);
        if crate::text::str_eq(ads[k - 1].descriptor.adapter_id.as_str(), id) {
            return Some(k - 1);
        }
        assert(ads@.take(k as int).drop_last() =~= ads@.take(k - 1));
        k = k - 1;
    }
    None
}

/// A resident adapter holds its resources.
pub open spec fn resident(a: ResourceAdapterDiagnostic) -> bool {
    a.runtime_state == ResourceAdapterRuntimeState::Active || a.runtime_state == ResourceAdapterRuntimeState::Reserved
}

pub(crate) fn adapter_is_resident(a: &ResourceAdapterDiagnostic) -> (r: bool)
    ensures
        r == resident(*a),
{
    match a.runtime_state {
        ResourceAdapterRuntimeState::Active | ResourceAdapterRuntimeState::Reserved => true,
        _ => false,
    }
}

/// The adapter ids a command refers to.
pub open spec fn command_ids(c: ResourceSchedulingCommand) -> Seq<Seq<char>> {
    match c {
        ResourceSchedulingCommand::Require { adapter_id } => seq![adapter_id@],
        ResourceSchedulingCommand::Residency { adapter_id, .. } => seq![adapter_id@],
        ResourceSchedulingCommand::Fallback { adapter_id, .. } => seq![adapter_id@],
        ResourceSchedulingCommand::Coexist { adapter_ids } => strs(adapter_ids@),
        ResourceSchedulingCommand::Exclusive { adapter_ids } => strs(adapter_ids@),
        ResourceSchedulingCommand::YieldThenRun { yielding_adapter_id, target_adapter_id } => seq![
            yielding_adapter_id@,
            target_adapter_id@,
        ],
    }
}

pub open spec fn commands_ids(cs: Seq<ResourceSchedulingCommand>) -> Seq<Seq<char>>
    decreases cs.len(),
{
    if cs.len() == 0 {
        Seq::empty()
    } else {
        commands_ids(cs.drop_last()) + command_ids(cs.last())
    }
}

/// The adapters an intent refers to: its primary and every command's.
pub open spec fn referenced_ids(intent: ResourceSchedulingIntent) -> Seq<Seq<char>> {
    let p: Seq<Seq<char>> = match opt_view(intent.primary_adapter_id) {
        Some(id) => seq![id],
        None => Seq::empty(),
    };
    p + commands_ids(intent.commands@)
}

fn push_all(v: &mut Vec<String>, w: &Vec<String>)
    ensures
        strs(final(v)@) == strs(old(v)@) + strs(w@),
{
    let ghost v0 = strs(v@);
    let mut i: usize = 0;
    while i < w.len()
        invariant
            i <= w.len(),
            strs(v@) == v0 + strs(w@).take(i as int),
        decreases w.len() - i,
    {
        let ghost before = strs(v@);
        let c = w[i].clone();
        v.push(c);
        assert(strs(v@) =~= before.push(w@[i as int]@));
        assert(strs(w@).take(i + 1) =~= strs(w@).take(i as int).push(w@[i as int]@));
        i = i + 1;
        assert(strs(v@) =~= v0 + strs(w@).take(i as int));
    }
    assert(strs(w@).take(i as int) =~= strs(w@));
}

pub(crate) fn referenced_exec(intent: &ResourceSchedulingIntent) -> (r: Vec<String>)
    ensures
        strs(r@) == referenced_ids(*intent),
{
    let mut r: Vec<String> = Vec::new();
    match &intent.primary_adapter_id {
        Some(p) => r.push(p.clone()),
        None => {},
    }
    let ghost start = strs(r@);
    assert(start =~= match opt_view(intent.primary_adapter_id) {
        Some(id) => seq![id],
        None => Seq::<Seq<char>>::empty(),
    });
    let cs = &intent.commands;
    let mut i: usize = 0;
    while i < cs.len()
        invariant
            i <= cs.len(),
            cs == &intent.commands,
            strs(r@) == start + commands_ids(cs@.take(i as int)),
        decreases cs.len() - i,
    {
        assert(cs@.take(i + 1).drop_last() =~= cs@.take(i as int));
        let ghost before = strs(r@);
        match &cs[i] {
            ResourceSchedulingCommand::Require { adapter_id } => r.push(adapter_id.clone()),
            ResourceSchedulingCommand::Residency { adapter_id, .. } => r.push(adapter_id.clone()),
            ResourceSchedulingCommand::Fallback { adapter_id, .. } => r.push(adapter_id.clone()),
            ResourceSchedulingCommand::Coexist { adapter_ids } => push_all(&mut r, adapter_ids),
            ResourceSchedulingCommand::Exclusive { adapter_ids } => push_all(&mut r, adapter_ids),
            ResourceSchedulingCommand::YieldThenRun { yielding_adapter_id, target_adapter_id } => {
                r.push(yielding_adapter_id.clone());
                r.push(target_adapter_id.clone());
            },
        }
        assert(strs(r@) =~= before + command_ids(cs@[i as int]));
        i = i + 1;
    }
    assert(cs@.take(i as int) =~= cs@);
    r
}

/// The fallback profile ids for adapter `id` (the last command wins).
pub open spec fn fallback_for(cs: Seq<ResourceSchedulingCommand>, id: Seq<char>) -> Option<Seq<Seq<char>>>
    decreases cs.len(),
{
    if cs.len() == 0 {
        None
    } else {
        match cs.last() {
            ResourceSchedulingCommand::Fallback { adapter_id, profile_ids } => if adapter_id@ == id {
                Some(strs(profile_ids@))
            } else {
                fallback_for(cs.drop_last(), id)
            },
            _ => fallback_for(cs.drop_last(), id),
        }
    }
}

fn fallback_for_exec<'a>(cs: &'a Vec<ResourceSchedulingCommand>, id: &str) -> (r: Option<&'a Vec<String>>)
    ensures
        opt_strs(r) == fallback_for(cs@, id@),
{
    let mut k: usize = cs.len();
    assert(cs@.take(k as int) =~= cs@);
    while k > 0
        invariant
            k <= cs@.len(),
            fallback_for(cs@, id@) == fallback_for(cs@.take(k as int), id@),
        decreases k,
    {
        assert(cs@.take(k as int).last() == cs@[k - 1]);
        assert(cs@.take(k as int).drop_last() =~= cs@.take(k - 1));
        match &cs[k - 1] {
            ResourceSchedulingCommand::Fallback { adapter_id, profile_ids } => {
                if crate::text::str_eq(adapter_id.as_str(), id) {
                    return Some(profile_ids);
                }
            },
            _ => {},
        }
        k = k - 1;
    }
    None
}

/// One adapter's contribution to the selections: referenced adapters and
/// adapters with a current profile get one when they declare profiles; a
/// referenced adapter without a selectable profile is flagged.
pub open spec fn sel_step(
    acc: (Seq<SelectionView>, bool),
    a: ResourceAdapterDiagnostic,
    refs: Seq<Seq<char>>,
    cmds: Seq<ResourceSchedulingCommand>,
    strat: ResourceSchedulingStrategy,
) -> (Seq<SelectionView>, bool) {
    let id = a.descriptor.adapter_id@;
    let should = refs.contains(id) || a.current_profile_id is Some;
    if !should || a.descriptor.profiles@.len() == 0 {
        acc
    } else {
        match select_spec(a, fallback_for(cmds, id), strat) {
            Some(sel) => (acc.0.push(sel), acc.1),
            None => if refs.contains(id) { (acc.0, true) } else { acc },
        }
    }
}

pub open spec fn sel_fold(
    ads: Seq<ResourceAdapterDiagnostic>,
    refs: Seq<Seq<char>>,
    cmds: Seq<ResourceSchedulingCommand>,
    strat: ResourceSchedulingStrategy,
) -> (Seq<SelectionView>, bool)
    decreases ads.len(),
{
    if ads.len() == 0 {
        (Seq::empty(), false)
    } else {
        sel_step(sel_fold(ads.drop_last(), refs, cmds, strat), ads.last(), refs, cmds, strat)
    }
}

/// Where a stable sort by adapter id places `x` among sorted `acc`: after
/// every selection whose id is not greater.
pub open spec fn insert_at(acc: Seq<SelectionView>, x: SelectionView) -> int
    decreases acc.len(),
{
    if acc.len() == 0 {
        0
    } else if lex_lt(x.adapter_id, acc[0].adapter_id) {
        0
    } else {
        1 + insert_at(acc.drop_first(), x)
    }
}

proof fn lemma_insert_at_bound(acc: Seq<SelectionView>, x: SelectionView)
    ensures
        0 <= insert_at(acc, x) <= acc.len(),
    decreases acc.len(),
{
    if acc.len() > 0 {
        lemma_insert_at_bound(acc.drop_first(), x);
    }
}

/// Selections stably sorted by adapter id.
pub open spec fn sorted_selections(s: Seq<SelectionView>) -> Seq<SelectionView>
    decreases s.len(),
{
    if s.len() == 0 {
        Seq::empty()
    } else {
        let a = sorted_selections(s.drop_last());
        a.insert(insert_at(a, s.last()), s.last())
    }
}

fn insert_sorted(acc: &mut Vec<ResourceProfileSelection>, x: ResourceProfileSelection)
    ensures
        selection_views(final(acc)@) == selection_views(old(acc)@).insert(
            insert_at(selection_views(old(acc)@), x@),
            x@,
        ),
{
    let ghost av = selection_views(acc@);
    let mut i: usize = 0;
    assert(av.skip(0) =~= av);
    while i < acc.len() && !lex_lt_exec(x.adapter_id.as_str(), acc[i].adapter_id.as_str())
        invariant
            i <= acc.len(),
            av == selection_views(acc@),
            insert_at(av, x@) == i + insert_at(av.skip(i as int), x@),
        decreases acc.len() - i,
    {
        assert(av.skip(i as int)[0] == acc@[i as int]@);
        assert(av.skip(i as int).drop_first() =~= av.skip(i + 1));
        i = i + 1;
    }
    proof {
        if i < acc.len() {
            assert(av.skip(i as int)[0] == acc@[i as int]@);
        } else {
            assert(av.skip(i as int).len() == 0);
        }
    }
    acc.insert(i, x);
    assert(selection_views(acc@) =~= av.insert(i as int, x@));
}

fn selections_step(
    acc: &mut Vec<ResourceProfileSelection>,
    unselected: &mut bool,
    a: &ResourceAdapterDiagnostic,
    refs: &Vec<String>,
    cmds: &Vec<ResourceSchedulingCommand>,
    strat: ResourceSchedulingStrategy,
)
    ensures
        (selection_views(final(acc)@), *final(unselected)) == sel_step(
            (selection_views(old(acc)@), *old(unselected)),
            *a,
            strs(refs@),
            cmds@,
            strat,
        ),
{
    let idc = crate::text::chars_of(a.descriptor.adapter_id.as_str());
    let referenced = crate::plugins::contains_str(refs, &idc);
    let should = referenced || a.current_profile_id.is_some();
    if !should || a.descriptor.profiles.len() == 0 {
        return;
    }
    let fb = fallback_for_exec(cmds, a.descriptor.adapter_id.as_str());
    let ghost before = selection_views(acc@);
    match select_profile(a, fb, strat) {
        Some(sel) => {
            acc.push(sel);
            assert(selection_views(acc@) =~= before.push(sel@));
        },
        None => {
            if referenced {
                *unselected = true;
            }
        },
    }
}

/// The last selection for adapter `id`.
pub open spec fn selection_for(sorted: Seq<SelectionView>, id: Seq<char>) -> Option<SelectionView>
    decreases sorted.len(),
{
    if sorted.len() == 0 {
        None
    } else if sorted.last().adapter_id == id {
        Some(sorted.last())
    } else {
        selection_for(sorted.drop_last(), id)
    }
}

pub(crate) fn selection_for_exec<'a>(sorted: &'a Vec<ResourceProfileSelection>, id: &str) -> (r: Option<&'a ResourceProfileSelection>)
    ensures
        match r {
            Some(x) => selection_for(selection_views(sorted@), id@) == Some(x@),
            None => selection_for(selection_views(sorted@), id@) is None,
        },
{
    let ghost sv = selection_views(sorted@);
    let mut k: usize = sorted.len();
    assert(sv.take(k as int) =~= sv);
    while k > 0
        invariant
            k <= sorted@.len(),
            sv == selection_views(sorted@),
            selection_for(sv, id@) == selection_for(sv.take(k as int), id@),
        decreases k,
    {
        assert(sv.take(k as int).last() == sorted@[k - 1]@);
        assert(sv.take(k as int).drop_last() =~= sv.take(k - 1));
        if crate::text::str_eq(sorted[k - 1].adapter_id.as_str(), id) {
            return Some(&sorted[k - 1]);
        }
        k = k - 1;
    }
    None
}

/// The selections of a compile and whether a referenced adapter had none.
pub(crate) fn compile_selections(
    ads: &Vec<ResourceAdapterDiagnostic>,
    refs: &Vec<String>,
    cmds: &Vec<ResourceSchedulingCommand>,
    strat: ResourceSchedulingStrategy,
) -> (r: (Vec<ResourceProfileSelection>, bool))
    ensures
        selection_views(r.0@) == sorted_selections(sel_fold(ads@, strs(refs@), cmds@, strat).0),
        r.1 == sel_fold(ads@, strs(refs@), cmds@, strat).1,
{
    let mut raw: Vec<ResourceProfileSelection> = Vec::new();
    let mut unselected = false;
    let mut i: usize = 0;
    assert(selection_views(raw@) =~= Seq::<SelectionView>::empty());
    while i < ads.len()
        invariant
            i <= ads.len(),
            (selection_views(raw@), unselected) == sel_fold(ads@.take(i as int), strs(refs@), cmds@, strat),
        decreases ads.len() - i,
    {
        assert(ads@.take(i + 1).drop_last() =~= ads@.take(i as int));
        assert(ads@.take(i + 1).last() == ads@[i as int]);
        selections_step(&mut raw, &mut unselected, &ads[i], refs, cmds, strat);
        i = i + 1;
    }
    assert(ads@.take(i as int) =~= ads@);
    let ghost rv = selection_views(raw@);
    let mut sorted: Vec<ResourceProfileSelection> = Vec::new();
    assert(selection_views(sorted@) =~= sorted_selections(rv.take(0)));
    let n = raw.len();
    let mut rest = raw;
    let mut j: usize = 0;
    while rest.len() > 0
        invariant
            rv.len() == n,
            j <= rv.len(),
            j + rest@.len() == rv.len(),
            selection_views(rest@) == rv.skip(j as int),
            selection_views(sorted@) == sorted_selections(rv.take(j as int)),
        decreases rest.len(),
    {
        assert(rv.skip(j as int)[0] == rest@[0]@);
        let ghost old_rest = rest@;
        let x = rest.remove(0);
        assert(rest@ =~= old_rest.drop_first());
        assert(selection_views(rest@) =~= selection_views(old_rest).drop_first());
        assert(x@ == rv[j as int]);
        assert(rv.take(j + 1).drop_last() =~= rv.take(j as int));
        insert_sorted(&mut sorted, x);
        j = j + 1;
        assert(selection_views(rest@) =~= rv.skip(j as int));
    }
    assert(rv.take(j as int) =~= rv);
    (sorted, unselected)
}

/// One step of a candidate plan.
#[derive(Debug)]
pub struct ResourceCandidateTransition {
    pub adapter_id: String,
    pub operation: ResourceAdapterOperation,
    pub profile_id: Option<String>,
    pub rollback_operation: Option<ResourceAdapterOperation>,
    pub rollback_profile_id: Option<String>,
    pub requested_by_adapter_id: Option<String>,
    pub reason_codes: Vec<String>,
}

/// A transition as plain values.
pub struct TransitionView {
    pub adapter_id: Seq<char>,
    pub operation: ResourceAdapterOperation,
    pub profile_id: Option<Seq<char>>,
    pub rollback_operation: Option<ResourceAdapterOperation>,
    pub rollback_profile_id: Option<Seq<char>>,
    pub requested_by_adapter_id: Option<Seq<char>>,
    pub reason_codes: Seq<Seq<char>>,
}

impl View for ResourceCandidateTransition {
    type V = TransitionView;

    open spec fn view(&self) -> TransitionView {
        TransitionView {
            adapter_id: self.adapter_id@,
            operation: self.operation,
            profile_id: opt_view(self.profile_id),
            rollback_operation: self.rollback_operation,
            rollback_profile_id: opt_view(self.rollback_profile_id),
            requested_by_adapter_id: opt_view(self.requested_by_adapter_id),
            reason_codes: strs(self.reason_codes@),
        }
    }
}

pub open spec fn transition_views(s: Seq<ResourceCandidateTransition>) -> Seq<TransitionView> {
    s.map_values(|t: ResourceCandidateTransition| t@)
}

pub open spec fn opt_seq<T>(o: Option<T>) -> Seq<T> {
    match o {
        Some(t) => seq![t],
        None => Seq::empty(),
    }
}

/// Yielding an adapter: suspend (resumable) or unload (restartable), back
/// to its current profile on rollback.
pub open spec fn yield_transition(a: ResourceAdapterDiagnostic, by: Option<Seq<char>>, reason: Seq<char>) -> Option<
    TransitionView,
> {
    let ops = a.descriptor.lifecycle_operations@;
    let cur = opt_view(a.current_profile_id);
    let pair: Option<(ResourceAdapterOperation, ResourceAdapterOperation)> = if ops_contain(
        ops,
        ResourceAdapterOperation::Suspend,
    ) && ops_contain(ops, ResourceAdapterOperation::Resume) {
        Some((ResourceAdapterOperation::Suspend, ResourceAdapterOperation::Resume))
    } else if ops_contain(ops, ResourceAdapterOperation::Unload) && ops_contain(ops, ResourceAdapterOperation::Start) {
        Some((ResourceAdapterOperation::Unload, ResourceAdapterOperation::Start))
    } else {
        None
    };
    match pair {
        Some((op, back)) => Some(
            TransitionView {
                adapter_id: a.descriptor.adapter_id@,
                operation: op,
                profile_id: cur,
                rollback_operation: Some(back),
                rollback_profile_id: cur,
                requested_by_adapter_id: by,
                reason_codes: seq![reason],
            },
        ),
        None => None,
    }
}

/// Starting an adapter on its selected profile: start (or resume), rolled
/// back by suspend or unload when declared.
pub open spec fn start_transition(
    a: ResourceAdapterDiagnostic,
    sel: Option<SelectionView>,
    by: Option<Seq<char>>,
    reason: Seq<char>,
) -> Option<TransitionView> {
    let ops = a.descriptor.lifecycle_operations@;
    if a.descriptor.profiles@.len() > 0 && sel is None {
        None
    } else if !ops_contain(ops, ResourceAdapterOperation::Start) && !ops_contain(ops, ResourceAdapterOperation::Resume) {
        None
    } else {
        Some(
            TransitionView {
                adapter_id: a.descriptor.adapter_id@,
                operation: if ops_contain(ops, ResourceAdapterOperation::Start) {
                    ResourceAdapterOperation::Start
                } else {
                    ResourceAdapterOperation::Resume
                },
                profile_id: match sel {
                    Some(x) => Some(x.profile_id),
                    None => None,
                },
                rollback_operation: if ops_contain(ops, ResourceAdapterOperation::Suspend) {
                    Some(ResourceAdapterOperation::Suspend)
                } else if ops_contain(ops, ResourceAdapterOperation::Unload) {
                    Some(ResourceAdapterOperation::Unload)
                } else {
                    None
                },
                rollback_profile_id: None,
                requested_by_adapter_id: by,
                reason_codes: seq![reason],
            },
        )
    }
}

/// Restarting a resident adapter on a newly selected profile.
pub open spec fn profile_transition(a: ResourceAdapterDiagnostic, sel: SelectionView) -> Option<TransitionView> {
    let cur = opt_view(a.current_profile_id);
    if !ops_contain(a.descriptor.lifecycle_operations@, ResourceAdapterOperation::Start) {
        None
    } else {
        Some(
            TransitionView {
                adapter_id: a.descriptor.adapter_id@,
                operation: ResourceAdapterOperation::Start,
                profile_id: Some(sel.profile_id),
                rollback_operation: if cur is Some { Some(ResourceAdapterOperation::Start) } else { None },
                rollback_profile_id: cur,
                requested_by_adapter_id: None,
                reason_codes: seq!["resource_plan_profile_change"@],
            },
        )
    }
}

pub(crate) fn ops_has(ops: &Vec<ResourceAdapterOperation>, op: ResourceAdapterOperation) -> (r: bool)
    ensures
        r == ops_contain(ops@, op),
{
    let mut i: usize = 0;
    while i < ops.len()
        invariant
            i <= ops.len(),
            forall|j: int| 0 <= j < i ==> ops@[j] != op,
        decreases ops.len() - i,
    {
        if ops[i] == op {
            return true;
        }
        i = i + 1;
    }
    false
}

fn one_reason(reason: &str) -> (r: Vec<String>)
    ensures
        strs(r@) == seq![reason@],
{
    let mut v: Vec<String> = Vec::new();
    v.push(crate::text::owned(reason));
    assert(strs(v@) =~= seq![reason@]);
    v
}

pub(crate) fn push_opt(ts: &mut Vec<ResourceCandidateTransition>, t: Option<ResourceCandidateTransition>)
    ensures
        transition_views(final(ts)@) == transition_views(old(ts)@) + opt_seq(
            match t {
                Some(x) => Some(x@),
                None => None,
            },
        ),
{
    let ghost before = transition_views(ts@);
    match t {
        Some(x) => {
            let ghost xv = x@;
            ts.push(x);
            assert(transition_views(ts@) =~= before + seq![xv]);
        },
        None => {
            assert(transition_views(ts@) =~= before + Seq::<TransitionView>::empty());
        },
    }
}

pub open spec fn opt_transition(t: Option<ResourceCandidateTransition>) -> Option<TransitionView> {
    match t {
        Some(x) => Some(x@),
        None => None,
    }
}

pub(crate) fn yield_transition_exec(a: &ResourceAdapterDiagnostic, by: Option<String>, reason: &str) -> (r: Option<
    ResourceCandidateTransition,
>)
    ensures
        opt_transition(r) == yield_transition(*a, opt_view(by), reason@),
{
    let ops = &a.descriptor.lifecycle_operations;
    let (op, back) = if ops_has(ops, ResourceAdapterOperation::Suspend) && ops_has(ops, ResourceAdapterOperation::Resume) {
        (ResourceAdapterOperation::Suspend, ResourceAdapterOperation::Resume)
    } else if ops_has(ops, ResourceAdapterOperation::Unload) && ops_has(ops, ResourceAdapterOperation::Start) {
        (ResourceAdapterOperation::Unload, ResourceAdapterOperation::Start)
    } else {
        return None;
    };
    Some(
        ResourceCandidateTransition {
            adapter_id: a.descriptor.adapter_id.clone(),
            operation: op,
            profile_id: copy_opt_string(&a.current_profile_id),
            rollback_operation: Some(back),
            rollback_profile_id: copy_opt_string(&a.current_profile_id),
            requested_by_adapter_id: by,
            reason_codes: one_reason(reason),
        },
    )
}

pub(crate) fn start_transition_exec(
    a: &ResourceAdapterDiagnostic,
    sel: Option<&ResourceProfileSelection>,
    by: Option<String>,
    reason: &str,
) -> (r: Option<ResourceCandidateTransition>)
    ensures
        opt_transition(r) == start_transition(
            *a,
            match sel {
                Some(x) => Some(x@),
                None => None,
            },
            opt_view(by),
            reason@,
        ),
{
    let ops = &a.descriptor.lifecycle_operations;
    if a.descriptor.profiles.len() > 0 && sel.is_none() {
        return None;
    }
    let op = if ops_has(ops, ResourceAdapterOperation::Start) {
        ResourceAdapterOperation::Start
    } else if ops_has(ops, ResourceAdapterOperation::Resume) {
        ResourceAdapterOperation::Resume
    } else {
        return None;
    };
    let rollback = if ops_has(ops, ResourceAdapterOperation::Suspend) {
        Some(ResourceAdapterOperation::Suspend)
    } else if ops_has(ops, ResourceAdapterOperation::Unload) {
        Some(ResourceAdapterOperation::Unload)
    } else {
        None
    };
    let profile_id = match sel {
        Some(x) => Some(x.profile_id.clone()),
        None => None,
    };
    Some(
        ResourceCandidateTransition {
            adapter_id: a.descriptor.adapter_id.clone(),
            operation: op,
            profile_id,
            rollback_operation: rollback,
            rollback_profile_id: None,
            requested_by_adapter_id: by,
            reason_codes: one_reason(reason),
        },
    )
}

pub(crate) fn profile_transition_exec(a: &ResourceAdapterDiagnostic, sel: &ResourceProfileSelection) -> (r: Option<
    ResourceCandidateTransition,
>)
    ensures
        opt_transition(r) == profile_transition(*a, sel@),
{
    if !ops_has(&a.descriptor.lifecycle_operations, ResourceAdapterOperation::Start) {
        return None;
    }
    let rollback = match &a.current_profile_id {
        Some(_) => Some(ResourceAdapterOperation::Start),
        None => None,
    };
    Some(
        ResourceCandidateTransition {
            adapter_id: a.descriptor.adapter_id.clone(),
            operation: ResourceAdapterOperation::Start,
            profile_id: Some(sel.profile_id.clone()),
            rollback_operation: rollback,
            rollback_profile_id: copy_opt_string(&a.current_profile_id),
            requested_by_adapter_id: None,
            reason_codes: one_reason("resource_plan_profile_change"),
        },
    )
}

} // verus!
