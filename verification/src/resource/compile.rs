//! Compilation of scheduling intent into a candidate plan. Nothing here
//! calls an adapter or touches a lease: the plan is a proposal whose
//! revision and controllers are checked again when it is executed.

use vstd::prelude::*;
use super::model::{strs, ResourceCoordinatorPolicy, ResourceLeaseDiagnostic, ResourceSnapshot};
use super::plan::{
    compile_selections, referenced_exec, referenced_ids, sel_fold, selection_views, sorted_selections,
    transition_views, ResourceAdapterDiagnostic, ResourceCandidateTransition, ResourceProfileSelection,
    ResourceSchedulingIntentDiagnostics, ResourceSchedulingIntentState, SelectionView, TransitionView,
};
use super::candidate::{
    dedup_exec, dedup_steps, raw_transitions, raw_transitions_exec, required_starts, unexecutable_start,
    unexecutable_start_exec,
};
use super::headroom::{
    add_reason_if, add_reasons, capacity_blocked, capacity_degraded, capacity_reasons, distinct_strs, reason_if,
    reason_set, tally, tally_exec,
};
use super::plan_id::{candidate_plan_id, plan_id_of};
use crate::text::lex_le;

verus! {

broadcast use vstd::seq_lib::group_to_multiset_ensures;

#[derive(Clone, Copy, Debug, PartialEq, Eq, Structural)]
pub enum ResourceCandidatePlanState {
    Ready,
    Degraded,
    Blocked,
}

/// A compiled proposal: the profiles to run, the lifecycle steps to take,
/// and whether it may be executed as it stands.
#[derive(Debug)]
pub struct ResourceCandidatePlan {
    pub plan_id: String,
    pub compiled_from_revision: u64,
    pub state: ResourceCandidatePlanState,
    pub executable: bool,
    pub selections: Vec<ResourceProfileSelection>,
    pub transitions: Vec<ResourceCandidateTransition>,
    pub reason_codes: Vec<String>,
}

/// What a plan is compiled from.
pub struct CompileResourceCandidatePlanInput {
    pub state_revision: u64,
    pub policy: ResourceCoordinatorPolicy,
    pub snapshot: ResourceSnapshot,
    pub gpu_device_index: Option<u32>,
    pub adapters: Vec<ResourceAdapterDiagnostic>,
    pub leases: Vec<ResourceLeaseDiagnostic>,
    pub scheduling: ResourceSchedulingIntentDiagnostics,
    pub controller_ids: Vec<String>,
}

/// The selections of a plan, sorted by adapter id, and whether a
/// referenced adapter had no selectable profile.
pub open spec fn plan_selections(i: CompileResourceCandidatePlanInput) -> (Seq<SelectionView>, bool) {
    let intent = i.scheduling.intent;
    let f = sel_fold(i.adapters@, referenced_ids(intent), intent.commands@, intent.strategy);
    (sorted_selections(f.0), f.1)
}

pub open spec fn plan_transitions(i: CompileResourceCandidatePlanInput) -> Seq<TransitionView> {
    dedup_steps(raw_transitions(i.scheduling.intent, i.adapters@, plan_selections(i).0))
}

pub open spec fn plan_start_missing(i: CompileResourceCandidatePlanInput) -> bool {
    unexecutable_start(i.adapters@, plan_transitions(i), required_starts(i.scheduling.intent))
}

/// Some transition's adapter has no registered controller.
pub open spec fn uncontrolled(ts: Seq<TransitionView>, controllers: Seq<Seq<char>>) -> bool {
    exists|k: int| 0 <= k < ts.len() && !controllers.contains(ts[k].adapter_id)
}

/// Some transition cannot be rolled back.
pub open spec fn without_rollback(ts: Seq<TransitionView>) -> bool {
    exists|k: int| 0 <= k < ts.len() && ts[k].rollback_operation is None
}

pub open spec fn scheduling_reasons(i: CompileResourceCandidatePlanInput, st: ResourceSchedulingIntentState) -> Set<
    Seq<char>,
> {
    if i.scheduling.state == st {
        reason_set(i.scheduling.reason_codes@)
    } else {
        Set::empty()
    }
}

/// The reasons that degrade a plan.
pub open spec fn plan_degraded(i: CompileResourceCandidatePlanInput) -> Set<Seq<char>> {
    let ts = plan_transitions(i);
    scheduling_reasons(i, ResourceSchedulingIntentState::Degraded) + reason_if(
        plan_selections(i).1,
        "resource_plan_no_selectable_profile"@,
    ) + reason_if(plan_start_missing(i), "resource_plan_start_unavailable"@) + reason_if(
        uncontrolled(ts, strs(i.controller_ids@)),
        "resource_plan_controller_unavailable"@,
    ) + reason_if(without_rollback(ts), "resource_plan_rollback_unavailable"@) + capacity_degraded(
        tally(ts, i.adapters@, i.leases@),
        i.snapshot,
    )
}

/// The reasons that block a plan.
pub open spec fn plan_blocked(i: CompileResourceCandidatePlanInput) -> Set<Seq<char>> {
    scheduling_reasons(i, ResourceSchedulingIntentState::Blocked) + capacity_blocked(
        tally(plan_transitions(i), i.adapters@, i.leases@),
        i.snapshot,
        i.policy,
        i.gpu_device_index,
        i.leases@,
    )
}

pub open spec fn plan_state(i: CompileResourceCandidatePlanInput) -> ResourceCandidatePlanState {
    if plan_blocked(i) == Set::<Seq<char>>::empty() {
        if plan_degraded(i) == Set::<Seq<char>>::empty() {
            ResourceCandidatePlanState::Ready
        } else {
            ResourceCandidatePlanState::Degraded
        }
    } else {
        ResourceCandidatePlanState::Blocked
    }
}

/// The reason codes a plan reports: the degrading ones, and the blocking
/// ones with them when it is blocked.
pub open spec fn plan_reasons(i: CompileResourceCandidatePlanInput) -> Set<Seq<char>> {
    if plan_blocked(i) == Set::<Seq<char>>::empty() {
        plan_degraded(i)
    } else {
        plan_blocked(i) + plan_degraded(i)
    }
}

/// A plan may run when nothing blocks it, every referenced adapter has a
/// profile, every required start is planned, and every step has a
/// controller and a rollback.
pub open spec fn plan_executable(i: CompileResourceCandidatePlanInput) -> bool {
    let ts = plan_transitions(i);
    &&& plan_state(i) != ResourceCandidatePlanState::Blocked
    &&& !plan_selections(i).1
    &&& !plan_start_missing(i)
    &&& !uncontrolled(ts, strs(i.controller_ids@))
    &&& !without_rollback(ts)
}

pub open spec fn strictly_sorted(s: Seq<Seq<char>>) -> bool {
    forall|a: int, b: int| 0 <= a < b < s.len() ==> lex_le(s[a], s[b]) && s[a] != s[b]
}

/// Whether some transition lacks a controller, and whether some lacks a
/// rollback.
fn transition_gaps(ts: &Vec<ResourceCandidateTransition>, controllers: &Vec<String>) -> (r: (bool, bool))
    ensures
        r.0 == uncontrolled(transition_views(ts@), strs(controllers@)),
        r.1 == without_rollback(transition_views(ts@)),
{
    let ghost tv = transition_views(ts@);
    let mut unctl = false;
    let mut norb = false;
    let mut k: usize = 0;
    assert(crate::text::views(controllers@) =~= strs(controllers@));
    while k < ts.len()
        invariant
            k <= ts@.len(),
            tv == transition_views(ts@),
            crate::text::views(controllers@) == strs(controllers@),
            unctl == exists|j: int| 0 <= j < k && !strs(controllers@).contains(tv[j].adapter_id),
            norb == exists|j: int| 0 <= j < k && tv[j].rollback_operation is None,
        decreases ts.len() - k,
    {
        let t = &ts[k];
        assert(tv[k as int] == t@);
        let chars = crate::text::chars_of(t.adapter_id.as_str());
        if !crate::plugins::contains_str(controllers, &chars) {
            unctl = true;
        }
        if t.rollback_operation.is_none() {
            norb = true;
        }
        k = k + 1;
    }
    (unctl, norb)
}

proof fn lemma_empty_reasons(v: Seq<String>)
    ensures
        (v.len() == 0) == (reason_set(v) == Set::<Seq<char>>::empty()),
{
    if v.len() == 0 {
        assert(reason_set(v) =~= Set::<Seq<char>>::empty());
    } else {
        assert(reason_set(v).contains(v[0]@)) by {
            assert(strs(v)[0] == v[0]@);
        }
    }
}

/// The reason codes of `v`, sorted.
pub(crate) fn sorted_reasons(v: Vec<String>) -> (r: Vec<String>)
    requires
        distinct_strs(strs(v@)),
    ensures
        strictly_sorted(strs(r@)),
        reason_set(r@) == reason_set(v@),
{
    let ghost vv = strs(v@);
    assert(crate::text::views(v@) =~= vv);
    assert forall|a: int, b: int| 0 <= a < b < v@.len() implies v@[a]@ != v@[b]@ by {
        assert(vv[a] == v@[a]@ && vv[b] == v@[b]@);
    }
    let r = crate::plugins::sort_strings_unique(v);
    proof {
        assert(crate::text::views(r@) =~= strs(r@));
        assert forall|a: int, b: int| 0 <= a < b < strs(r@).len() implies lex_le(strs(r@)[a], strs(r@)[b])
            && strs(r@)[a] != strs(r@)[b] by {
            assert(strs(r@)[a] == r@[a]@ && strs(r@)[b] == r@[b]@);
        }
        assert forall|x: Seq<char>| reason_set(r@).contains(x) <==> reason_set(v@).contains(x) by {
            assert(strs(r@).to_multiset().count(x) == vv.to_multiset().count(x));
        }
        assert(reason_set(r@) =~= reason_set(v@));
    }
    r
}

/// Compile the scheduling intent into a candidate plan: select a profile
/// for each referenced or running adapter, derive the lifecycle steps the
/// commands and strategy ask for, drop repeated steps, and check
/// controllers, rollbacks and capacity.
pub fn compile_resource_candidate_plan(input: &CompileResourceCandidatePlanInput) -> (r: ResourceCandidatePlan)
    ensures
        r.compiled_from_revision == input.state_revision,
        selection_views(r.selections@) == plan_selections(*input).0,
        transition_views(r.transitions@) == plan_transitions(*input),
        r.state == plan_state(*input),
        reason_set(r.reason_codes@) == plan_reasons(*input),
        strictly_sorted(strs(r.reason_codes@)),
        r.executable == plan_executable(*input),
        r.plan_id@ == plan_id_of(
            input.state_revision,
            input.scheduling.intent,
            plan_selections(*input).0,
            plan_transitions(*input),
        ),
{
    let intent = &input.scheduling.intent;
    let refs = referenced_exec(intent);
    let (selections, unselected) = compile_selections(&input.adapters, &refs, &intent.commands, intent.strategy);
    let (raw, req) = raw_transitions_exec(intent, &input.adapters, &selections);
    let transitions = dedup_exec(raw);
    let start_missing = unexecutable_start_exec(&input.adapters, &transitions, &req);
    let mut degraded: Vec<String> = Vec::new();
    let mut blocked: Vec<String> = Vec::new();
    assert(reason_set(degraded@) =~= Set::<Seq<char>>::empty());
    match input.scheduling.state {
        ResourceSchedulingIntentState::Degraded => {
            add_reasons(&mut degraded, &input.scheduling.reason_codes);
            assert(reason_set(blocked@) =~= Set::<Seq<char>>::empty());
        },
        ResourceSchedulingIntentState::Blocked => {
            add_reasons(&mut blocked, &input.scheduling.reason_codes);
        },
        ResourceSchedulingIntentState::Ready => {
            assert(reason_set(blocked@) =~= Set::<Seq<char>>::empty());
        },
    }
    add_reason_if(&mut degraded, unselected, "resource_plan_no_selectable_profile");
    add_reason_if(&mut degraded, start_missing, "resource_plan_start_unavailable");
    let (unctl, norb) = transition_gaps(&transitions, &input.controller_ids);
    add_reason_if(&mut degraded, unctl, "resource_plan_controller_unavailable");
    add_reason_if(&mut degraded, norb, "resource_plan_rollback_unavailable");
    let tl = tally_exec(&transitions, &input.adapters, &input.leases);
    capacity_reasons(tl, &input.snapshot, &input.policy, input.gpu_device_index, &input.leases, &mut degraded, &mut blocked);
    assert(reason_set(degraded@) =~= plan_degraded(*input));
    assert(reason_set(blocked@) =~= plan_blocked(*input));
    proof {
        lemma_empty_reasons(degraded@);
        lemma_empty_reasons(blocked@);
    }
    let is_blocked = blocked.len() > 0;
    let (state, reason_codes) = if !is_blocked {
        if degraded.len() == 0 {
            let empty: Vec<String> = Vec::new();
            assert(reason_set(empty@) =~= Set::<Seq<char>>::empty());
            (ResourceCandidatePlanState::Ready, empty)
        } else {
            (ResourceCandidatePlanState::Degraded, sorted_reasons(degraded))
        }
    } else {
        add_reasons(&mut blocked, &degraded);
        (ResourceCandidatePlanState::Blocked, sorted_reasons(blocked))
    };
    let executable = !is_blocked && !unselected && !start_missing && !unctl && !norb;
    let plan_id = candidate_plan_id(input.state_revision, intent, &selections, &transitions);
    ResourceCandidatePlan {
        plan_id,
        compiled_from_revision: input.state_revision,
        state,
        executable,
        selections,
        transitions,
        reason_codes,
    }
}

} // verus!
