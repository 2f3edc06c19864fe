//! Decisions around running a reviewed candidate plan: whether it may run
//! at all, which completed steps to undo and in what order when a later
//! step fails, and how the outcome is reported. The controllers' calls
//! themselves are made by the host around these functions.

use vstd::prelude::*;
use super::model::{opt_str_eq, opt_view, strs, ResourceAdapterOperation};
use super::plan::{
    selection_views, transition_views, ResourceCandidateTransition, ResourceProfileSelection, SelectionView,
    TransitionView,
};
use super::compile::{ResourceCandidatePlan, ResourceCandidatePlanState};
use super::admission::joined_with_bar;

verus! {

/// Why a candidate plan is refused before any step runs.
#[derive(Clone, Copy, Debug, PartialEq, Eq, Structural)]
pub enum ResourcePlanExecutionError {
    Blocked,
    NotExecutable,
    CandidateMismatch,
}

pub open spec fn execution_error_code(e: ResourcePlanExecutionError) -> Seq<char> {
    match e {
        ResourcePlanExecutionError::Blocked => "resource_plan_blocked"@,
        ResourcePlanExecutionError::NotExecutable => "resource_plan_not_executable"@,
        ResourcePlanExecutionError::CandidateMismatch => "resource_plan_candidate_mismatch"@,
    }
}

impl ResourcePlanExecutionError {
    /// The stable reason code.
    pub fn code(&self) -> (s: &'static str)
        ensures
            s@ == execution_error_code(*self),
    {
        match self {
            ResourcePlanExecutionError::Blocked => "resource_plan_blocked",
            ResourcePlanExecutionError::NotExecutable => "resource_plan_not_executable",
            ResourcePlanExecutionError::CandidateMismatch => "resource_plan_candidate_mismatch",
        }
    }
}

/// `plan` is the plan compiled now: same id, revision, selections and
/// transitions.
pub open spec fn same_candidate(plan: ResourceCandidatePlan, current: ResourceCandidatePlan) -> bool {
    &&& plan.plan_id@ == current.plan_id@
    &&& plan.compiled_from_revision == current.compiled_from_revision
    &&& selection_views(plan.selections@) == selection_views(current.selections@)
    &&& transition_views(plan.transitions@) == transition_views(current.transitions@)
}

/// The first reason to refuse running `plan` while `current` is the plan
/// compiled from the coordinator's present state.
pub open spec fn plan_refusal(plan: ResourceCandidatePlan, current: ResourceCandidatePlan) -> Option<
    ResourcePlanExecutionError,
> {
    if plan.state == ResourceCandidatePlanState::Blocked {
        Some(ResourcePlanExecutionError::Blocked)
    } else if !plan.executable {
        Some(ResourcePlanExecutionError::NotExecutable)
    } else if !same_candidate(plan, current) {
        Some(ResourcePlanExecutionError::CandidateMismatch)
    } else {
        None
    }
}

fn opt_u64_eq(a: Option<u64>, b: Option<u64>) -> (r: bool)
    ensures
        r == (a == b),
{
    match (a, b) {
        (Some(x), Some(y)) => x == y,
        (None, None) => true,
        _ => false,
    }
}

fn opt_u16_eq(a: Option<u16>, b: Option<u16>) -> (r: bool)
    ensures
        r == (a == b),
{
    match (a, b) {
        (Some(x), Some(y)) => x == y,
        (None, None) => true,
        _ => false,
    }
}

fn opt_op_eq(a: Option<ResourceAdapterOperation>, b: Option<ResourceAdapterOperation>) -> (r: bool)
    ensures
        r == (a == b),
{
    match (a, b) {
        (Some(x), Some(y)) => x == y,
        (None, None) => true,
        _ => false,
    }
}

fn same_selection(a: &ResourceProfileSelection, b: &ResourceProfileSelection) -> (r: bool)
    ensures
        r == (a@ == b@),
{
    crate::text::str_eq(a.adapter_id.as_str(), b.adapter_id.as_str()) && crate::text::str_eq(
        a.profile_id.as_str(),
        b.profile_id.as_str(),
    ) && a.source == b.source && opt_u64_eq(a.estimated_reservation_mib, b.estimated_reservation_mib)
        && opt_u64_eq(a.estimated_ram_mib, b.estimated_ram_mib) && opt_u16_eq(
        a.estimated_cpu_threads,
        b.estimated_cpu_threads,
    )
}

fn same_strings(a: &Vec<String>, b: &Vec<String>) -> (r: bool)
    ensures
        r == (strs(a@) == strs(b@)),
{
    if a.len() != b.len() {
        assert(strs(a@).len() != strs(b@).len());
        return false;
    }
    let mut i: usize = 0;
    while i < a.len()
        invariant
            i <= a@.len(),
            a@.len() == b@.len(),
            forall|j: int| 0 <= j < i ==> a@[j]@ == b@[j]@,
        decreases a.len() - i,
    {
        if !crate::text::str_eq(a[i].as_str(), b[i].as_str()) {
            assert(strs(a@)[i as int] != strs(b@)[i as int]);
            return false;
        }
        i = i + 1;
    }
    assert(strs(a@) =~= strs(b@));
    true
}

fn same_transition(a: &ResourceCandidateTransition, b: &ResourceCandidateTransition) -> (r: bool)
    ensures
        r == (a@ == b@),
{
    let r = crate::text::str_eq(a.adapter_id.as_str(), b.adapter_id.as_str()) && a.operation == b.operation
        && opt_str_eq(&a.profile_id, &b.profile_id) && opt_op_eq(a.rollback_operation, b.rollback_operation)
        && opt_str_eq(&a.rollback_profile_id, &b.rollback_profile_id) && opt_str_eq(
        &a.requested_by_adapter_id,
        &b.requested_by_adapter_id,
    ) && same_strings(&a.reason_codes, &b.reason_codes);
    proof {
        if r {
            assert(a@ =~= b@);
        }
    }
    r
}

fn same_selections(a: &Vec<ResourceProfileSelection>, b: &Vec<ResourceProfileSelection>) -> (r: bool)
    ensures
        r == (selection_views(a@) == selection_views(b@)),
{
    if a.len() != b.len() {
        assert(selection_views(a@).len() != selection_views(b@).len());
        return false;
    }
    let mut i: usize = 0;
    while i < a.len()
        invariant
            i <= a@.len(),
            a@.len() == b@.len(),
            forall|j: int| 0 <= j < i ==> a@[j]@ == b@[j]@,
        decreases a.len() - i,
    {
        if !same_selection(&a[i], &b[i]) {
            assert(selection_views(a@)[i as int] != selection_views(b@)[i as int]);
            return false;
        }
        i = i + 1;
    }
    assert(selection_views(a@) =~= selection_views(b@));
    true
}

fn same_transitions(a: &Vec<ResourceCandidateTransition>, b: &Vec<ResourceCandidateTransition>) -> (r: bool)
    ensures
        r == (transition_views(a@) == transition_views(b@)),
{
    if a.len() != b.len() {
        assert(transition_views(a@).len() != transition_views(b@).len());
        return false;
    }
    let mut i: usize = 0;
    while i < a.len()
        invariant
            i <= a@.len(),
            a@.len() == b@.len(),
            forall|j: int| 0 <= j < i ==> a@[j]@ == b@[j]@,
        decreases a.len() - i,
    {
        if !same_transition(&a[i], &b[i]) {
            assert(transition_views(a@)[i as int] != transition_views(b@)[i as int]);
            return false;
        }
        i = i + 1;
    }
    assert(transition_views(a@) =~= transition_views(b@));
    true
}

/// Check a reviewed plan before running it: a blocked or non-executable
/// plan is refused, and so is one that is no longer the plan compiled now.
pub fn check_candidate_plan(plan: &ResourceCandidatePlan, current: &ResourceCandidatePlan) -> (r: Result<
    (),
    ResourcePlanExecutionError,
>)
    ensures
        match plan_refusal(*plan, *current) {
            Some(e) => r == Err::<(), ResourcePlanExecutionError>(e),
            None => r is Ok,
        },
{
    match plan.state {
        ResourceCandidatePlanState::Blocked => {
            return Err(ResourcePlanExecutionError::Blocked);
        },
        _ => {},
    }
    if !plan.executable {
        return Err(ResourcePlanExecutionError::NotExecutable);
    }
    let same = crate::text::str_eq(plan.plan_id.as_str(), current.plan_id.as_str())
        && plan.compiled_from_revision == current.compiled_from_revision && same_selections(
        &plan.selections,
        &current.selections,
    ) && same_transitions(&plan.transitions, &current.transitions);
    if !same {
        return Err(ResourcePlanExecutionError::CandidateMismatch);
    }
    Ok(())
}

/// A step that ran: the position of its transition in the plan and
/// whether it changed the adapter's state.
pub struct CompletedStep {
    pub index: usize,
    pub changed_state: bool,
}

/// Undoing one completed step.
pub struct PlanRollbackStep {
    pub adapter_id: String,
    pub operation: Option<ResourceAdapterOperation>,
    pub profile_id: Option<String>,
}

pub struct RollbackView {
    pub adapter_id: Seq<char>,
    pub operation: Option<ResourceAdapterOperation>,
    pub profile_id: Option<Seq<char>>,
}

impl View for PlanRollbackStep {
    type V = RollbackView;

    open spec fn view(&self) -> RollbackView {
        RollbackView { adapter_id: self.adapter_id@, operation: self.operation, profile_id: opt_view(self.profile_id) }
    }
}

pub open spec fn rollback_views(s: Seq<PlanRollbackStep>) -> Seq<RollbackView> {
    s.map_values(|x: PlanRollbackStep| x@)
}

pub open spec fn rollback_of(t: TransitionView) -> RollbackView {
    RollbackView { adapter_id: t.adapter_id, operation: t.rollback_operation, profile_id: t.rollback_profile_id }
}

/// The rollbacks after a failure: the completed steps that changed state,
/// latest first.
pub open spec fn rollback_plan(ts: Seq<TransitionView>, done: Seq<CompletedStep>) -> Seq<RollbackView>
    decreases done.len(),
{
    if done.len() == 0 {
        Seq::empty()
    } else {
        let last = done.last();
        let here: Seq<RollbackView> = if last.changed_state {
            seq![rollback_of(ts[last.index as int])]
        } else {
            Seq::empty()
        };
        here + rollback_plan(ts, done.drop_last())
    }
}

/// The rollbacks to run after a step fails: each completed step that
/// changed state, in reverse order of completion.
pub fn plan_rollback_steps(transitions: &Vec<ResourceCandidateTransition>, completed: &Vec<CompletedStep>) -> (r: Vec<
    PlanRollbackStep,
>)
    requires
        forall|k: int| 0 <= k < completed@.len() ==> completed@[k].index < transitions@.len(),
    ensures
        rollback_views(r@) == rollback_plan(transition_views(transitions@), completed@),
{
    let ghost tv = transition_views(transitions@);
    let mut r: Vec<PlanRollbackStep> = Vec::new();
    let mut k: usize = completed.len();
    let ghost target = rollback_plan(tv, completed@);
    assert(completed@.take(k as int) =~= completed@);
    assert(rollback_views(r@) + rollback_plan(tv, completed@.take(k as int)) =~= target);
    while k > 0
        invariant
            k <= completed@.len(),
            tv == transition_views(transitions@),
            forall|j: int| 0 <= j < completed@.len() ==> completed@[j].index < transitions@.len(),
            rollback_views(r@) + rollback_plan(tv, completed@.take(k as int)) == target,
        decreases k,
    {
        let ghost before = rollback_views(r@);
        let ghost pre = completed@.take(k as int);
        assert(pre.last() == completed@[k - 1]);
        assert(pre.drop_last() =~= completed@.take(k - 1));
        let step = &completed[k - 1];
        if step.changed_state {
            let t = &transitions[step.index];
            assert(tv[step.index as int] == t@);
            r.push(
                PlanRollbackStep {
                    adapter_id: t.adapter_id.clone(),
                    operation: t.rollback_operation,
                    profile_id: crate::resource::model::copy_opt_string(&t.rollback_profile_id),
                },
            );
            assert(rollback_views(r@) =~= before.push(rollback_of(t@)));
            assert(rollback_views(r@) + rollback_plan(tv, completed@.take(k - 1)) =~= before + rollback_plan(tv, pre));
        } else {
            assert(before + rollback_plan(tv, pre) =~= before + rollback_plan(tv, completed@.take(k - 1)));
        }
        k = k - 1;
    }
    assert(completed@.take(0) =~= Seq::<CompletedStep>::empty());
    assert(rollback_views(r@) + Seq::<RollbackView>::empty() =~= rollback_views(r@));
    r
}

/// A candidate plan being run step by step: the next transition to run,
/// the steps that ran (in plan order), and whether a step failed.
pub struct PlanExecution {
    pub next: usize,
    pub completed: Vec<CompletedStep>,
    pub failed: bool,
}

/// What the host does next while running a plan.
pub enum PlanExecutionAction {
    /// Run the transition at this position, then report the outcome.
    RunStep(usize),
    /// A step failed: undo these steps in this order, then report failure.
    RollBack(Vec<PlanRollbackStep>),
    /// Every step ran.
    Finish,
}

/// The outcome of one step's controller call.
pub enum PlanStepEvent {
    /// The controller applied the transition; `already_in_state` when the
    /// adapter was already there and nothing changed.
    Succeeded { already_in_state: bool },
    /// The controller call failed.
    Failed,
}

/// The steps that ran are the plan's first `next` transitions, in order,
/// and `next` is within a plan of `len` transitions.
pub open spec fn execution_wf(e: PlanExecution, len: nat) -> bool {
    &&& e.next <= len
    &&& e.completed@.len() == e.next
    &&& forall|k: int| 0 <= k < e.completed@.len() ==> #[trigger] e.completed@[k].index == k
}

/// A plan run that has not started.
pub fn start_plan_execution() -> (r: PlanExecution)
    ensures
        r.next == 0,
        r.completed@.len() == 0,
        !r.failed,
{
    PlanExecution { next: 0, completed: Vec::new(), failed: false }
}

/// The next action: after a failure, roll back the completed steps that
/// changed state, latest first; else run the next step while one is left;
/// else finish.
pub fn plan_execution_action(e: &PlanExecution, transitions: &Vec<ResourceCandidateTransition>) -> (a:
    PlanExecutionAction)
    requires
        execution_wf(*e, transitions@.len()),
    ensures
        e.failed ==> (a matches PlanExecutionAction::RollBack(steps) && rollback_views(steps@) == rollback_plan(
            transition_views(transitions@),
            e.completed@,
        )),
        !e.failed && e.next < transitions@.len() ==> (a matches PlanExecutionAction::RunStep(i) && i == e.next),
        !e.failed && e.next >= transitions@.len() ==> a is Finish,
{
    if e.failed {
        PlanExecutionAction::RollBack(plan_rollback_steps(transitions, &e.completed))
    } else if e.next < transitions.len() {
        PlanExecutionAction::RunStep(e.next)
    } else {
        PlanExecutionAction::Finish
    }
}

/// Records the outcome of the step at `e.next`: a success completes it
/// (it changed state unless the adapter was already there) and moves on;
/// a failure stops the run there.
pub fn plan_execution_step(e: PlanExecution, len: usize, event: PlanStepEvent) -> (r: PlanExecution)
    requires
        execution_wf(e, len as nat),
        !e.failed,
        e.next < len,
    ensures
        execution_wf(r, len as nat),
        match event {
            PlanStepEvent::Succeeded { already_in_state } => {
                &&& r.next == e.next + 1
                &&& r.completed@ == e.completed@.push(CompletedStep { index: e.next, changed_state: !already_in_state })
                &&& !r.failed
            },
            PlanStepEvent::Failed => {
                &&& r.next == e.next
                &&& r.completed@ == e.completed@
                &&& r.failed
            },
        },
{
    let mut r = e;
    match event {
        PlanStepEvent::Succeeded { already_in_state } => {
            let step = CompletedStep { index: r.next, changed_state: !already_in_state };
            r.completed.push(step);
            r.next = r.next + 1;
        },
        PlanStepEvent::Failed => {
            r.failed = true;
        },
    }
    r
}

/// The error a rollback without a rollback operation reports.
pub fn rollback_unavailable_error(adapter_id: &str) -> (r: String)
    ensures
        r@ == adapter_id@ + ":resource_plan_rollback_unavailable"@,
{
    let mut r = crate::text::owned(adapter_id);
    crate::text::append(&mut r, ":resource_plan_rollback_unavailable");
    r
}

/// The error of a failed plan step, with the rollback's outcome.
pub open spec fn plan_failure(adapter_id: Seq<char>, error: Seq<char>, rollback_errors: Seq<Seq<char>>) -> Seq<char> {
    "resource_plan_transition_failed:"@ + adapter_id + ":"@ + error + ";"@ + if rollback_errors.len() == 0 {
        "rollback_confirmed"@
    } else {
        "rollback_failed:"@ + joined_with_bar(rollback_errors)
    }
}

pub fn plan_failure_message(adapter_id: &str, error: &str, rollback_errors: &Vec<String>) -> (r: String)
    ensures
        r@ == plan_failure(adapter_id@, error@, strs(rollback_errors@)),
{
    let mut out = crate::text::owned("resource_plan_transition_failed:");
    crate::text::append(&mut out, adapter_id);
    crate::text::append(&mut out, ":");
    crate::text::append(&mut out, error);
    crate::text::append(&mut out, ";");
    if rollback_errors.len() == 0 {
        crate::text::append(&mut out, "rollback_confirmed");
        return out;
    }
    crate::text::append(&mut out, "rollback_failed:");
    let joined = crate::resource::admission::join_with_bar(rollback_errors);
    crate::text::append(&mut out, joined.as_str());
    out
}

/// The requester a plan step reports: its own, else the coordinator.
pub fn plan_step_requester(t: &ResourceCandidateTransition) -> (r: String)
    ensures
        r@ == match opt_view(t.requested_by_adapter_id) {
            Some(q) => q,
            None => "host.resource_coordinator"@,
        },
{
    match &t.requested_by_adapter_id {
        Some(q) => q.clone(),
        None => crate::text::owned("host.resource_coordinator"),
    }
}

/// The parts joined with `,`.
pub open spec fn joined_with_comma(parts: Seq<Seq<char>>) -> Seq<char>
    decreases parts.len(),
{
    if parts.len() == 0 {
        Seq::empty()
    } else if parts.len() == 1 {
        parts[0]
    } else {
        joined_with_comma(parts.drop_last()) + seq![','] + parts.last()
    }
}

/// The reason a plan step hands its controller: its reason codes joined
/// with `,`, none when it has none.
pub fn plan_step_reason(t: &ResourceCandidateTransition) -> (r: Option<String>)
    ensures
        opt_view(r) == if t.reason_codes@.len() == 0 {
            None
        } else {
            Some(joined_with_comma(strs(t.reason_codes@)))
        },
{
    let parts = &t.reason_codes;
    if parts.len() == 0 {
        return None;
    }
    let mut out = crate::text::owned("");
    let mut i: usize = 0;
    proof {
        reveal_strlit("");
    }
    assert(strs(parts@).take(0) =~= Seq::<Seq<char>>::empty());
    while i < parts.len()
        invariant
            i <= parts.len(),
            out@ == joined_with_comma(strs(parts@).take(i as int)),
        decreases parts.len() - i,
    {
        let ghost tk = strs(parts@).take(i + 1);
        assert(tk.drop_last() =~= strs(parts@).take(i as int));
        if i > 0 {
            crate::text::append(&mut out, ",");
        }
        crate::text::append(&mut out, parts[i].as_str());
        proof {
            reveal_strlit(",");
            assert(tk.last() == strs(parts@)[i as int]);
            assert(strs(parts@)[i as int] == parts@[i as int]@);
            if i == 0 {
                assert(tk.len() == 1);
                assert(joined_with_comma(tk) == tk[0]);
                assert(out@ =~= tk[0]);
            } else {
                assert(joined_with_comma(tk) == joined_with_comma(tk.drop_last()) + seq![','] + tk.last());
            }
        }
        i = i + 1;
        assert(out@ =~= joined_with_comma(strs(parts@).take(i as int)));
    }
    assert(strs(parts@).take(i as int) =~= strs(parts@));
    Some(out)
}

} // verus!
