//! Admission through the coordinator: the profile check, one admission
//! attempt, lifecycle transition bookkeeping, and the decisions of the
//! automatic preemption round (the caller performs the transitions).

use vstd::prelude::*;
use super::coordinator::{
    adapter_pos, profile_registered, registered, AutomaticPreemptionCandidate, CandidateModel, ResourceCoordinator,
};
use super::leases::{
    admission_post, bumped, coordination_state, listed_by_id, live_leases, same_snapshot, without_adapter,
    ResourceCoordinationDiagnostics,
};
use super::model::{
    copy_opt_string, opt_view, strs, ResourceAdapterOperation, ResourceAdmissionDecision, ResourceAdmissionRequest,
    ResourceAdmissionResult, ResourceCoordinatorPolicy, ResourcePreemptionRecord, ResourcePressureLevel,
    ResourceSnapshot,
};
use super::pressure::{is_capacity_reason, preemption_relevant, releases_residency, transition_releases_residency};

verus! {

/// The request names a profile its registered adapter does not declare.
pub open spec fn profile_refused(reg: Seq<super::coordinator::ResourceAdapterRegistration>, r: ResourceAdmissionRequest) -> bool {
    match opt_view(r.profile_id) {
        Some(p) => registered(reg, r.adapter_id@) && !profile_registered(
            reg[adapter_pos(reg, r.adapter_id@)->0].descriptor,
            p,
        ),
        None => false,
    }
}

/// The answer to a request for an unregistered profile.
pub open spec fn profile_refusal(res: ResourceAdmissionResult) -> bool {
    &&& res.decision == ResourceAdmissionDecision::Denied
    &&& res.lease is None
    &&& !res.snapshot.available
    &&& res.snapshot.source@ == "not_evaluated"@
    &&& strs(res.snapshot.reason_codes@) == seq!["resource_profile_unregistered"@]
    &&& res.pressure == ResourcePressureLevel::Unknown
    &&& res.queue_wait_ms == 0
    &&& res.preempted_adapters@.len() == 0
    &&& strs(res.reason_codes@) == seq!["resource_profile_unregistered"@]
}

impl ResourceCoordinator {
    fn profile_declared(&self, k: usize, profile: &str) -> (r: bool)
        requires
            k < self.registry@.len(),
        ensures
            r == profile_registered(self.registry@[k as int].descriptor, profile@),
    {
        let ps = &self.registry[k].descriptor.profiles;
        let mut i: usize = 0;
        while i < ps.len()
            invariant
                i <= ps.len(),
                k < self.registry@.len(),
                ps == &self.registry@[k as int].descriptor.profiles,
                forall|j: int| 0 <= j < i ==> ps@[j].profile_id@ != profile@,
            decreases ps.len() - i,
        {
            if crate::text::str_eq(ps[i].profile_id.as_str(), profile) {
                return true;
            }
            i = i + 1;
        }
        false
    }

    /// One admission attempt on a fresh snapshot taken at `now_ms`: a
    /// profile its adapter does not declare is refused before anything is
    /// recorded; otherwise the state admits the request.
    pub fn admit_once(&mut self, request: ResourceAdmissionRequest, snapshot: ResourceSnapshot, now_ms: u64) -> (res:
        ResourceAdmissionResult)
        requires
            old(self).wf(),
            old(self).state.next_lease_id < u64::MAX,
        ensures
            final(self).wf(),
            final(self).registry@ == old(self).registry@,
            final(self).controller_ids@ == old(self).controller_ids@,
            final(self).grants@ == old(self).grants@,
            profile_refused(old(self).registry@, request) ==> profile_refusal(res) && final(self).state == old(self).state,
            !profile_refused(old(self).registry@, request) ==> admission_post(
                old(self).state,
                final(self).state,
                request,
                snapshot,
                now_ms,
                res,
            ),
    {
        let refused = match &request.profile_id {
            Some(p) => match self.find_adapter(request.adapter_id.as_str()) {
                Some(k) => !self.profile_declared(k, p.as_str()),
                None => false,
            },
            None => false,
        };
        if refused {
            let mut codes: Vec<String> = Vec::new();
            codes.push(crate::text::owned("resource_profile_unregistered"));
            assert(strs(codes@) =~= seq!["resource_profile_unregistered"@]);
            return ResourceAdmissionResult {
                decision: ResourceAdmissionDecision::Denied,
                lease: None,
                snapshot: ResourceSnapshot::unavailable("not_evaluated", "resource_profile_unregistered"),
                pressure: ResourcePressureLevel::Unknown,
                queue_wait_ms: 0,
                preempted_adapters: Vec::new(),
                reason_codes: codes,
            };
        }
        self.state.admit_checked(request, snapshot, now_ms)
    }

    /// Bookkeeping after a controller performed a lifecycle transition: an
    /// operation that releases residency drops the adapter's leases; returns
    /// whether any lease was dropped.
    pub fn record_transition_outcome(
        &mut self,
        adapter_id: &str,
        operation: ResourceAdapterOperation,
        already_in_state: bool,
    ) -> (lease_changed: bool)
        requires
            old(self).wf(),
        ensures
            final(self).wf(),
            final(self).registry@ == old(self).registry@,
            final(self).controller_ids@ == old(self).controller_ids@,
            final(self).grants@ == old(self).grants@,
            lease_changed <==> releases_residency(operation) && exists|i: int|
                0 <= i < old(self).state.leases@.len() && old(self).state.leases@[i].adapter_id@ == adapter_id@,
            !releases_residency(operation) ==> final(self).state.leases@ == old(self).state.leases@,
            releases_residency(operation) ==> forall|i: int|
                0 <= i < final(self).state.leases@.len() ==> final(self).state.leases@[i].adapter_id@ != adapter_id@,
            releases_residency(operation) ==> final(self).state.leases@ == without_adapter(
                old(self).state.leases@,
                adapter_id@,
            ),
            final(self).state.state_revision == if lease_changed || !already_in_state {
                bumped(old(self).state.state_revision)
            } else {
                old(self).state.state_revision
            },
    {
        let lease_changed = if transition_releases_residency(operation) {
            self.state.release_adapter(adapter_id) > 0
        } else {
            false
        };
        if !already_in_state && !lease_changed {
            self.bump();
        }
        lease_changed
    }

    /// The answer to a request that waited past the admission queue
    /// timeout: denied with the last snapshot and pressure, having waited
    /// the whole timeout.
    pub fn queue_timeout_result(&self) -> (r: ResourceAdmissionResult)
        ensures
            r.decision == ResourceAdmissionDecision::Denied,
            r.lease is None,
            r.snapshot.captured_at_ms == self.state.last_snapshot.captured_at_ms,
            r.snapshot.source@ == self.state.last_snapshot.source@,
            r.snapshot.available == self.state.last_snapshot.available,
            r.snapshot.gpu_devices@ == self.state.last_snapshot.gpu_devices@,
            r.snapshot.system_memory == self.state.last_snapshot.system_memory,
            r.snapshot.cpu == self.state.last_snapshot.cpu,
            r.snapshot.reason_codes@ == self.state.last_snapshot.reason_codes@,
            r.pressure == self.state.last_pressure,
            r.queue_wait_ms == self.state.policy.admission_queue_timeout_ms,
            r.preempted_adapters@.len() == 0,
            strs(r.reason_codes@) == seq!["resource_admission_queue_timeout"@],
    {
        let mut codes: Vec<String> = Vec::new();
        codes.push(crate::text::owned("resource_admission_queue_timeout"));
        assert(strs(codes@) =~= seq!["resource_admission_queue_timeout"@]);
        ResourceAdmissionResult {
            decision: ResourceAdmissionDecision::Denied,
            lease: None,
            snapshot: self.state.last_snapshot.copy(),
            pressure: self.state.last_pressure,
            queue_wait_ms: self.state.policy.admission_queue_timeout_ms,
            preempted_adapters: Vec::new(),
            reason_codes: codes,
        }
    }

    /// Diagnostics after dropping expired leases.
    pub fn diagnostics_snapshot(&mut self, now_ms: u64) -> (d: ResourceCoordinationDiagnostics)
        requires
            old(self).wf(),
        ensures
            final(self).wf(),
            final(self).state.leases@ == live_leases(old(self).state.leases@, now_ms),
            d.state_revision == final(self).state.state_revision,
            listed_by_id(d.leases@, final(self).state.leases@),
            d.admission_queue.active_ticket_id == old(self).admission_queue.active_ticket_id,
            d.admission_queue.queued@.len() == old(self).admission_queue.queued@.len(),
            forall|i: int|
                0 <= i < d.admission_queue.queued@.len() ==> super::queue::same_item(
                    #[trigger] d.admission_queue.queued@[i],
                    old(self).admission_queue.queued@[i],
                ),
            d.state == coordination_state(old(self).state.last_snapshot.source@, old(self).state.last_pressure),
            d.pressure == old(self).state.last_pressure,
            d.policy == old(self).state.policy,
            strs(d.reason_codes@) == strs(old(self).state.last_reason_codes@),
            same_snapshot(d.snapshot, old(self).state.last_snapshot),
            final(self).state.state_revision == if live_leases(old(self).state.leases@, now_ms).len()
                != old(self).state.leases@.len() {
                bumped(old(self).state.state_revision)
            } else {
                old(self).state.state_revision
            },
    {
        if self.state.prune_expired(now_ms) {
            self.bump();
        }
        let mut d = self.state.diagnostics();
        d.admission_queue = self.admission_queue.diagnostics();
        d
    }
}

/// Automatic preemption is tried for a denied admission when the policy
/// allows it and a capacity reason was given.
pub fn preemption_wanted(policy: &ResourceCoordinatorPolicy, result: &ResourceAdmissionResult) -> (r: bool)
    ensures
        r == (result.decision == ResourceAdmissionDecision::Denied && policy.automatic_preemption && exists|i: int|
            0 <= i < result.reason_codes@.len() && is_capacity_reason(#[trigger] result.reason_codes@[i]@)),
{
    let denied = match result.decision {
        ResourceAdmissionDecision::Denied => true,
        _ => false,
    };
    denied && policy.automatic_preemption && preemption_relevant(result)
}

/// The record of a candidate that yielded.
pub fn preemption_record(c: &AutomaticPreemptionCandidate) -> (r: ResourcePreemptionRecord)
    ensures
        r.adapter_id@ == c.adapter_id@,
        r.operation == c.operation,
        r.restore_operation == c.restore_operation,
        opt_view(r.profile_id) == opt_view(c.profile_id),
{
    ResourcePreemptionRecord {
        adapter_id: c.adapter_id.clone(),
        operation: c.operation,
        restore_operation: c.restore_operation,
        profile_id: copy_opt_string(&c.profile_id),
    }
}

/// A lifecycle transition request.
#[derive(Debug)]
pub struct ResourceAdapterTransitionRequest {
    pub adapter_id: String,
    pub operation: ResourceAdapterOperation,
    pub requested_by_adapter_id: String,
    pub profile_id: Option<String>,
    pub expected_revision: Option<u64>,
    pub reason: Option<String>,
}

/// The transition that asks a candidate to yield for `requester`.
pub fn preemption_transition(c: &AutomaticPreemptionCandidate, requester: &str) -> (r: ResourceAdapterTransitionRequest)
    ensures
        r.adapter_id@ == c.adapter_id@,
        r.operation == c.operation,
        r.requested_by_adapter_id@ == requester@,
        opt_view(r.profile_id) == opt_view(c.profile_id),
        r.expected_revision is None,
        opt_view(r.reason) == Some("higher-priority resource admission"@),
{
    ResourceAdapterTransitionRequest {
        adapter_id: c.adapter_id.clone(),
        operation: c.operation,
        requested_by_adapter_id: crate::text::owned(requester),
        profile_id: copy_opt_string(&c.profile_id),
        expected_revision: None,
        reason: Some(crate::text::owned("higher-priority resource admission")),
    }
}

/// `r` restores the yielded adapters of `records` for `requester`, last
/// yielded first.
pub open spec fn restores(
    r: Seq<ResourceAdapterTransitionRequest>,
    requester: Seq<char>,
    records: Seq<ResourcePreemptionRecord>,
) -> bool {
    &&& r.len() == records.len()
    &&& forall|i: int|
        0 <= i < r.len() ==> {
            let rec = records[records.len() - 1 - i];
            &&& (#[trigger] r[i]).adapter_id@ == rec.adapter_id@
            &&& r[i].operation == rec.restore_operation
            &&& r[i].requested_by_adapter_id@ == requester
            &&& opt_view(r[i].profile_id) == opt_view(rec.profile_id)
            &&& r[i].expected_revision is None
            &&& opt_view(r[i].reason) == Some("preempting resource workload released"@)
        }
}

/// The transitions that restore yielded adapters, in reverse order of
/// yielding.
pub fn restore_transitions(requester: &str, records: &Vec<ResourcePreemptionRecord>) -> (r: Vec<
    ResourceAdapterTransitionRequest,
>)
    ensures
        restores(r@, requester@, records@),
{
    let mut r: Vec<ResourceAdapterTransitionRequest> = Vec::new();
    let mut k: usize = records.len();
    while k > 0
        invariant
            k <= records@.len(),
            r@.len() == records@.len() - k,
            forall|i: int|
                0 <= i < r@.len() ==> {
                    let rec = records@[records@.len() - 1 - i];
                    &&& (#[trigger] r@[i]).adapter_id@ == rec.adapter_id@
                    &&& r@[i].operation == rec.restore_operation
                    &&& r@[i].requested_by_adapter_id@ == requester@
                    &&& opt_view(r@[i].profile_id) == opt_view(rec.profile_id)
                    &&& r@[i].expected_revision is None
                    &&& opt_view(r@[i].reason) == Some("preempting resource workload released"@)
                },
        decreases k,
    {
        k = k - 1;
        let rec = &records[k];
        r.push(
            ResourceAdapterTransitionRequest {
                adapter_id: rec.adapter_id.clone(),
                operation: rec.restore_operation,
                requested_by_adapter_id: crate::text::owned(requester),
                profile_id: copy_opt_string(&rec.profile_id),
                expected_revision: None,
                reason: Some(crate::text::owned("preempting resource workload released")),
            },
        );
    }
    r
}

/// The error after restoring: `resource_preemption_restore_failed:` and
/// the failures joined with `|`, none when every restore succeeded.
pub open spec fn restore_error(failures: Seq<Seq<char>>) -> Option<Seq<char>> {
    if failures.len() == 0 {
        None
    } else {
        Some("resource_preemption_restore_failed:"@ + joined_with_bar(failures))
    }
}

pub open spec fn joined_with_bar(parts: Seq<Seq<char>>) -> Seq<char>
    decreases parts.len(),
{
    if parts.len() == 0 {
        Seq::empty()
    } else if parts.len() == 1 {
        parts[0]
    } else {
        joined_with_bar(parts.drop_last()) + seq!['|'] + parts.last()
    }
}

/// The parts joined with `|`.
pub fn join_with_bar(parts: &Vec<String>) -> (r: String)
    ensures
        r@ == joined_with_bar(strs(parts@)),
{
    let mut out = crate::text::owned("");
    let mut i: usize = 0;
    proof {
        reveal_strlit("");
    }
    assert(strs(parts@).take(0) =~= Seq::<Seq<char>>::empty());
    while i < parts.len()
        invariant
            i <= parts.len(),
            out@ == joined_with_bar(strs(parts@).take(i as int)),
        decreases parts.len() - i,
    {
        let ghost t = strs(parts@).take(i + 1);
        assert(t.drop_last() =~= strs(parts@).take(i as int));
        if i > 0 {
            crate::text::append(&mut out, "|");
        }
        crate::text::append(&mut out, parts[i].as_str());
        proof {
            reveal_strlit("|");
            assert(t.last() == strs(parts@)[i as int]);
            assert(strs(parts@)[i as int] == parts@[i as int]@);
            if i == 0 {
                assert(t.len() == 1);
                assert(joined_with_bar(t) == t[0]);
                assert(out@ =~= t[0]);
            } else {
                assert(joined_with_bar(t) == joined_with_bar(t.drop_last()) + seq!['|'] + t.last());
            }
        }
        i = i + 1;
        assert(out@ =~= joined_with_bar(strs(parts@).take(i as int)));
    }
    assert(strs(parts@).take(i as int) =~= strs(parts@));
    out
}

pub fn restore_failure_message(failures: &Vec<String>) -> (r: Option<String>)
    ensures
        opt_view(r) == restore_error(strs(failures@)),
{
    if failures.len() == 0 {
        return None;
    }
    let mut out = crate::text::owned("resource_preemption_restore_failed:");
    let joined = join_with_bar(failures);
    crate::text::append(&mut out, joined.as_str());
    Some(out)
}

/// The reason codes after a preemption round: a failed rollback is
/// reported, and so is any failed preemption (once).
pub open spec fn concluded_reasons(codes: Seq<Seq<char>>, rollback_failed: bool, preemption_failed: bool) -> Seq<Seq<char>> {
    let c1 = if rollback_failed { codes.push("resource_preemption_rollback_failed"@) } else { codes };
    if preemption_failed && !c1.contains("resource_preemption_failed"@) {
        c1.push("resource_preemption_failed"@)
    } else {
        c1
    }
}

/// Finishes an admission after the preemption round: the records are
/// attached when admission succeeded or the rollback failed, the reason
/// codes completed, and the queue wait recorded.
pub fn conclude_admission(
    result: ResourceAdmissionResult,
    preempted: Vec<ResourcePreemptionRecord>,
    rollback_failed: bool,
    preemption_failed: bool,
    queue_wait_ms: u64,
) -> (r: ResourceAdmissionResult)
    ensures
        r.decision == result.decision,
        r.lease == result.lease,
        r.snapshot == result.snapshot,
        r.pressure == result.pressure,
        r.queue_wait_ms == queue_wait_ms,
        result.decision != ResourceAdmissionDecision::Denied || rollback_failed ==> r.preempted_adapters@
            == preempted@,
        !(result.decision != ResourceAdmissionDecision::Denied || rollback_failed) ==> r.preempted_adapters@
            == result.preempted_adapters@,
        strs(r.reason_codes@) == concluded_reasons(strs(result.reason_codes@), rollback_failed, preemption_failed),
{
    let mut res = result;
    let denied = match res.decision {
        ResourceAdmissionDecision::Denied => true,
        _ => false,
    };
    if !denied || rollback_failed {
        res.preempted_adapters = preempted;
    }
    let ghost c0 = strs(res.reason_codes@);
    if rollback_failed {
        res.reason_codes.push(crate::text::owned("resource_preemption_rollback_failed"));
        assert(strs(res.reason_codes@) =~= c0.push("resource_preemption_rollback_failed"@));
    }
    let ghost c1 = strs(res.reason_codes@);
    if preemption_failed {
        let f = crate::text::chars_of("resource_preemption_failed");
        if !crate::plugins::contains_str(&res.reason_codes, &f) {
            res.reason_codes.push(crate::text::owned("resource_preemption_failed"));
            assert(strs(res.reason_codes@) =~= c1.push("resource_preemption_failed"@));
        }
    }
    res.queue_wait_ms = queue_wait_ms;
    res
}

/// The automatic preemption round of one denied admission, between steps:
/// the candidates in offer order, the next one to ask, the latest admission
/// result, the adapters yielded so far, and whether a yield failed.
pub struct PreemptionRound {
    pub requester: String,
    pub candidates: Vec<AutomaticPreemptionCandidate>,
    pub next: usize,
    pub result: ResourceAdmissionResult,
    pub preempted: Vec<ResourcePreemptionRecord>,
    pub failed: bool,
}

/// What the caller does next in a preemption round.
pub enum PreemptionAction {
    /// Ask this adapter to yield, then report the outcome.
    Yield(ResourceAdapterTransitionRequest),
    /// Admission still fails: restore the yielded adapters in this order,
    /// then finish with whether any restore failed.
    Restore(Vec<ResourceAdapterTransitionRequest>),
    /// Finish the round.
    Done,
}

/// The outcome of a yield.
pub enum PreemptionEvent {
    /// The adapter yielded; the admission retried with this result.
    Yielded(ResourceAdmissionResult),
    /// The adapter did not yield.
    YieldFailed,
}

/// The round asks another candidate: admission is still denied and a
/// candidate is left.
pub open spec fn round_continues(r: PreemptionRound) -> bool {
    r.result.decision == ResourceAdmissionDecision::Denied && r.next < r.candidates@.len()
}

/// `rec` records candidate `c` as yielded.
pub open spec fn records_candidate(rec: ResourcePreemptionRecord, c: AutomaticPreemptionCandidate) -> bool {
    &&& rec.adapter_id@ == c.adapter_id@
    &&& rec.operation == c.operation
    &&& rec.restore_operation == c.restore_operation
    &&& opt_view(rec.profile_id) == opt_view(c.profile_id)
}

/// `t` asks candidate `c` to yield for `requester`.
pub open spec fn yields_candidate(t: ResourceAdapterTransitionRequest, c: AutomaticPreemptionCandidate, requester: Seq<char>) -> bool {
    &&& t.adapter_id@ == c.adapter_id@
    &&& t.operation == c.operation
    &&& t.requested_by_adapter_id@ == requester
    &&& opt_view(t.profile_id) == opt_view(c.profile_id)
    &&& t.expected_revision is None
    &&& opt_view(t.reason) == Some("higher-priority resource admission"@)
}

/// Starts the round for a denied admission with its candidates.
pub fn start_preemption(
    requester: &str,
    candidates: Vec<AutomaticPreemptionCandidate>,
    result: ResourceAdmissionResult,
) -> (r: PreemptionRound)
    ensures
        r.requester@ == requester@,
        r.candidates@ == candidates@,
        r.next == 0,
        r.result == result,
        r.preempted@.len() == 0,
        !r.failed,
{
    PreemptionRound {
        requester: crate::text::owned(requester),
        candidates,
        next: 0,
        result,
        preempted: Vec::new(),
        failed: false,
    }
}

/// The next action of the round: ask the next candidate while admission is
/// denied and candidates are left; then, when admission is still denied
/// and adapters were yielded, restore them; else finish.
pub fn preemption_action(round: &PreemptionRound) -> (a: PreemptionAction)
    ensures
        round_continues(*round) ==> (a matches PreemptionAction::Yield(t) && yields_candidate(
            t,
            round.candidates@[round.next as int],
            round.requester@,
        )),
        !round_continues(*round) && round.result.decision == ResourceAdmissionDecision::Denied
            && round.preempted@.len() > 0 ==> (a matches PreemptionAction::Restore(ts) && restores(
            ts@,
            round.requester@,
            round.preempted@,
        )),
        !round_continues(*round) && !(round.result.decision == ResourceAdmissionDecision::Denied
            && round.preempted@.len() > 0) ==> a is Done,
{
    let denied = match round.result.decision {
        ResourceAdmissionDecision::Denied => true,
        _ => false,
    };
    if denied && round.next < round.candidates.len() {
        PreemptionAction::Yield(preemption_transition(&round.candidates[round.next], round.requester.as_str()))
    } else if denied && round.preempted.len() > 0 {
        PreemptionAction::Restore(restore_transitions(round.requester.as_str(), &round.preempted))
    } else {
        PreemptionAction::Done
    }
}

/// Records the outcome of asking the next candidate: a yield adds its
/// record and takes the retried admission's result; a failure is noted.
pub fn preemption_step(round: PreemptionRound, event: PreemptionEvent) -> (r: PreemptionRound)
    requires
        round_continues(round),
    ensures
        r.requester@ == round.requester@,
        r.candidates@ == round.candidates@,
        r.next == round.next + 1,
        match event {
            PreemptionEvent::Yielded(res) => {
                &&& r.result == res
                &&& r.preempted@.len() == round.preempted@.len() + 1
                &&& r.preempted@.take(round.preempted@.len() as int) == round.preempted@
                &&& records_candidate(r.preempted@.last(), round.candidates@[round.next as int])
                &&& r.failed == round.failed
            },
            PreemptionEvent::YieldFailed => {
                &&& r.result == round.result
                &&& r.preempted@ == round.preempted@
                &&& r.failed
            },
        },
{
    let mut r = round;
    let n = r.candidates.len();
    assert(r.next < n);
    let c = &r.candidates[r.next];
    match event {
        PreemptionEvent::Yielded(res) => {
            let rec = preemption_record(c);
            r.preempted.push(rec);
            r.result = res;
        },
        PreemptionEvent::YieldFailed => {
            r.failed = true;
        },
    }
    r.next = r.next + 1;
    r
}

/// Ends the round: the admission concluded with the yielded adapters,
/// whether restoring them failed, whether any yield failed, and the queue
/// wait.
pub fn finish_preemption(round: PreemptionRound, rollback_failed: bool, queue_wait_ms: u64) -> (r: ResourceAdmissionResult)
    ensures
        r.decision == round.result.decision,
        r.lease == round.result.lease,
        r.queue_wait_ms == queue_wait_ms,
        round.result.decision != ResourceAdmissionDecision::Denied || rollback_failed ==> r.preempted_adapters@
            == round.preempted@,
        !(round.result.decision != ResourceAdmissionDecision::Denied || rollback_failed) ==> r.preempted_adapters@
            == round.result.preempted_adapters@,
        strs(r.reason_codes@) == concluded_reasons(strs(round.result.reason_codes@), rollback_failed, round.failed),
{
    conclude_admission(round.result, round.preempted, rollback_failed, round.failed, queue_wait_ms)
}

} // verus!
