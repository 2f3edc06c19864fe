//! Properties of admission, leases, the fair queue and automatic
//! preemption that hold across calls.

use vstd::prelude::*;
use super::coordinator::{
    combine_candidates, granted, lease_candidate, merge_candidates, merge_one, raw_candidates, strings_contain,
    adapter_index, CandidateModel, ResourceAdapterRegistration, TransitionGrant,
};
use super::leases::{
    admission_post, admission_verdict, first_match, live, live_leases, matches_request, pending_gpu, sat,
    CoordinatorState,
};
use super::model::{
    priority_rank, ResourceAdmissionDecision, ResourceAdmissionRequest, ResourceAdmissionResult,
    ResourceCoordinatorPolicy, ResourceLeaseDiagnostic, ResourceLeaseState, ResourceSnapshot,
};
use super::pressure::{device_free, restore_spec};
use super::queue::{effective_priority, ResourceAdmissionQueueItem};

verus! {

/// A granted admission that reserves GPU memory on an available snapshot
/// fits the device's free memory after the safety reserve and every
/// pending reservation on that device.
pub proof fn law_granted_gpu_reservation_fits(
    p: ResourceCoordinatorPolicy,
    ls: Seq<ResourceLeaseDiagnostic>,
    s: ResourceSnapshot,
    r: ResourceAdmissionRequest,
)
    requires
        admission_verdict(p, ls, s, r).0 == ResourceAdmissionDecision::Granted,
        r.reservation_mib > 0,
        s.available,
    ensures
        device_free(s.gpu_devices@, r.gpu_device_index) matches Some(f) && f >= sat(
            sat(p.gpu_safety_reserve_mib as nat, pending_gpu(ls, r.gpu_device_index)),
            r.reservation_mib as nat,
        ),
{
    reveal(admission_verdict);
}

/// A newly granted lease stays pending: the GPU memory pending on its
/// device grows by exactly its reservation, so a later admission counts it.
pub proof fn law_grant_adds_pending_reservation(
    old: CoordinatorState,
    new: CoordinatorState,
    r: ResourceAdmissionRequest,
    s: ResourceSnapshot,
    now_ms: u64,
    res: ResourceAdmissionResult,
)
    requires
        admission_post(old, new, r, s, now_ms, res),
        first_match(live_leases(old.leases@, now_ms), r) is None,
        res.decision != ResourceAdmissionDecision::Denied,
    ensures
        pending_gpu(new.leases@, r.gpu_device_index) == pending_gpu(live_leases(old.leases@, now_ms), r.gpu_device_index)
            + r.reservation_mib,
{
    reveal(admission_verdict);
}

/// A reused lease answers the request: same adapter, workload, profile,
/// device and budget. A changed budget never reuses a stale lease.
pub proof fn law_reuse_matches_budget(
    old: CoordinatorState,
    new: CoordinatorState,
    r: ResourceAdmissionRequest,
    s: ResourceSnapshot,
    now_ms: u64,
    res: ResourceAdmissionResult,
)
    requires
        admission_post(old, new, r, s, now_ms, res),
        res.decision == ResourceAdmissionDecision::Reused,
    ensures
        res.lease matches Some(l) && matches_request(l, r),
{
    let pruned = live_leases(old.leases@, now_ms);
    if first_match(pruned, r) is None {
        lemma_verdict_not_reused(old.policy, pruned, s, r);
    } else {
        lemma_first_match(pruned, r);
    }
}

proof fn lemma_verdict_not_reused(
    p: ResourceCoordinatorPolicy,
    ls: Seq<ResourceLeaseDiagnostic>,
    s: ResourceSnapshot,
    r: ResourceAdmissionRequest,
)
    ensures
        admission_verdict(p, ls, s, r).0 != ResourceAdmissionDecision::Reused,
{
    reveal(admission_verdict);
}

proof fn lemma_first_match(ls: Seq<ResourceLeaseDiagnostic>, r: ResourceAdmissionRequest)
    ensures
        first_match(ls, r) matches Some(k) ==> 0 <= k < ls.len() && matches_request(ls[k], r),
{
    reveal(first_match);
    if exists|k: int| 0 <= k < ls.len() && matches_request(ls[k], r) {
        let k0 = choose|k: int| 0 <= k < ls.len() && matches_request(ls[k], r);
        lemma_min_match(ls, r, k0);
    }
}

proof fn lemma_min_match(ls: Seq<ResourceLeaseDiagnostic>, r: ResourceAdmissionRequest, k0: int)
    requires
        0 <= k0 < ls.len(),
        matches_request(ls[k0], r),
    ensures
        exists|k: int|
            0 <= k < ls.len() && matches_request(ls[k], r) && forall|j: int| 0 <= j < k ==> !matches_request(ls[j], r),
    decreases k0,
{
    if exists|j: int| 0 <= j < k0 && matches_request(ls[j], r) {
        let j = choose|j: int| 0 <= j < k0 && matches_request(ls[j], r);
        lemma_min_match(ls, r, j);
    } else {
        assert(forall|j: int| 0 <= j < k0 ==> !matches_request(ls[j], r));
    }
}

proof fn lemma_live_push(ls: Seq<ResourceLeaseDiagnostic>, l: ResourceLeaseDiagnostic, t: u64)
    ensures
        live(l, t) ==> live_leases(ls.push(l), t) == live_leases(ls, t).push(l),
        !live(l, t) ==> live_leases(ls.push(l), t) == live_leases(ls, t),
{
    reveal(Seq::filter);
    assert(ls.push(l).drop_last() =~= ls);
}

proof fn lemma_live_subset(ls: Seq<ResourceLeaseDiagnostic>, t: u64, i: int)
    requires
        0 <= i < live_leases(ls, t).len(),
    ensures
        exists|j: int| 0 <= j < ls.len() && ls[j] == live_leases(ls, t)[i],
    decreases ls.len(),
{
    reveal(Seq::filter);
    if ls.len() > 0 {
        let init = ls.drop_last();
        assert(ls =~= init.push(ls.last()));
        lemma_live_push(init, ls.last(), t);
        if i < live_leases(init, t).len() {
            lemma_live_subset(init, t, i);
            let j = choose|j: int| 0 <= j < init.len() && init[j] == live_leases(init, t)[i];
            assert(ls[j] == init[j]);
        } else {
            assert(ls[ls.len() - 1] == live_leases(ls, t)[i]);
        }
    }
}

/// While a granted lease is live, repeating the same request reuses it:
/// the second admission answers `Reused` with the same lease id.
pub proof fn law_repeat_admission_reuses_live_lease(
    s0: CoordinatorState,
    s1: CoordinatorState,
    s2: CoordinatorState,
    r: ResourceAdmissionRequest,
    snap1: ResourceSnapshot,
    snap2: ResourceSnapshot,
    t1: u64,
    t2: u64,
    res1: ResourceAdmissionResult,
    res2: ResourceAdmissionResult,
)
    requires
        admission_post(s0, s1, r, snap1, t1, res1),
        first_match(live_leases(s0.leases@, t1), r) is None,
        res1.decision != ResourceAdmissionDecision::Denied,
        live(s1.leases@.last(), t2),
        admission_post(s1, s2, r, snap2, t2, res2),
    ensures
        res2.decision == ResourceAdmissionDecision::Reused,
        res1.lease matches Some(a) && res2.lease matches Some(b) && a.lease_id@ == b.lease_id@,
{
    reveal(admission_verdict);
    let p0 = live_leases(s0.leases@, t1);
    let l = s1.leases@.last();
    assert(s1.leases@ =~= p0.push(l));
    lemma_live_push(live_leases(s0.leases@, t1), l, t2);
    let p1 = live_leases(p0, t2);
    let pruned2 = live_leases(s1.leases@, t2);
    assert(pruned2 == p1.push(l));
    reveal(first_match);
    assert forall|j: int| 0 <= j < p1.len() implies !matches_request(#[trigger] p1[j], r) by {
        lemma_live_subset(p0, t2, j);
        let q = choose|q: int| 0 <= q < p0.len() && p0[q] == p1[j];
        if matches_request(p0[q], r) {
            assert(exists|k: int| 0 <= k < p0.len() && matches_request(p0[k], r));
        }
    }
    assert(matches_request(l, r));
    assert(pruned2[p1.len() as int] == l);
    assert(forall|j: int| 0 <= j < p1.len() ==> pruned2[j] == p1[j]);
    let k = first_match(pruned2, r)->0;
    assert(k == p1.len());
}

/// Waiting raises a queued request's effective priority by one level per
/// aging quantum: after three quanta every waiter is at the top level, so
/// old resident work cannot starve.
pub proof fn law_queue_aging_reaches_top(item: ResourceAdmissionQueueItem, quantum: u64, now_ms: u64)
    requires
        quantum > 0,
        now_ms >= item.enqueued_at_ms,
        now_ms - item.enqueued_at_ms >= 3 * quantum,
    ensures
        effective_priority(item, quantum, now_ms) == 3,
{
    let age = (now_ms - item.enqueued_at_ms) as nat;
    let q = quantum as nat;
    assert(age / q >= 3) by (nonlinear_arith)
        requires
            age >= 3 * q,
            q > 0,
    ;
}

/// Effective priority never falls while a request waits.
pub proof fn law_queue_aging_monotonic(item: ResourceAdmissionQueueItem, quantum: u64, t1: u64, t2: u64)
    requires
        t1 <= t2,
    ensures
        effective_priority(item, quantum, t1) <= effective_priority(item, quantum, t2),
{
    let q: nat = if quantum == 0 { 1 } else { quantum as nat };
    let a1: nat = if t1 >= item.enqueued_at_ms { (t1 - item.enqueued_at_ms) as nat } else { 0 };
    let a2: nat = if t2 >= item.enqueued_at_ms { (t2 - item.enqueued_at_ms) as nat } else { 0 };
    assert(a1 / q <= a2 / q) by (nonlinear_arith)
        requires
            a1 <= a2,
            q > 0,
    ;
}

/// What automatic preemption may yield for `req`: another adapter's lease
/// of lower priority, with grants for its operation and restore operation
/// and a controller.
pub open spec fn yieldable(
    c: CandidateModel,
    controllers: Seq<String>,
    grants: Seq<TransitionGrant>,
    req: ResourceAdmissionRequest,
) -> bool {
    &&& c.adapter_id != req.adapter_id@
    &&& priority_rank(c.priority) < priority_rank(req.priority)
    &&& restore_spec(c.operation) == Some(c.restore_operation)
    &&& granted(grants, req.adapter_id@, c.adapter_id, c.operation)
    &&& granted(grants, req.adapter_id@, c.adapter_id, c.restore_operation)
    &&& strings_contain(controllers, c.adapter_id)
}

proof fn lemma_raw_yieldable(
    reg: Seq<ResourceAdapterRegistration>,
    controllers: Seq<String>,
    grants: Seq<TransitionGrant>,
    req: ResourceAdmissionRequest,
    ls: Seq<ResourceLeaseDiagnostic>,
)
    ensures
        forall|i: int|
            0 <= i < raw_candidates(reg, controllers, grants, req, ls).len() ==> yieldable(
                #[trigger] raw_candidates(reg, controllers, grants, req, ls)[i],
                controllers,
                grants,
                req,
            ),
    decreases ls.len(),
{
    if ls.len() > 0 {
        lemma_raw_yieldable(reg, controllers, grants, req, ls.drop_last());
        let prev = raw_candidates(reg, controllers, grants, req, ls.drop_last());
        match lease_candidate(reg, controllers, grants, req, ls.last()) {
            Some(c) => {
                assert(yieldable(c, controllers, grants, req));
                assert(raw_candidates(reg, controllers, grants, req, ls) == prev.push(c));
                assert forall|i: int| 0 <= i < prev.len() + 1 implies yieldable(
                    #[trigger] prev.push(c)[i],
                    controllers,
                    grants,
                    req,
                ) by {
                    if i < prev.len() {
                        assert(prev.push(c)[i] == prev[i]);
                    }
                }
            },
            None => {},
        }
    }
}

proof fn lemma_adapter_index(acc: Seq<CandidateModel>, id: Seq<char>)
    ensures
        adapter_index(acc, id) matches Some(k) ==> 0 <= k < acc.len() && acc[k].adapter_id == id,
    decreases acc.len(),
{
    if acc.len() > 0 {
        lemma_adapter_index(acc.drop_last(), id);
    }
}

proof fn lemma_merge_yieldable(
    cs: Seq<CandidateModel>,
    controllers: Seq<String>,
    grants: Seq<TransitionGrant>,
    req: ResourceAdmissionRequest,
)
    requires
        forall|i: int| 0 <= i < cs.len() ==> yieldable(#[trigger] cs[i], controllers, grants, req),
    ensures
        forall|i: int|
            0 <= i < merge_candidates(cs).len() ==> yieldable(#[trigger] merge_candidates(cs)[i], controllers, grants, req),
    decreases cs.len(),
{
    if cs.len() > 0 {
        let init = cs.drop_last();
        assert forall|i: int| 0 <= i < init.len() implies yieldable(#[trigger] init[i], controllers, grants, req) by {
            assert(init[i] == cs[i]);
        }
        lemma_merge_yieldable(init, controllers, grants, req);
        let acc = merge_candidates(init);
        let c = cs.last();
        assert(yieldable(c, controllers, grants, req));
        lemma_adapter_index(acc, c.adapter_id);
        match adapter_index(acc, c.adapter_id) {
            Some(k) => {
                let m = combine_candidates(acc[k], c);
                assert(yieldable(acc[k], controllers, grants, req));
                assert(yieldable(m, controllers, grants, req));
                assert forall|i: int| 0 <= i < acc.len() implies yieldable(
                    #[trigger] acc.update(k, m)[i],
                    controllers,
                    grants,
                    req,
                ) by {
                    if i != k {
                        assert(acc.update(k, m)[i] == acc[i]);
                    }
                }
            },
            None => {
                assert forall|i: int| 0 <= i < acc.len() + 1 implies yieldable(
                    #[trigger] acc.push(c)[i],
                    controllers,
                    grants,
                    req,
                ) by {
                    if i < acc.len() {
                        assert(acc.push(c)[i] == acc[i]);
                    }
                }
            },
        }
    }
}

/// Automatic preemption only ever yields another adapter's lease of lower
/// priority, through the requester's grants for the yield and its restore,
/// and only when the adapter has a controller.
pub proof fn law_preemption_yields_only_lower_priority(
    reg: Seq<ResourceAdapterRegistration>,
    controllers: Seq<String>,
    grants: Seq<TransitionGrant>,
    req: ResourceAdmissionRequest,
    ls: Seq<ResourceLeaseDiagnostic>,
)
    ensures
        forall|i: int|
            0 <= i < merge_candidates(raw_candidates(reg, controllers, grants, req, ls)).len() ==> yieldable(
                #[trigger] merge_candidates(raw_candidates(reg, controllers, grants, req, ls))[i],
                controllers,
                grants,
                req,
            ),
{
    lemma_raw_yieldable(reg, controllers, grants, req, ls);
    lemma_merge_yieldable(raw_candidates(reg, controllers, grants, req, ls), controllers, grants, req);
}

/// Candidates are merged per adapter: no adapter appears twice.
pub proof fn law_candidates_one_per_adapter(cs: Seq<CandidateModel>)
    ensures
        forall|i: int, j: int|
            0 <= i < j < merge_candidates(cs).len() ==> merge_candidates(cs)[i].adapter_id != merge_candidates(
                cs,
            )[j].adapter_id,
    decreases cs.len(),
{
    if cs.len() > 0 {
        let init = cs.drop_last();
        law_candidates_one_per_adapter(init);
        let acc = merge_candidates(init);
        let c = cs.last();
        lemma_adapter_index(acc, c.adapter_id);
        lemma_adapter_index_none(acc, c.adapter_id);
        let r = merge_candidates(cs);
        match adapter_index(acc, c.adapter_id) {
            Some(k) => {
                assert forall|i: int, j: int| 0 <= i < j < r.len() implies r[i].adapter_id != r[j].adapter_id by {
                    assert(r[i].adapter_id == acc[i].adapter_id && r[j].adapter_id == acc[j].adapter_id);
                }
            },
            None => {
                assert forall|i: int, j: int| 0 <= i < j < r.len() implies r[i].adapter_id != r[j].adapter_id by {
                    if j == acc.len() {
                        assert(r[i] == acc[i]);
                    } else {
                        assert(r[i] == acc[i] && r[j] == acc[j]);
                    }
                }
            },
        }
    }
}

proof fn lemma_adapter_index_none(acc: Seq<CandidateModel>, id: Seq<char>)
    ensures
        adapter_index(acc, id) is None ==> forall|i: int| 0 <= i < acc.len() ==> acc[i].adapter_id != id,
    decreases acc.len(),
{
    if acc.len() > 0 {
        lemma_adapter_index_none(acc.drop_last(), id);
        assert forall|i: int| 0 <= i < acc.len() - 1 implies acc[i] == acc.drop_last()[i] by {}
    }
}

} // verus!
