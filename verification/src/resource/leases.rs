//! Lease bookkeeping and capacity admission.

use vstd::prelude::*;
use super::model::{
    copy_opt_string, copy_strings, max_priority, opt_str_eq, opt_view, priority_rank, strs,
    ResourceAdmissionDecision, ResourceAdmissionMode, ResourceAdmissionRequest, ResourceAdmissionResult,
    ResourceControlMode, ResourceCoordinatorPolicy, ResourceLeaseDiagnostic, ResourceLeaseState,
    ResourcePressureLevel, ResourcePriority, ResourceSnapshot,
};
use super::pressure::{materially_changed, 
    device_free, free_mib_for_device, pressure_for, pressure_reason_codes, pressure_reasons_spec,
    pressure_spec, snapshot_materially_changed,
};
use crate::text::{decimal, decimal_string, str_eq, string_of};

verus! {

broadcast use vstd::seq_lib::group_seq_properties;

/// `a + b`, saturating at `u64::MAX`.
pub open spec fn sat(a: nat, b: nat) -> nat {
    if a + b > u64::MAX {
        u64::MAX as nat
    } else {
        a + b
    }
}

/// The lease is still valid at `now_ms`.
pub open spec fn live(l: ResourceLeaseDiagnostic, now_ms: u64) -> bool {
    match l.expires_at_ms {
        None => true,
        Some(e) => e > now_ms,
    }
}

/// The leases still valid at `now_ms`, in order.
pub open spec fn live_leases(ls: Seq<ResourceLeaseDiagnostic>, now_ms: u64) -> Seq<ResourceLeaseDiagnostic> {
    ls.filter(|l: ResourceLeaseDiagnostic| live(l, now_ms))
}

/// GPU memory reserved but not yet confirmed on device `dev`.
pub open spec fn pending_gpu(ls: Seq<ResourceLeaseDiagnostic>, dev: Option<u32>) -> nat
    decreases ls.len(),
{
    if ls.len() == 0 {
        0
    } else {
        pending_gpu(ls.drop_last(), dev) + if ls.last().state == ResourceLeaseState::Reserved
            && ls.last().gpu_device_index == dev {
            ls.last().reservation_mib as nat
        } else {
            0
        }
    }
}

/// System memory reserved but not yet confirmed.
pub open spec fn pending_ram(ls: Seq<ResourceLeaseDiagnostic>) -> nat
    decreases ls.len(),
{
    if ls.len() == 0 {
        0
    } else {
        pending_ram(ls.drop_last()) + if ls.last().state == ResourceLeaseState::Reserved {
            ls.last().ram_reservation_mib as nat
        } else {
            0
        }
    }
}

/// CPU threads held by all leases (measured or reserved, whichever is larger).
pub open spec fn held_cpu(ls: Seq<ResourceLeaseDiagnostic>) -> nat
    decreases ls.len(),
{
    if ls.len() == 0 {
        0
    } else {
        held_cpu(ls.drop_last()) + if ls.last().actual_cpu_threads >= ls.last().cpu_thread_reservation {
            ls.last().actual_cpu_threads as nat
        } else {
            ls.last().cpu_thread_reservation as nat
        }
    }
}

/// A lease answers the same request: same adapter, workload, profile,
/// device, budget and control mode.
pub open spec fn matches_request(l: ResourceLeaseDiagnostic, r: ResourceAdmissionRequest) -> bool {
    &&& l.adapter_id@ == r.adapter_id@
    &&& l.workload_id@ == r.workload_id@
    &&& opt_view(l.profile_id) == opt_view(r.profile_id)
    &&& l.gpu_device_index == r.gpu_device_index
    &&& l.reservation_mib == r.reservation_mib
    &&& l.ram_reservation_mib == r.ram_reservation_mib
    &&& l.cpu_thread_reservation == r.cpu_thread_reservation
    &&& l.control_mode == r.control_mode
}

/// Position of the first lease that answers `r`.
#[verifier::opaque]
pub open spec fn first_match(ls: Seq<ResourceLeaseDiagnostic>, r: ResourceAdmissionRequest) -> Option<int> {
    if exists|k: int| 0 <= k < ls.len() && matches_request(ls[k], r) {
        Some(
            choose|k: int|
                0 <= k < ls.len() && matches_request(ls[k], r) && forall|j: int|
                    0 <= j < k ==> !matches_request(ls[j], r),
        )
    } else {
        None
    }
}

/// Reasons that deny an enforced admission for lack of capacity.
pub open spec fn capacity_denials(
    p: ResourceCoordinatorPolicy,
    ls: Seq<ResourceLeaseDiagnostic>,
    s: ResourceSnapshot,
    r: ResourceAdmissionRequest,
) -> Seq<Seq<char>> {
    let free = device_free(s.gpu_devices@, r.gpu_device_index);
    let gpu: Seq<Seq<char>> = if r.reservation_mib > 0 && s.available {
        match free {
            None => seq!["gpu_device_unavailable"@],
            Some(f) => if f < sat(
                sat(p.gpu_safety_reserve_mib as nat, pending_gpu(ls, r.gpu_device_index)),
                r.reservation_mib as nat,
            ) {
                seq!["insufficient_gpu_headroom"@]
            } else {
                seq![]
            },
        }
    } else {
        seq![]
    };
    let ram: Seq<Seq<char>> = if r.ram_reservation_mib > 0 {
        match s.system_memory {
            Some(m) => if m.available_mib < sat(
                sat(p.system_memory_safety_reserve_mib as nat, pending_ram(ls)),
                r.ram_reservation_mib as nat,
            ) {
                seq!["insufficient_system_memory_headroom"@]
            } else {
                seq![]
            },
            None => seq![],
        }
    } else {
        seq![]
    };
    let cpu: Seq<Seq<char>> = if r.cpu_thread_reservation > 0 {
        match s.cpu {
            Some(c) => if (c.logical_cores as nat) < sat(
                sat(p.cpu_safety_reserve_threads as nat, held_cpu(ls)),
                r.cpu_thread_reservation as nat,
            ) {
                seq!["insufficient_cpu_thread_headroom"@]
            } else {
                seq![]
            },
            None => seq![],
        }
    } else {
        seq![]
    };
    gpu + ram + cpu
}

/// Reasons why capacity could not be verified.
pub open spec fn unverified_reasons(s: ResourceSnapshot, r: ResourceAdmissionRequest) -> Seq<Seq<char>> {
    let gpu: Seq<Seq<char>> = if r.reservation_mib > 0 && !s.available {
        seq!["gpu_snapshot_unavailable"@]
    } else {
        seq![]
    };
    let ram: Seq<Seq<char>> = if r.ram_reservation_mib > 0 && s.system_memory is None {
        seq!["system_memory_snapshot_unavailable"@]
    } else {
        seq![]
    };
    let cpu: Seq<Seq<char>> = if r.cpu_thread_reservation > 0 && s.cpu is None {
        seq!["cpu_snapshot_unavailable"@]
    } else {
        seq![]
    };
    gpu + ram + cpu
}

/// Decision and reason codes of a fresh admission against the live leases.
#[verifier::opaque]
pub open spec fn admission_verdict(
    p: ResourceCoordinatorPolicy,
    ls: Seq<ResourceLeaseDiagnostic>,
    s: ResourceSnapshot,
    r: ResourceAdmissionRequest,
) -> (ResourceAdmissionDecision, Seq<Seq<char>>) {
    let denied = capacity_denials(p, ls, s, r);
    let unverified = unverified_reasons(s, r);
    let observe = r.admission_mode == ResourceAdmissionMode::ObserveOnly;
    if denied.len() > 0 && !observe {
        (ResourceAdmissionDecision::Denied, denied)
    } else if unverified.len() > 0 && !(observe || p.allow_unverified_admission) {
        (ResourceAdmissionDecision::Denied, unverified)
    } else if denied.len() > 0 || unverified.len() > 0 {
        (ResourceAdmissionDecision::GrantedUnverified, denied + unverified)
    } else {
        (ResourceAdmissionDecision::Granted, seq![])
    }
}

/// The text of lease number `n`.
pub open spec fn lease_id_text(n: nat) -> Seq<char> {
    "resource-lease-"@ + decimal(n)
}

/// `id` is the text of a lease number below `next`.
pub open spec fn issued(id: Seq<char>, next: u64) -> bool {
    exists|n: nat| n < next && id == lease_id_text(n)
}

/// Shared core of the coordinator: last snapshot, pressure, leases and the
/// revision and lease counters.
pub struct CoordinatorState {
    pub policy: ResourceCoordinatorPolicy,
    pub last_snapshot: ResourceSnapshot,
    pub last_pressure: ResourcePressureLevel,
    pub last_reason_codes: Vec<String>,
    pub leases: Vec<ResourceLeaseDiagnostic>,
    pub state_revision: u64,
    pub next_lease_id: u64,
}

/// The revision after observing `snapshot` at `now_ms`: advanced once when
/// expired leases were dropped, the snapshot changed materially or the
/// pressure level changed.
pub open spec fn observed_revision(old: CoordinatorState, snapshot: ResourceSnapshot, now_ms: u64, gpu_index: Option<u32>) -> u64 {
    if live_leases(old.leases@, now_ms).len() != old.leases@.len() || materially_changed(old.last_snapshot, snapshot)
        || pressure_spec(snapshot, old.policy, gpu_index) != old.last_pressure {
        bumped(old.state_revision)
    } else {
        old.state_revision
    }
}

/// `rev` advanced by one, stopping at `u64::MAX`.
pub open spec fn bumped(rev: u64) -> u64 {
    if rev < u64::MAX {
        (rev + 1) as u64
    } else {
        rev
    }
}

/// Two leases agree on every field (strings by content).
pub open spec fn same_lease(a: ResourceLeaseDiagnostic, b: ResourceLeaseDiagnostic) -> bool {
    &&& a.lease_id@ == b.lease_id@
    &&& a.adapter_id@ == b.adapter_id@
    &&& a.workload_id@ == b.workload_id@
    &&& opt_view(a.profile_id) == opt_view(b.profile_id)
    &&& a.gpu_device_index == b.gpu_device_index
    &&& a.reservation_mib == b.reservation_mib
    &&& a.actual_mib == b.actual_mib
    &&& a.ram_reservation_mib == b.ram_reservation_mib
    &&& a.actual_ram_mib == b.actual_ram_mib
    &&& a.cpu_thread_reservation == b.cpu_thread_reservation
    &&& a.actual_cpu_threads == b.actual_cpu_threads
    &&& a.priority == b.priority
    &&& a.control_mode == b.control_mode
    &&& a.state == b.state
    &&& a.granted_at_ms == b.granted_at_ms
    &&& a.expires_at_ms == b.expires_at_ms
    &&& strs(a.reason_codes@) == strs(b.reason_codes@)
}

/// Expiry of a lease refreshed at `now_ms`: managed active leases never
/// expire; others live one TTL of their state.
pub open spec fn refreshed_expiry(
    p: ResourceCoordinatorPolicy,
    state: ResourceLeaseState,
    mode: ResourceControlMode,
    now_ms: u64,
) -> Option<u64> {
    if state == ResourceLeaseState::Active && mode == ResourceControlMode::Managed {
        None
    } else {
        let ttl = if state == ResourceLeaseState::Reserved {
            p.pending_lease_ttl_ms
        } else {
            p.active_lease_ttl_ms
        };
        Some(sat(now_ms as nat, ttl as nat) as u64)
    }
}

/// `b` is lease `a` reused by request `r` at `now_ms`: priority raised to the
/// request's, expiry refreshed, everything else kept.
pub open spec fn reused_lease(
    a: ResourceLeaseDiagnostic,
    b: ResourceLeaseDiagnostic,
    r: ResourceAdmissionRequest,
    p: ResourceCoordinatorPolicy,
    now_ms: u64,
) -> bool {
    &&& b.lease_id@ == a.lease_id@
    &&& b.adapter_id@ == a.adapter_id@
    &&& b.workload_id@ == a.workload_id@
    &&& opt_view(b.profile_id) == opt_view(a.profile_id)
    &&& b.gpu_device_index == a.gpu_device_index
    &&& b.reservation_mib == a.reservation_mib
    &&& b.actual_mib == a.actual_mib
    &&& b.ram_reservation_mib == a.ram_reservation_mib
    &&& b.actual_ram_mib == a.actual_ram_mib
    &&& b.cpu_thread_reservation == a.cpu_thread_reservation
    &&& b.actual_cpu_threads == a.actual_cpu_threads
    &&& priority_rank(b.priority) == if priority_rank(a.priority) >= priority_rank(r.priority) {
        priority_rank(a.priority)
    } else {
        priority_rank(r.priority)
    }
    &&& (b.priority == a.priority || b.priority == r.priority)
    &&& b.control_mode == a.control_mode
    &&& b.state == a.state
    &&& b.granted_at_ms == a.granted_at_ms
    &&& b.expires_at_ms == refreshed_expiry(p, a.state, a.control_mode, now_ms)
    &&& strs(b.reason_codes@) == strs(a.reason_codes@)
}

/// `l` is the reserved lease number `n` granted to `r` at `now_ms` with `codes`.
pub open spec fn fresh_lease(
    l: ResourceLeaseDiagnostic,
    r: ResourceAdmissionRequest,
    p: ResourceCoordinatorPolicy,
    now_ms: u64,
    n: nat,
    codes: Seq<Seq<char>>,
) -> bool {
    &&& l.lease_id@ == lease_id_text(n)
    &&& l.adapter_id@ == r.adapter_id@
    &&& l.workload_id@ == r.workload_id@
    &&& opt_view(l.profile_id) == opt_view(r.profile_id)
    &&& l.gpu_device_index == r.gpu_device_index
    &&& l.reservation_mib == r.reservation_mib
    &&& l.actual_mib == 0
    &&& l.ram_reservation_mib == r.ram_reservation_mib
    &&& l.actual_ram_mib == 0
    &&& l.cpu_thread_reservation == r.cpu_thread_reservation
    &&& l.actual_cpu_threads == 0
    &&& l.priority == r.priority
    &&& l.control_mode == r.control_mode
    &&& l.state == ResourceLeaseState::Reserved
    &&& l.granted_at_ms == now_ms
    &&& l.expires_at_ms == Some(sat(now_ms as nat, p.pending_lease_ttl_ms as nat) as u64)
    &&& strs(l.reason_codes@) == codes
}

pub proof fn lemma_decimal_nonempty(n: nat)
    ensures
        decimal(n).len() >= 1,
        n >= 10 ==> decimal(n).len() >= 2,
    decreases n,
{
    if n >= 10 {
        lemma_decimal_nonempty(n / 10);
    }
}

/// Distinct numbers have distinct decimal renderings.
pub proof fn lemma_decimal_injective(a: nat, b: nat)
    requires
        decimal(a) == decimal(b),
    ensures
        a == b,
    decreases a,
{
    lemma_decimal_nonempty(a);
    lemma_decimal_nonempty(b);
    if a < 10 && b < 10 {
        assert(decimal(a)[0] == decimal(b)[0]);
        assert(decimal(a)[0] as u32 == a + 48);
        assert(decimal(b)[0] as u32 == b + 48);
    } else if a >= 10 && b >= 10 {
        assert(decimal(a).drop_last() =~= decimal(a / 10));
        assert(decimal(b).drop_last() =~= decimal(b / 10));
        lemma_decimal_injective(a / 10, b / 10);
        assert(decimal(a).last() == decimal(b).last());
        assert(decimal(a).last() as u32 == a % 10 + 48);
        assert(decimal(b).last() as u32 == b % 10 + 48);
    } else if a < 10 {
        assert(decimal(a).len() == 1);
    } else {
        assert(decimal(b).len() == 1);
    }
}

pub proof fn lemma_lease_id_injective(a: nat, b: nat)
    requires
        lease_id_text(a) == lease_id_text(b),
    ensures
        a == b,
{
    let p = "resource-lease-"@;
    assert(lease_id_text(a).skip(p.len() as int) =~= decimal(a));
    assert(lease_id_text(b).skip(p.len() as int) =~= decimal(b));
    lemma_decimal_injective(a, b);
}

/// The text of lease number `n`.
pub fn lease_id_string(n: u64) -> (s: String)
    ensures
        s@ == lease_id_text(n as nat),
{
    let mut s = crate::text::owned("resource-lease-");
    let digits = decimal_string(n);
    crate::text::append_chars(&mut s, &digits);
    s
}

/// Sums of GPU memory pending on `dev`, pending system memory, and held CPU threads.
pub fn lease_sums(ls: &Vec<ResourceLeaseDiagnostic>, dev: Option<u32>) -> (r: (u128, u128, u128))
    ensures
        r.0 == pending_gpu(ls@, dev),
        r.1 == pending_ram(ls@),
        r.2 == held_cpu(ls@),
        r.0 <= ls@.len() * (u64::MAX as nat),
        r.1 <= ls@.len() * (u64::MAX as nat),
        r.2 <= ls@.len() * (u16::MAX as nat),
{
    let mut g: u128 = 0;
    let mut m: u128 = 0;
    let mut c: u128 = 0;
    let mut i: usize = 0;
    while i < ls.len()
        invariant
            i <= ls.len(),
            g == pending_gpu(ls@.take(i as int), dev),
            m == pending_ram(ls@.take(i as int)),
            c == held_cpu(ls@.take(i as int)),
            g <= i * (u64::MAX as nat),
            m <= i * (u64::MAX as nat),
            c <= i * (u16::MAX as nat),
        decreases ls.len() - i,
    {
        let l = &ls[i];
        let ghost t = ls@.take(i + 1);
        assert(t.drop_last() =~= ls@.take(i as int));
        assert(t.last() == ls@[i as int]);
        let reserved = match l.state {
            ResourceLeaseState::Reserved => true,
            ResourceLeaseState::Active => false,
        };
        if reserved && l.gpu_device_index == dev {
            g = g + l.reservation_mib as u128;
        }
        if reserved {
            m = m + l.ram_reservation_mib as u128;
        }
        if l.actual_cpu_threads >= l.cpu_thread_reservation {
            c = c + l.actual_cpu_threads as u128;
        } else {
            c = c + l.cpu_thread_reservation as u128;
        }
        i = i + 1;
        assert(i * (u64::MAX as nat) == (i - 1) * (u64::MAX as nat) + u64::MAX) by (nonlinear_arith);
        assert(i * (u16::MAX as nat) == (i - 1) * (u16::MAX as nat) + u16::MAX) by (nonlinear_arith);
    }
    assert(ls@.take(ls@.len() as int) =~= ls@);
    (g, m, c)
}

/// Position of the first lease answering `r`.
pub fn find_matching_lease(ls: &Vec<ResourceLeaseDiagnostic>, r: &ResourceAdmissionRequest) -> (k: Option<usize>)
    ensures
        k matches Some(i) ==> first_match(ls@, *r) == Some(i as int) && i < ls@.len(),
        k is None ==> first_match(ls@, *r) is None,
{
    reveal(first_match);
    let mut i: usize = 0;
    while i < ls.len()
        invariant
            i <= ls.len(),
            forall|j: int| 0 <= j < i ==> !matches_request(ls@[j], *r),
        decreases ls.len() - i,
    {
        let l = &ls[i];
        if str_eq(l.adapter_id.as_str(), r.adapter_id.as_str()) && str_eq(
            l.workload_id.as_str(),
            r.workload_id.as_str(),
        ) && opt_str_eq(&l.profile_id, &r.profile_id) && l.gpu_device_index == r.gpu_device_index
            && l.reservation_mib == r.reservation_mib && l.ram_reservation_mib == r.ram_reservation_mib
            && l.cpu_thread_reservation == r.cpu_thread_reservation && match (
            l.control_mode,
            r.control_mode,
        ) {
            (ResourceControlMode::Managed, ResourceControlMode::Managed) => true,
            (ResourceControlMode::ObserveOnly, ResourceControlMode::ObserveOnly) => true,
            _ => false,
        } {
            reveal(first_match);
            assert(matches_request(ls@[i as int], *r));
            let ghost c = choose|k: int|
                0 <= k < ls@.len() && matches_request(ls@[k], *r) && forall|j: int|
                    0 <= j < k ==> !matches_request(ls@[j], *r);
            assert(c == i) by {
                if c < i {
                    assert(!matches_request(ls@[c], *r));
                } else if c > i {
                    assert(!matches_request(ls@[i as int], *r));
                }
            }
            return Some(i);
        }
        i = i + 1;
    }
    None
}

fn reason_vec(codes: &[&str]) -> (v: Vec<String>)
    ensures
        v@.len() == codes@.len(),
        forall|i: int| 0 <= i < codes@.len() ==> (#[trigger] v@[i])@ == codes@[i]@,
{
    let mut v: Vec<String> = Vec::new();
    let mut i: usize = 0;
    while i < codes.len()
        invariant
            i <= codes.len(),
            v@.len() == i,
            forall|j: int| 0 <= j < i ==> (#[trigger] v@[j])@ == codes@[j]@,
        decreases codes.len() - i,
    {
        v.push(crate::text::owned(codes[i]));
        i = i + 1;
    }
    v
}

fn push_reason(v: &mut Vec<String>, code: &str)
    ensures
        strs(final(v)@) == strs(old(v)@).push(code@),
{
    v.push(crate::text::owned(code));
    assert(strs(v@) =~= strs(old(v)@).push(code@));
}

fn extend_reasons(v: &mut Vec<String>, w: Vec<String>)
    ensures
        strs(final(v)@) == strs(old(v)@) + strs(w@),
{
    let mut w = w;
    let ghost v0 = strs(v@);
    let ghost w0 = strs(w@);
    let mut i: usize = 0;
    let n = w.len();
    while i < n
        invariant
            i <= n,
            n == w0.len(),
            strs(w@) == w0.skip(i as int),
            w@.len() == n - i,
            strs(v@) == v0 + w0.take(i as int),
        decreases n - i,
    {
        assert(strs(w@)[0] == w0[i as int]);
        let s = w.remove(0);
        assert(s@ == w0[i as int]);
        let ghost before = v@;
        v.push(s);
        assert(strs(v@) =~= strs(before).push(w0[i as int]));
        assert(w0.take(i + 1) =~= w0.take(i as int).push(w0[i as int]));
        i = i + 1;
        assert(strs(v@) =~= v0 + w0.take(i as int));
        assert(strs(w@) =~= w0.skip(i as int));
    }
    assert(w0.take(n as int) =~= w0);
}

fn policy_ttl(p: &ResourceCoordinatorPolicy, state: ResourceLeaseState, mode: ResourceControlMode, now_ms: u64) -> (r: Option<u64>)
    ensures
        r == refreshed_expiry(*p, state, mode, now_ms),
{
    let active = match state {
        ResourceLeaseState::Active => true,
        ResourceLeaseState::Reserved => false,
    };
    let managed = match mode {
        ResourceControlMode::Managed => true,
        ResourceControlMode::ObserveOnly => false,
    };
    if active && managed {
        None
    } else {
        let ttl = if active { p.active_lease_ttl_ms } else { p.pending_lease_ttl_ms };
        Some(now_ms.saturating_add(ttl))
    }
}

/// What one admission does: the snapshot and pressure are recorded,
/// expired leases dropped, an identical live lease reused, else a new
/// reserved lease granted unless capacity is missing.
pub open spec fn admission_post(
    old: CoordinatorState,
    new: CoordinatorState,
    request: ResourceAdmissionRequest,
    snapshot: ResourceSnapshot,
    now_ms: u64,
    res: ResourceAdmissionResult,
) -> bool {
    &&& new.wf()
    &&& new.policy == old.policy
    &&& new.last_snapshot == snapshot
    &&& new.last_pressure == pressure_spec(snapshot, old.policy, request.gpu_device_index)
    &&& res.pressure == new.last_pressure
    &&& res.queue_wait_ms == 0
    &&& res.preempted_adapters@.len() == 0
    &&& new.state_revision >= old.state_revision
    &&& new.state_revision == if res.decision == ResourceAdmissionDecision::Denied {
        observed_revision(old, snapshot, now_ms, request.gpu_device_index)
    } else {
        bumped(observed_revision(old, snapshot, now_ms, request.gpu_device_index))
    }
    &&& ({
            let pruned = live_leases(old.leases@, now_ms);
            match first_match(pruned, request) {
                Some(k) => {
                    &&& res.decision == ResourceAdmissionDecision::Reused
                    &&& res.reason_codes@.len() == 0
                    &&& new.last_reason_codes@.len() == 0
                    &&& new.next_lease_id == old.next_lease_id
                    &&& new.leases@.len() == pruned.len()
                    &&& reused_lease(pruned[k], new.leases@[k], request, old.policy, now_ms)
                    &&& forall|j: int| 0 <= j < pruned.len() && j != k ==> new.leases@[j] == pruned[j]
                    &&& res.lease matches Some(l) && same_lease(l, new.leases@[k])
                },
                None => {
                    let (d, codes) = admission_verdict(old.policy, pruned, snapshot, request);
                    &&& res.decision == d
                    &&& strs(res.reason_codes@) == codes
                    &&& strs(new.last_reason_codes@) == codes
                    &&& d == ResourceAdmissionDecision::Denied ==> {
                        &&& res.lease is None
                        &&& new.leases@ == pruned
                        &&& new.next_lease_id == old.next_lease_id
                    }
                    &&& d != ResourceAdmissionDecision::Denied ==> {
                        &&& new.leases@.len() == pruned.len() + 1
                        &&& new.leases@.drop_last() == pruned
                        &&& fresh_lease(
                            new.leases@.last(),
                            request,
                            old.policy,
                            now_ms,
                            old.next_lease_id as nat,
                            codes,
                        )
                        &&& new.next_lease_id == old.next_lease_id + 1
                        &&& res.lease matches Some(l) && same_lease(l, new.leases@.last())
                    }
                },
            }
        })
}

impl CoordinatorState {
    /// Lease ids are distinct and were issued from the counter.
    pub open spec fn wf(&self) -> bool {
        &&& forall|i: int, j: int|
            0 <= i < j < self.leases@.len() ==> self.leases@[i].lease_id@ != self.leases@[j].lease_id@
        &&& forall|i: int|
            0 <= i < self.leases@.len() ==> issued(#[trigger] self.leases@[i].lease_id@, self.next_lease_id)
    }

    /// A lease with this id exists.
    pub open spec fn has_lease(&self, id: Seq<char>) -> bool {
        exists|i: int| 0 <= i < self.leases@.len() && self.leases@[i].lease_id@ == id
    }

    pub fn new(policy: ResourceCoordinatorPolicy) -> (s: Self)
        ensures
            s.wf(),
            s.policy == policy,
            s.leases@.len() == 0,
            s.state_revision == 1,
            s.next_lease_id == 1,
            s.last_pressure == ResourcePressureLevel::Unknown,
            strs(s.last_reason_codes@) == seq!["resource_snapshot_not_evaluated"@],
            s.last_snapshot.source@ == "not_evaluated"@,
            !s.last_snapshot.available,
    {
        let mut codes: Vec<String> = Vec::new();
        codes.push(crate::text::owned("resource_snapshot_not_evaluated"));
        assert(strs(codes@) =~= seq!["resource_snapshot_not_evaluated"@]);
        CoordinatorState {
            policy,
            last_snapshot: ResourceSnapshot::unavailable("not_evaluated", "resource_snapshot_not_evaluated"),
            last_pressure: ResourcePressureLevel::Unknown,
            last_reason_codes: codes,
            leases: Vec::new(),
            state_revision: 1,
            next_lease_id: 1,
        }
    }

    fn bump_revision(&mut self)
        ensures
            final(self).state_revision == bumped(old(self).state_revision),
            final(self).leases@ == old(self).leases@,
            final(self).next_lease_id == old(self).next_lease_id,
            final(self).policy == old(self).policy,
            final(self).last_snapshot == old(self).last_snapshot,
            final(self).last_pressure == old(self).last_pressure,
            final(self).last_reason_codes@ == old(self).last_reason_codes@,
    {
        if self.state_revision < u64::MAX {
            self.state_revision = self.state_revision + 1;
        }
    }

    /// Drops leases whose expiry has passed; returns whether any was dropped.
    pub fn prune_expired(&mut self, now_ms: u64) -> (pruned: bool)
        requires
            old(self).wf(),
        ensures
            final(self).wf(),
            final(self).leases@ == live_leases(old(self).leases@, now_ms),
            pruned <==> final(self).leases@.len() != old(self).leases@.len(),
            final(self).state_revision == old(self).state_revision,
            final(self).next_lease_id == old(self).next_lease_id,
            final(self).policy == old(self).policy,
            final(self).last_snapshot == old(self).last_snapshot,
            final(self).last_pressure == old(self).last_pressure,
            final(self).last_reason_codes@ == old(self).last_reason_codes@,
    {
        let mut rest: Vec<ResourceLeaseDiagnostic> = Vec::new();
        std::mem::swap(&mut rest, &mut self.leases);
        let mut kept: Vec<ResourceLeaseDiagnostic> = Vec::new();
        let mut i: usize = 0;
        let n = rest.len();
        let ghost all = old(self).leases@;
        while i < n
            invariant
                n == all.len(),
                i <= n,
                rest@ == all.skip(i as int),
                kept@ == live_leases(all.take(i as int), now_ms),
                forall|a: int, b: int|
                    0 <= a < b < kept@.len() ==> kept@[a].lease_id@ != kept@[b].lease_id@,
                forall|a: int|
                    0 <= a < kept@.len() ==> exists|x: int| 0 <= x < i && #[trigger] kept@[a] == all[x],
                forall|x: int, y: int| 0 <= x < y < all.len() ==> all[x].lease_id@ != all[y].lease_id@,
            decreases n - i,
        {
            let l = rest.remove(0);
            assert(l == all[i as int]);
            proof {
                reveal(Seq::filter);
                assert(all.take(i + 1).drop_last() =~= all.take(i as int));
            }
            let keep = match l.expires_at_ms {
                None => true,
                Some(e) => e > now_ms,
            };
            assert(keep == live(all[i as int], now_ms));
            assert(all.take(i + 1).last() == all[i as int]);
            if keep {
                proof {
                    assert forall|a: int| 0 <= a < kept@.len() implies kept@[a].lease_id@ != all[i as int].lease_id@ by {
                        let x = choose|x: int| 0 <= x < i && #[trigger] kept@[a] == all[x];
                    }
                }
                kept.push(l);
                proof {
                    assert forall|a: int| 0 <= a < kept@.len() implies exists|x: int|
                        0 <= x < i + 1 && #[trigger] kept@[a] == all[x] by {
                        if a == kept@.len() - 1 {
                            assert(kept@[a] == all[i as int]);
                        } else {
                            let x = choose|x: int| 0 <= x < i && #[trigger] kept@.drop_last()[a] == all[x];
                            assert(kept@[a] == kept@.drop_last()[a]);
                        }
                    }
                }
            }
            i = i + 1;
        }
        assert(all.take(n as int) =~= all);
        let pruned = kept.len() != n;
        let ghost kv = kept@;
        self.leases = kept;
        proof {
            assert forall|a: int| 0 <= a < self.leases@.len() implies issued(
                #[trigger] self.leases@[a].lease_id@,
                self.next_lease_id,
            ) by {
                assert(self.leases@[a] == kv[a]);
                let x = choose|x: int| 0 <= x < n && #[trigger] kv[a] == all[x];
                assert(old(self).leases@[x].lease_id@ == kv[a].lease_id@);
            }
            assert(self.next_lease_id == old(self).next_lease_id);
            assert(forall|a: int, b: int|
                0 <= a < b < self.leases@.len() ==> self.leases@[a].lease_id@ != self.leases@[b].lease_id@);
        }
        pruned
    }

    /// Takes a new snapshot at `now_ms`: expired leases are dropped and
    /// pressure is recomputed for device `gpu_index`.
    fn observe_snapshot(&mut self, snapshot: ResourceSnapshot, now_ms: u64, gpu_index: Option<u32>)
        requires
            old(self).wf(),
        ensures
            final(self).wf(),
            final(self).policy == old(self).policy,
            final(self).leases@ == live_leases(old(self).leases@, now_ms),
            final(self).next_lease_id == old(self).next_lease_id,
            final(self).last_snapshot == snapshot,
            final(self).last_pressure == pressure_spec(snapshot, old(self).policy, gpu_index),
            final(self).last_reason_codes@ == old(self).last_reason_codes@,
            final(self).state_revision == observed_revision(*old(self), snapshot, now_ms, gpu_index),
    {
        let pruned = self.prune_expired(now_ms);
        let changed = snapshot_materially_changed(&self.last_snapshot, &snapshot);
        let previous = self.last_pressure;
        let pressure = pressure_for(&snapshot, &self.policy, gpu_index);
        self.last_pressure = pressure;
        self.last_snapshot = snapshot;
        let pressure_changed = match (previous, pressure) {
            (ResourcePressureLevel::Unknown, ResourcePressureLevel::Unknown) => false,
            (ResourcePressureLevel::Normal, ResourcePressureLevel::Normal) => false,
            (ResourcePressureLevel::Elevated, ResourcePressureLevel::Elevated) => false,
            (ResourcePressureLevel::Critical, ResourcePressureLevel::Critical) => false,
            _ => true,
        };
        if pruned || changed || pressure_changed {
            self.bump_revision();
        }
    }

    /// Refreshes lease `k` for a repeated request.
    fn reuse(&mut self, k: usize, request: &ResourceAdmissionRequest, now_ms: u64) -> (out: ResourceLeaseDiagnostic)
        requires
            old(self).wf(),
            k < old(self).leases@.len(),
        ensures
            final(self).wf(),
            final(self).policy == old(self).policy,
            final(self).next_lease_id == old(self).next_lease_id,
            final(self).last_snapshot == old(self).last_snapshot,
            final(self).last_pressure == old(self).last_pressure,
            final(self).last_reason_codes@.len() == 0,
            final(self).state_revision == bumped(old(self).state_revision),
            final(self).leases@.len() == old(self).leases@.len(),
            reused_lease(old(self).leases@[k as int], final(self).leases@[k as int], *request, old(self).policy, now_ms),
            forall|j: int|
                0 <= j < old(self).leases@.len() && j != k ==> final(self).leases@[j] == old(self).leases@[j],
            same_lease(out, final(self).leases@[k as int]),
    {
        let ghost before = self.leases@;
        let mut l = self.leases[k].copy();
        l.priority = max_priority(l.priority, request.priority);
        l.expires_at_ms = policy_ttl(&self.policy, l.state, l.control_mode, now_ms);
        let out = l.copy();
        self.leases.set(k, l);
        self.last_reason_codes = Vec::new();
        self.bump_revision();
        proof {
            assert forall|i: int, j: int| 0 <= i < j < self.leases@.len() implies self.leases@[i].lease_id@
                != self.leases@[j].lease_id@ by {
                assert(self.leases@[i].lease_id@ == before[i].lease_id@);
                assert(self.leases@[j].lease_id@ == before[j].lease_id@);
            }
            assert forall|i: int| 0 <= i < self.leases@.len() implies issued(
                #[trigger] self.leases@[i].lease_id@,
                self.next_lease_id,
            ) by {
                assert(self.leases@[i].lease_id@ == before[i].lease_id@);
            }
        }
        out
    }

    /// Decision and reason codes of a fresh admission against the current
    /// leases and snapshot.
    fn verdict(&self, request: &ResourceAdmissionRequest) -> (r: (ResourceAdmissionDecision, Vec<String>))
        ensures
            r.0 == admission_verdict(self.policy, self.leases@, self.last_snapshot, *request).0,
            strs(r.1@) == admission_verdict(self.policy, self.leases@, self.last_snapshot, *request).1,
    {
        reveal(admission_verdict);
        let (pending_gpu_mib, pending_ram_mib, held_cpu_threads) = lease_sums(
            &self.leases,
            request.gpu_device_index,
        );
        let snap = &self.last_snapshot;
        let selected_free = free_mib_for_device(snap, request.gpu_device_index);
        let len = self.leases.len();
        assert(len * (u64::MAX as nat) + u64::MAX <= u128::MAX) by (nonlinear_arith)
            requires
                len <= usize::MAX,
                usize::MAX <= u64::MAX,
        ;
        assert(len * (u16::MAX as nat) <= len * (u64::MAX as nat)) by (nonlinear_arith);
        let mut denied: Vec<String> = Vec::new();
        let mut unverified: Vec<String> = Vec::new();
        if request.reservation_mib > 0 {
            let required = sat_sum(
                sat_sum(self.policy.gpu_safety_reserve_mib as u128, pending_gpu_mib),
                request.reservation_mib as u128,
            );
            if !snap.available {
                push_reason(&mut unverified, "gpu_snapshot_unavailable");
            } else {
                match selected_free {
                    None => push_reason(&mut denied, "gpu_device_unavailable"),
                    Some(f) => {
                        if (f as u128) < required {
                            push_reason(&mut denied, "insufficient_gpu_headroom");
                        }
                    },
                }
            }
        }
        if request.ram_reservation_mib > 0 {
            match snap.system_memory {
                Some(m) => {
                    let required = sat_sum(
                        sat_sum(self.policy.system_memory_safety_reserve_mib as u128, pending_ram_mib),
                        request.ram_reservation_mib as u128,
                    );
                    if (m.available_mib as u128) < required {
                        push_reason(&mut denied, "insufficient_system_memory_headroom");
                    }
                },
                None => push_reason(&mut unverified, "system_memory_snapshot_unavailable"),
            }
        }
        if request.cpu_thread_reservation > 0 {
            match snap.cpu {
                Some(c) => {
                    let required = sat_sum(
                        sat_sum(self.policy.cpu_safety_reserve_threads as u128, held_cpu_threads),
                        request.cpu_thread_reservation as u128,
                    );
                    if (c.logical_cores as u128) < required {
                        push_reason(&mut denied, "insufficient_cpu_thread_headroom");
                    }
                },
                None => push_reason(&mut unverified, "cpu_snapshot_unavailable"),
            }
        }
        proof {
            let cd = capacity_denials(self.policy, self.leases@, self.last_snapshot, *request);
            let uv = unverified_reasons(self.last_snapshot, *request);
            assert(strs(denied@) =~= cd);
            assert(strs(unverified@) =~= uv);
        }
        let observe = match request.admission_mode {
            ResourceAdmissionMode::ObserveOnly => true,
            ResourceAdmissionMode::Enforced => false,
        };
        let unverified_allowed = observe || self.policy.allow_unverified_admission;
        if denied.len() > 0 && !observe {
            (ResourceAdmissionDecision::Denied, denied)
        } else if unverified.len() > 0 && !unverified_allowed {
            (ResourceAdmissionDecision::Denied, unverified)
        } else if denied.len() > 0 || unverified.len() > 0 {
            let mut all = denied;
            extend_reasons(&mut all, unverified);
            (ResourceAdmissionDecision::GrantedUnverified, all)
        } else {
            (ResourceAdmissionDecision::Granted, Vec::new())
        }
    }

    /// Appends a reserved lease for `request` carrying `codes`.
    fn grant(&mut self, request: ResourceAdmissionRequest, codes: &Vec<String>, now_ms: u64) -> (out: ResourceLeaseDiagnostic)
        requires
            old(self).wf(),
            old(self).next_lease_id < u64::MAX,
        ensures
            final(self).wf(),
            final(self).policy == old(self).policy,
            final(self).last_snapshot == old(self).last_snapshot,
            final(self).last_pressure == old(self).last_pressure,
            final(self).last_reason_codes@ == old(self).last_reason_codes@,
            final(self).state_revision == bumped(old(self).state_revision),
            final(self).next_lease_id == old(self).next_lease_id + 1,
            final(self).leases@.len() == old(self).leases@.len() + 1,
            final(self).leases@.drop_last() == old(self).leases@,
            fresh_lease(
                final(self).leases@.last(),
                request,
                old(self).policy,
                now_ms,
                old(self).next_lease_id as nat,
                strs(codes@),
            ),
            same_lease(out, final(self).leases@.last()),
    {
        let ghost before = self.leases@;
        let n = self.next_lease_id;
        self.next_lease_id = n + 1;
        let lease = ResourceLeaseDiagnostic {
            lease_id: lease_id_string(n),
            adapter_id: request.adapter_id,
            workload_id: request.workload_id,
            profile_id: request.profile_id,
            gpu_device_index: request.gpu_device_index,
            reservation_mib: request.reservation_mib,
            actual_mib: 0,
            ram_reservation_mib: request.ram_reservation_mib,
            actual_ram_mib: 0,
            cpu_thread_reservation: request.cpu_thread_reservation,
            actual_cpu_threads: 0,
            priority: request.priority,
            control_mode: request.control_mode,
            state: ResourceLeaseState::Reserved,
            granted_at_ms: now_ms,
            expires_at_ms: Some(now_ms.saturating_add(self.policy.pending_lease_ttl_ms)),
            reason_codes: copy_strings(codes),
        };
        let out = lease.copy();
        self.leases.push(lease);
        self.bump_revision();
        proof {
            let last = self.leases@.len() - 1;
            assert forall|i: int| 0 <= i < last implies self.leases@[i].lease_id@ != self.leases@[last].lease_id@ by {
                assert(self.leases@[i] == before[i]);
                assert(issued(before[i].lease_id@, n));
                let m = choose|m: nat| m < n && before[i].lease_id@ == lease_id_text(m);
                if before[i].lease_id@ == lease_id_text(n as nat) {
                    lemma_lease_id_injective(m, n as nat);
                }
            }
            assert forall|i: int| 0 <= i < self.leases@.len() implies issued(
                #[trigger] self.leases@[i].lease_id@,
                self.next_lease_id,
            ) by {
                if i < last {
                    assert(self.leases@[i] == before[i]);
                    assert(issued(before[i].lease_id@, n));
                } else {
                    assert(self.leases@[i].lease_id@ == lease_id_text(n as nat));
                }
            }
            assert(self.leases@.drop_last() =~= before);
        }
        out
    }

    /// Reserves capacity for `request` against `snapshot` at `now_ms`: an
    /// identical live lease is reused; otherwise a new reserved lease is
    /// granted unless capacity is missing.
    #[verifier::rlimit(80)]
    #[verifier::spinoff_prover]
    pub fn admit_checked(
        &mut self,
        request: ResourceAdmissionRequest,
        snapshot: ResourceSnapshot,
        now_ms: u64,
    ) -> (res: ResourceAdmissionResult)
        requires
            old(self).wf(),
            old(self).next_lease_id < u64::MAX,
        ensures
            admission_post(*old(self), *final(self), request, snapshot, now_ms, res),
    {
        let pressure = pressure_for(&snapshot, &self.policy, request.gpu_device_index);
        let result_snapshot = snapshot.copy();
        self.observe_snapshot(snapshot, now_ms, request.gpu_device_index);
        match find_matching_lease(&self.leases, &request) {
            Some(k) => {
                let out = self.reuse(k, &request, now_ms);
                ResourceAdmissionResult {
                    decision: ResourceAdmissionDecision::Reused,
                    lease: Some(out),
                    snapshot: result_snapshot,
                    pressure,
                    queue_wait_ms: 0,
                    preempted_adapters: Vec::new(),
                    reason_codes: Vec::new(),
                }
            },
            None => {
                let (decision, reason_codes) = self.verdict(&request);
                self.last_reason_codes = copy_strings(&reason_codes);
                let is_denied = match decision {
                    ResourceAdmissionDecision::Denied => true,
                    _ => false,
                };
                if is_denied {
                    return ResourceAdmissionResult {
                        decision,
                        lease: None,
                        snapshot: result_snapshot,
                        pressure,
                        queue_wait_ms: 0,
                        preempted_adapters: Vec::new(),
                        reason_codes,
                    };
                }
                let out = self.grant(request, &reason_codes, now_ms);
                ResourceAdmissionResult {
                    decision,
                    lease: Some(out),
                    snapshot: result_snapshot,
                    pressure,
                    queue_wait_ms: 0,
                    preempted_adapters: Vec::new(),
                    reason_codes,
                }
            },
        }
    }
}

/// `a + b`, saturating at `u64::MAX`.
fn sat_sum(a: u128, b: u128) -> (r: u128)
    requires
        a + b <= u128::MAX,
    ensures
        r == sat(a as nat, b as nat),
{
    if a + b > u64::MAX as u128 {
        u64::MAX as u128
    } else {
        a + b
    }
}


/// Which leases a release removes.
pub enum LeaseSelector {
    Lease(String),
    Adapter(String),
    Workload(String, String),
}

pub open spec fn selects(sel: LeaseSelector, l: ResourceLeaseDiagnostic) -> bool {
    match sel {
        LeaseSelector::Lease(id) => l.lease_id@ == id@,
        LeaseSelector::Adapter(a) => l.adapter_id@ == a@,
        LeaseSelector::Workload(a, w) => l.adapter_id@ == a@ && l.workload_id@ == w@,
    }
}

/// The leases of adapters other than `adapter`, in order.
pub open spec fn without_adapter(ls: Seq<ResourceLeaseDiagnostic>, adapter: Seq<char>) -> Seq<ResourceLeaseDiagnostic> {
    ls.filter(|l: ResourceLeaseDiagnostic| l.adapter_id@ != adapter)
}

/// `a` and `b` are the same snapshot, field by field.
pub open spec fn same_snapshot(a: ResourceSnapshot, b: ResourceSnapshot) -> bool {
    &&& a.captured_at_ms == b.captured_at_ms
    &&& a.source@ == b.source@
    &&& a.available == b.available
    &&& a.gpu_devices@ == b.gpu_devices@
    &&& a.system_memory == b.system_memory
    &&& a.cpu == b.cpu
    &&& a.reason_codes@ == b.reason_codes@
}

/// The leases that `sel` does not select, in order.
pub open spec fn unselected(ls: Seq<ResourceLeaseDiagnostic>, sel: LeaseSelector) -> Seq<ResourceLeaseDiagnostic> {
    ls.filter(|l: ResourceLeaseDiagnostic| !selects(sel, l))
}

fn selects_exec(sel: &LeaseSelector, l: &ResourceLeaseDiagnostic) -> (r: bool)
    ensures
        r == selects(*sel, *l),
{
    match sel {
        LeaseSelector::Lease(id) => str_eq(l.lease_id.as_str(), id.as_str()),
        LeaseSelector::Adapter(a) => str_eq(l.adapter_id.as_str(), a.as_str()),
        LeaseSelector::Workload(a, w) => str_eq(l.adapter_id.as_str(), a.as_str()) && str_eq(
            l.workload_id.as_str(),
            w.as_str(),
        ),
    }
}

/// Leases of `adapter` whose reasons lack `reason`.
pub open spec fn lacking_reason(ls: Seq<ResourceLeaseDiagnostic>, adapter: Seq<char>, reason: Seq<char>) -> nat
    decreases ls.len(),
{
    if ls.len() == 0 {
        0
    } else {
        lacking_reason(ls.drop_last(), adapter, reason) + if ls.last().adapter_id@ == adapter
            && !strs(ls.last().reason_codes@).contains(reason) {
            1nat
        } else {
            0nat
        }
    }
}

/// Coarse state of coordination derived from the last snapshot.
#[derive(Clone, Copy, Debug, PartialEq, Eq, Structural)]
pub enum ResourceCoordinationDiagnosticState {
    NotEvaluated,
    Ready,
    Degraded,
    Blocked,
}

pub open spec fn coordination_state(source: Seq<char>, pressure: ResourcePressureLevel) -> ResourceCoordinationDiagnosticState {
    if source == "not_evaluated"@ {
        ResourceCoordinationDiagnosticState::NotEvaluated
    } else {
        match pressure {
            ResourcePressureLevel::Normal => ResourceCoordinationDiagnosticState::Ready,
            ResourcePressureLevel::Critical => ResourceCoordinationDiagnosticState::Blocked,
            _ => ResourceCoordinationDiagnosticState::Degraded,
        }
    }
}

/// Diagnostics of the coordinator state.
pub struct ResourceCoordinationDiagnostics {
    pub state_revision: u64,
    pub state: ResourceCoordinationDiagnosticState,
    pub pressure: ResourcePressureLevel,
    pub policy: ResourceCoordinatorPolicy,
    pub snapshot: ResourceSnapshot,
    pub leases: Vec<ResourceLeaseDiagnostic>,
    pub admission_queue: super::queue::ResourceAdmissionQueueDiagnostics,
    pub reason_codes: Vec<String>,
}

impl CoordinatorState {
    /// Removes the leases that `sel` selects; returns how many were removed.
    pub fn release_selected(&mut self, sel: LeaseSelector) -> (released: usize)
        requires
            old(self).wf(),
        ensures
            final(self).wf(),
            final(self).leases@ == unselected(old(self).leases@, sel),
            released == old(self).leases@.len() - final(self).leases@.len(),
            final(self).state_revision == if released > 0 {
                bumped(old(self).state_revision)
            } else {
                old(self).state_revision
            },
            final(self).next_lease_id == old(self).next_lease_id,
            final(self).policy == old(self).policy,
            final(self).last_snapshot == old(self).last_snapshot,
            final(self).last_pressure == old(self).last_pressure,
            final(self).last_reason_codes@ == old(self).last_reason_codes@,
    {
        let mut rest: Vec<ResourceLeaseDiagnostic> = Vec::new();
        std::mem::swap(&mut rest, &mut self.leases);
        let mut kept: Vec<ResourceLeaseDiagnostic> = Vec::new();
        let mut i: usize = 0;
        let n = rest.len();
        let ghost all = old(self).leases@;
        while i < n
            invariant
                n == all.len(),
                i <= n,
                rest@ == all.skip(i as int),
                kept@ == unselected(all.take(i as int), sel),
                kept@.len() <= i,
                forall|a: int, b: int|
                    0 <= a < b < kept@.len() ==> kept@[a].lease_id@ != kept@[b].lease_id@,
                forall|a: int|
                    0 <= a < kept@.len() ==> exists|x: int| 0 <= x < i && #[trigger] kept@[a] == all[x],
                forall|x: int, y: int| 0 <= x < y < all.len() ==> all[x].lease_id@ != all[y].lease_id@,
            decreases n - i,
        {
            let l = rest.remove(0);
            assert(l == all[i as int]);
            proof {
                reveal(Seq::filter);
                assert(all.take(i + 1).drop_last() =~= all.take(i as int));
                assert(all.take(i + 1).last() == all[i as int]);
            }
            let drop = selects_exec(&sel, &l);
            if !drop {
                proof {
                    assert forall|a: int| 0 <= a < kept@.len() implies kept@[a].lease_id@ != all[i as int].lease_id@ by {
                        let x = choose|x: int| 0 <= x < i && #[trigger] kept@[a] == all[x];
                    }
                }
                kept.push(l);
                proof {
                    assert forall|a: int| 0 <= a < kept@.len() implies exists|x: int|
                        0 <= x < i + 1 && #[trigger] kept@[a] == all[x] by {
                        if a == kept@.len() - 1 {
                            assert(kept@[a] == all[i as int]);
                        } else {
                            let x = choose|x: int| 0 <= x < i && #[trigger] kept@.drop_last()[a] == all[x];
                            assert(kept@[a] == kept@.drop_last()[a]);
                        }
                    }
                }
            }
            i = i + 1;
        }
        assert(all.take(n as int) =~= all);
        let released = n - kept.len();
        let ghost kv = kept@;
        self.leases = kept;
        proof {
            assert forall|a: int| 0 <= a < self.leases@.len() implies issued(
                #[trigger] self.leases@[a].lease_id@,
                self.next_lease_id,
            ) by {
                assert(self.leases@[a] == kv[a]);
                let x = choose|x: int| 0 <= x < n && #[trigger] kv[a] == all[x];
                assert(old(self).leases@[x].lease_id@ == kv[a].lease_id@);
            }
        }
        if released > 0 {
            self.bump_revision();
        }
        released
    }

    /// Removes lease `lease_id`; returns whether it existed.
    pub fn release(&mut self, lease_id: &str) -> (removed: bool)
        requires
            old(self).wf(),
        ensures
            final(self).wf(),
            removed == old(self).has_lease(lease_id@),
            !final(self).has_lease(lease_id@),
            forall|i: int|
                0 <= i < old(self).leases@.len() && old(self).leases@[i].lease_id@ != lease_id@ ==> exists|j: int|
                    0 <= j < final(self).leases@.len() && final(self).leases@[j] == old(self).leases@[i],
            final(self).state_revision == if removed { bumped(old(self).state_revision) } else { old(self).state_revision },
            final(self).next_lease_id == old(self).next_lease_id,
    {
        let sel = LeaseSelector::Lease(crate::text::owned(lease_id));
        let ghost g = sel;
        let n = self.release_selected(sel);
        proof {
            lemma_unselected_props(old(self).leases@, g);
            lemma_unselected_shrinks(old(self).leases@, g);
        }
        n > 0
    }

    /// Removes every lease of one workload; returns how many.
    pub fn release_workload(&mut self, adapter_id: &str, workload_id: &str) -> (released: usize)
        requires
            old(self).wf(),
        ensures
            final(self).wf(),
            released == old(self).leases@.len() - final(self).leases@.len(),
            forall|i: int|
                0 <= i < final(self).leases@.len() ==> !(final(self).leases@[i].adapter_id@ == adapter_id@
                    && final(self).leases@[i].workload_id@ == workload_id@),
            forall|i: int|
                0 <= i < old(self).leases@.len() && !(old(self).leases@[i].adapter_id@ == adapter_id@
                    && old(self).leases@[i].workload_id@ == workload_id@) ==> exists|j: int|
                    0 <= j < final(self).leases@.len() && final(self).leases@[j] == old(self).leases@[i],
            final(self).state_revision == if released > 0 { bumped(old(self).state_revision) } else { old(self).state_revision },
            final(self).next_lease_id == old(self).next_lease_id,
    {
        let sel = LeaseSelector::Workload(crate::text::owned(adapter_id), crate::text::owned(workload_id));
        let ghost g = sel;
        let r = self.release_selected(sel);
        proof {
            lemma_unselected_props(old(self).leases@, g);
        }
        r
    }

    /// Removes every lease of one adapter; returns how many.
    pub fn release_adapter(&mut self, adapter_id: &str) -> (released: usize)
        requires
            old(self).wf(),
        ensures
            final(self).wf(),
            released == old(self).leases@.len() - final(self).leases@.len(),
            released > 0 <==> exists|i: int|
                0 <= i < old(self).leases@.len() && old(self).leases@[i].adapter_id@ == adapter_id@,
            forall|i: int| 0 <= i < final(self).leases@.len() ==> final(self).leases@[i].adapter_id@ != adapter_id@,
            forall|i: int|
                0 <= i < old(self).leases@.len() && old(self).leases@[i].adapter_id@ != adapter_id@ ==> exists|j: int|
                    0 <= j < final(self).leases@.len() && final(self).leases@[j] == old(self).leases@[i],
            final(self).state_revision == if released > 0 { bumped(old(self).state_revision) } else { old(self).state_revision },
            final(self).next_lease_id == old(self).next_lease_id,
            final(self).leases@ == without_adapter(old(self).leases@, adapter_id@),
    {
        let sel = LeaseSelector::Adapter(crate::text::owned(adapter_id));
        let ghost g = sel;
        let r = self.release_selected(sel);
        proof {
            assert((|l: ResourceLeaseDiagnostic| !selects(g, l)) =~= (|l: ResourceLeaseDiagnostic| l.adapter_id@
                != adapter_id@));
            lemma_unselected_props(old(self).leases@, g);
            lemma_unselected_shrinks(old(self).leases@, g);
        }
        r
    }
}

/// Filtering out selected leases shortens the list exactly when one is selected.
pub proof fn lemma_unselected_shrinks(ls: Seq<ResourceLeaseDiagnostic>, sel: LeaseSelector)
    ensures
        unselected(ls, sel).len() <= ls.len(),
        unselected(ls, sel).len() < ls.len() <==> exists|i: int| 0 <= i < ls.len() && selects(sel, ls[i]),
    decreases ls.len(),
{
    reveal(Seq::filter);
    if ls.len() > 0 {
        lemma_unselected_shrinks(ls.drop_last(), sel);
        if exists|i: int| 0 <= i < ls.drop_last().len() && selects(sel, ls.drop_last()[i]) {
            let i = choose|i: int| 0 <= i < ls.drop_last().len() && selects(sel, ls.drop_last()[i]);
            assert(selects(sel, ls[i]));
        }
        if exists|i: int| 0 <= i < ls.len() && selects(sel, ls[i]) {
            let i = choose|i: int| 0 <= i < ls.len() && selects(sel, ls[i]);
            if i < ls.len() - 1 {
                assert(selects(sel, ls.drop_last()[i]));
            }
        }
    }
}

pub proof fn lemma_unselected_props(ls: Seq<ResourceLeaseDiagnostic>, sel: LeaseSelector)
    ensures
        forall|i: int|
            0 <= i < unselected(ls, sel).len() ==> !selects(sel, #[trigger] unselected(ls, sel)[i]),
        forall|i: int|
            0 <= i < ls.len() && !selects(sel, ls[i]) ==> exists|j: int|
                0 <= j < unselected(ls, sel).len() && unselected(ls, sel)[j] == ls[i],
        unselected(ls, sel).len() <= ls.len(),
{
    broadcast use vstd::seq_lib::group_filter_ensures;
    let pred = |l: ResourceLeaseDiagnostic| !selects(sel, l);
    assert forall|i: int| 0 <= i < unselected(ls, sel).len() implies !selects(sel, #[trigger] unselected(ls, sel)[i]) by {
        ls.lemma_filter_pred(pred, i);
    }
    assert forall|i: int| 0 <= i < ls.len() && !selects(sel, ls[i]) implies exists|j: int|
        0 <= j < unselected(ls, sel).len() && unselected(ls, sel)[j] == ls[i] by {
        ls.lemma_filter_contains(pred, i);
        assert(unselected(ls, sel).contains(ls[i]));
    }
}



/// Position of the lease with this id.
pub open spec fn lease_pos(ls: Seq<ResourceLeaseDiagnostic>, id: Seq<char>) -> Option<int> {
    if exists|k: int| 0 <= k < ls.len() && ls[k].lease_id@ == id {
        Some(choose|k: int| 0 <= k < ls.len() && ls[k].lease_id@ == id)
    } else {
        None
    }
}

/// `b` is lease `a` confirmed active at `now_ms` with the given measurements
/// (a missing measurement keeps the reservation).
pub open spec fn activated_lease(
    a: ResourceLeaseDiagnostic,
    b: ResourceLeaseDiagnostic,
    p: ResourceCoordinatorPolicy,
    now_ms: u64,
    mib: Option<u64>,
    ram: Option<u64>,
    cpu: Option<u16>,
) -> bool {
    &&& b.lease_id@ == a.lease_id@
    &&& b.adapter_id@ == a.adapter_id@
    &&& b.workload_id@ == a.workload_id@
    &&& opt_view(b.profile_id) == opt_view(a.profile_id)
    &&& b.gpu_device_index == a.gpu_device_index
    &&& b.reservation_mib == a.reservation_mib
    &&& b.ram_reservation_mib == a.ram_reservation_mib
    &&& b.cpu_thread_reservation == a.cpu_thread_reservation
    &&& b.actual_mib == match mib { Some(v) => v, None => a.reservation_mib }
    &&& b.actual_ram_mib == match ram { Some(v) => v, None => a.ram_reservation_mib }
    &&& b.actual_cpu_threads == match cpu { Some(v) => v, None => a.cpu_thread_reservation }
    &&& b.priority == a.priority
    &&& b.control_mode == a.control_mode
    &&& b.state == ResourceLeaseState::Active
    &&& b.granted_at_ms == a.granted_at_ms
    &&& b.expires_at_ms == refreshed_expiry(p, ResourceLeaseState::Active, a.control_mode, now_ms)
    &&& strs(b.reason_codes@) == strs(a.reason_codes@)
}

impl CoordinatorState {
    /// Position of lease `id`.
    fn find_lease(&self, id: &str) -> (r: Option<usize>)
        requires
            self.wf(),
        ensures
            r matches Some(k) ==> k < self.leases@.len() && self.leases@[k as int].lease_id@ == id@,
            r is None ==> !self.has_lease(id@),
    {
        let mut i: usize = 0;
        while i < self.leases.len()
            invariant
                i <= self.leases.len(),
                forall|j: int| 0 <= j < i ==> self.leases@[j].lease_id@ != id@,
            decreases self.leases.len() - i,
        {
            if str_eq(self.leases[i].lease_id.as_str(), id) {
                return Some(i);
            }
            i = i + 1;
        }
        None
    }

    /// Records an already-running external activity as an active,
    /// observe-only lease that expires after the active TTL; returns its id.
    pub fn begin_observed_activity(
        &mut self,
        adapter_id: String,
        workload_id: String,
        profile_id: Option<String>,
        priority: ResourcePriority,
        now_ms: u64,
    ) -> (lease_id: String)
        requires
            old(self).wf(),
            old(self).next_lease_id < u64::MAX,
        ensures
            final(self).wf(),
            lease_id@ == lease_id_text(old(self).next_lease_id as nat),
            final(self).next_lease_id == old(self).next_lease_id + 1,
            final(self).leases@.drop_last() == old(self).leases@,
            final(self).leases@.len() == old(self).leases@.len() + 1,
            ({
                let l = final(self).leases@.last();
                &&& l.lease_id@ == lease_id@
                &&& l.adapter_id@ == adapter_id@
                &&& l.workload_id@ == workload_id@
                &&& opt_view(l.profile_id) == opt_view(profile_id)
                &&& l.gpu_device_index is None
                &&& l.reservation_mib == 0 && l.actual_mib == 0
                &&& l.ram_reservation_mib == 0 && l.actual_ram_mib == 0
                &&& l.cpu_thread_reservation == 0 && l.actual_cpu_threads == 0
                &&& l.priority == priority
                &&& l.control_mode == ResourceControlMode::ObserveOnly
                &&& l.state == ResourceLeaseState::Active
                &&& l.granted_at_ms == now_ms
                &&& l.expires_at_ms == Some(sat(now_ms as nat, old(self).policy.active_lease_ttl_ms as nat) as u64)
                &&& strs(l.reason_codes@) == seq!["external_activity_observed"@]
            }),
            final(self).state_revision == bumped(old(self).state_revision),
            final(self).policy == old(self).policy,
    {
        let ghost before = self.leases@;
        let n = self.next_lease_id;
        self.next_lease_id = n + 1;
        let id = lease_id_string(n);
        let mut codes: Vec<String> = Vec::new();
        push_reason(&mut codes, "external_activity_observed");
        assert(strs(codes@) =~= seq!["external_activity_observed"@]);
        let lease = ResourceLeaseDiagnostic {
            lease_id: id.clone(),
            adapter_id,
            workload_id,
            profile_id,
            gpu_device_index: None,
            reservation_mib: 0,
            actual_mib: 0,
            ram_reservation_mib: 0,
            actual_ram_mib: 0,
            cpu_thread_reservation: 0,
            actual_cpu_threads: 0,
            priority,
            control_mode: ResourceControlMode::ObserveOnly,
            state: ResourceLeaseState::Active,
            granted_at_ms: now_ms,
            expires_at_ms: Some(now_ms.saturating_add(self.policy.active_lease_ttl_ms)),
            reason_codes: codes,
        };
        self.leases.push(lease);
        self.bump_revision();
        proof {
            let last = self.leases@.len() - 1;
            assert forall|i: int| 0 <= i < last implies self.leases@[i].lease_id@ != self.leases@[last].lease_id@ by {
                assert(self.leases@[i] == before[i]);
                assert(issued(before[i].lease_id@, n));
                let m = choose|m: nat| m < n && before[i].lease_id@ == lease_id_text(m);
                if before[i].lease_id@ == lease_id_text(n as nat) {
                    lemma_lease_id_injective(m, n as nat);
                }
            }
            assert forall|i: int| 0 <= i < self.leases@.len() implies issued(
                #[trigger] self.leases@[i].lease_id@,
                self.next_lease_id,
            ) by {
                if i < last {
                    assert(self.leases@[i] == before[i]);
                    assert(issued(before[i].lease_id@, n));
                } else {
                    assert(self.leases@[i].lease_id@ == lease_id_text(n as nat));
                }
            }
            assert(self.leases@.drop_last() =~= before);
        }
        id
    }

    /// Confirms activation of a lease with optional measured usage.
    /// Returns whether the lease exists.
    pub fn activate_with_usage(
        &mut self,
        lease_id: &str,
        actual_mib: Option<u64>,
        actual_ram_mib: Option<u64>,
        actual_cpu_threads: Option<u16>,
        now_ms: u64,
    ) -> (found: bool)
        requires
            old(self).wf(),
        ensures
            final(self).wf(),
            found == old(self).has_lease(lease_id@),
            final(self).leases@.len() == old(self).leases@.len(),
            found ==> exists|k: int|
                0 <= k < old(self).leases@.len() && old(self).leases@[k].lease_id@ == lease_id@ && activated_lease(
                    old(self).leases@[k],
                    final(self).leases@[k],
                    old(self).policy,
                    now_ms,
                    actual_mib,
                    actual_ram_mib,
                    actual_cpu_threads,
                ) && forall|j: int| 0 <= j < old(self).leases@.len() && j != k ==> final(self).leases@[j]
                    == old(self).leases@[j],
            !found ==> final(self).leases@ == old(self).leases@,
            final(self).state_revision == if found {
                bumped(old(self).state_revision)
            } else {
                old(self).state_revision
            },
            final(self).next_lease_id == old(self).next_lease_id,
            final(self).policy == old(self).policy,
    {
        match self.find_lease(lease_id) {
            None => false,
            Some(k) => {
                let ghost before = self.leases@;
                let mut l = self.leases[k].copy();
                l.state = ResourceLeaseState::Active;
                l.actual_mib = match actual_mib { Some(v) => v, None => l.reservation_mib };
                l.actual_ram_mib = match actual_ram_mib { Some(v) => v, None => l.ram_reservation_mib };
                l.actual_cpu_threads = match actual_cpu_threads { Some(v) => v, None => l.cpu_thread_reservation };
                l.expires_at_ms = policy_ttl(&self.policy, ResourceLeaseState::Active, l.control_mode, now_ms);
                self.leases.set(k, l);
                self.bump_revision();
                proof {
                    assert forall|i: int, j: int| 0 <= i < j < self.leases@.len() implies self.leases@[i].lease_id@
                        != self.leases@[j].lease_id@ by {
                        assert(self.leases@[i].lease_id@ == before[i].lease_id@);
                        assert(self.leases@[j].lease_id@ == before[j].lease_id@);
                    }
                    assert forall|i: int| 0 <= i < self.leases@.len() implies issued(
                        #[trigger] self.leases@[i].lease_id@,
                        self.next_lease_id,
                    ) by {
                        assert(self.leases@[i].lease_id@ == before[i].lease_id@);
                    }
                }
                true
            },
        }
    }

    /// Confirms activation with measured GPU memory only.
    pub fn activate(&mut self, lease_id: &str, actual_mib: Option<u64>, now_ms: u64) -> (found: bool)
        requires
            old(self).wf(),
        ensures
            final(self).wf(),
            found == old(self).has_lease(lease_id@),
            final(self).leases@.len() == old(self).leases@.len(),
            found ==> exists|k: int|
                0 <= k < old(self).leases@.len() && old(self).leases@[k].lease_id@ == lease_id@ && activated_lease(
                    old(self).leases@[k],
                    final(self).leases@[k],
                    old(self).policy,
                    now_ms,
                    actual_mib,
                    None,
                    None,
                ) && forall|j: int| 0 <= j < old(self).leases@.len() && j != k ==> final(self).leases@[j]
                    == old(self).leases@[j],
            !found ==> final(self).leases@ == old(self).leases@,
            final(self).state_revision == if found { bumped(old(self).state_revision) } else { old(self).state_revision },
            final(self).next_lease_id == old(self).next_lease_id,
            final(self).policy == old(self).policy,
    {
        self.activate_with_usage(lease_id, actual_mib, None, None, now_ms)
    }

    /// Attaches `reason_code` (trimmed) to every lease of `adapter_id` that
    /// lacks it; returns how many leases gained it.
    pub fn record_adapter_reason(&mut self, adapter_id: &str, reason_code: &str) -> (updated: usize)
        requires
            old(self).wf(),
        ensures
            final(self).wf(),
            final(self).leases@.len() == old(self).leases@.len(),
            crate::text::trim(adapter_id@).len() == 0 || crate::text::trim(reason_code@).len() == 0 ==> {
                &&& updated == 0
                &&& final(self).leases@ == old(self).leases@
            },
            crate::text::trim(adapter_id@).len() > 0 && crate::text::trim(reason_code@).len() > 0 ==> {
                &&& updated == lacking_reason(old(self).leases@, adapter_id@, crate::text::trim(reason_code@))
                &&& lacking_reason(final(self).leases@, adapter_id@, crate::text::trim(reason_code@)) == 0
                &&& forall|i: int|
                    #![trigger final(self).leases@[i]]
                    0 <= i < final(self).leases@.len() ==> {
                        let a = old(self).leases@[i];
                        let b = final(self).leases@[i];
                        &&& b.lease_id@ == a.lease_id@
                        &&& b.adapter_id@ == a.adapter_id@
                        &&& b.state == a.state
                        &&& b.priority == a.priority
                        &&& b.expires_at_ms == a.expires_at_ms
                        &&& strs(b.reason_codes@) == if a.adapter_id@ == adapter_id@ && !strs(
                            a.reason_codes@,
                        ).contains(crate::text::trim(reason_code@)) {
                            strs(a.reason_codes@).push(crate::text::trim(reason_code@))
                        } else {
                            strs(a.reason_codes@)
                        }
                    }
            },
            final(self).state_revision == if updated > 0 { bumped(old(self).state_revision) } else { old(self).state_revision },
            final(self).next_lease_id == old(self).next_lease_id,
            final(self).policy == old(self).policy,
    {
        let reason = crate::text::trim_str(reason_code);
        let adapter_trimmed = crate::text::trim_chars(adapter_id);
        if adapter_trimmed.len() == 0 || reason.as_str().is_empty() {
            return 0;
        }
        let ghost r = reason@;
        let ghost before = self.leases@;
        let mut updated: usize = 0;
        let mut i: usize = 0;
        while i < self.leases.len()
            invariant
                self.wf(),
                self.next_lease_id == old(self).next_lease_id,
                self.policy == old(self).policy,
                self.state_revision == old(self).state_revision,
                self.leases@.len() == before.len(),
                before == old(self).leases@,
                reason@ == r,
                i <= self.leases@.len(),
                updated == lacking_reason(before.take(i as int), adapter_id@, r),
                updated <= i,
                lacking_reason(self.leases@.take(i as int), adapter_id@, r) == 0,
                forall|j: int| i <= j < before.len() ==> self.leases@[j] == before[j],
                forall|j: int|
                    #![trigger self.leases@[j]]
                    0 <= j < i ==> {
                        let a = before[j];
                        let b = self.leases@[j];
                        &&& b.lease_id@ == a.lease_id@
                        &&& b.adapter_id@ == a.adapter_id@
                        &&& b.state == a.state
                        &&& b.priority == a.priority
                        &&& b.expires_at_ms == a.expires_at_ms
                        &&& strs(b.reason_codes@) == if a.adapter_id@ == adapter_id@ && !strs(
                            a.reason_codes@,
                        ).contains(r) {
                            strs(a.reason_codes@).push(r)
                        } else {
                            strs(a.reason_codes@)
                        }
                    },
            decreases before.len() - i,
        {
            let ghost t = before.take(i + 1);
            assert(t.drop_last() =~= before.take(i as int));
            assert(t.last() == before[i as int]);
            let hit = str_eq(self.leases[i].adapter_id.as_str(), adapter_id);
            let present = hit && contains_string(&self.leases[i].reason_codes, reason.as_str());
            let ghost prev = self.leases@;
            if hit && !present {
                let mut l = self.leases[i].copy();
                push_reason(&mut l.reason_codes, reason.as_str());
                self.leases.set(i, l);
                updated = updated + 1;
            }
            proof {
                let u = self.leases@.take(i + 1);
                assert(u.drop_last() =~= prev.take(i as int));
                assert(prev.take(i as int) =~= self.leases@.take(i as int));
                assert(u.last() == self.leases@[i as int]);
                assert(strs(self.leases@[i as int].reason_codes@).contains(r) || self.leases@[i as int].adapter_id@ != adapter_id@) by {
                    if hit && !present {
                        assert(strs(self.leases@[i as int].reason_codes@).last() == r);
                    }
                }
                assert forall|a: int, b: int| 0 <= a < b < self.leases@.len() implies self.leases@[a].lease_id@
                    != self.leases@[b].lease_id@ by {
                    assert(self.leases@[a].lease_id@ == prev[a].lease_id@);
                    assert(self.leases@[b].lease_id@ == prev[b].lease_id@);
                }
                assert forall|a: int| 0 <= a < self.leases@.len() implies issued(
                    #[trigger] self.leases@[a].lease_id@,
                    self.next_lease_id,
                ) by {
                    assert(self.leases@[a].lease_id@ == prev[a].lease_id@);
                }
            }
            i = i + 1;
        }
        assert(before.take(before.len() as int) =~= before);
        assert(self.leases@.take(self.leases@.len() as int) =~= self.leases@);
        if updated > 0 {
            self.bump_revision();
        }
        updated
    }

    /// After dropping expired leases: some lease of `adapter_id` carries `reason_code`.
    #[verifier::loop_isolation(false)]
    pub fn adapter_has_reason(&mut self, adapter_id: &str, reason_code: &str, now_ms: u64) -> (r: bool)
        requires
            old(self).wf(),
        ensures
            final(self).wf(),
            final(self).leases@ == live_leases(old(self).leases@, now_ms),
            r == exists|i: int|
                0 <= i < final(self).leases@.len() && final(self).leases@[i].adapter_id@ == adapter_id@ && strs(
                    final(self).leases@[i].reason_codes@,
                ).contains(reason_code@),
            final(self).state_revision == if live_leases(old(self).leases@, now_ms).len() != old(self).leases@.len() { bumped(old(self).state_revision) } else { old(self).state_revision },
            final(self).next_lease_id == old(self).next_lease_id,
    {
        if self.prune_expired(now_ms) {
            self.bump_revision();
        }
        let mut i: usize = 0;
        while i < self.leases.len()
            invariant
                i <= self.leases.len(),
                forall|j: int|
                    0 <= j < i ==> !(self.leases@[j].adapter_id@ == adapter_id@ && strs(
                        self.leases@[j].reason_codes@,
                    ).contains(reason_code@)),
            decreases self.leases.len() - i,
        {
            if str_eq(self.leases[i].adapter_id.as_str(), adapter_id) && contains_string(
                &self.leases[i].reason_codes,
                reason_code,
            ) {
                return true;
            }
            i = i + 1;
        }
        false
    }

    /// After dropping expired leases: an active lease has at least `minimum` priority.
    #[verifier::loop_isolation(false)]
    pub fn has_active_priority(&mut self, minimum: ResourcePriority, now_ms: u64) -> (r: bool)
        requires
            old(self).wf(),
        ensures
            final(self).wf(),
            final(self).leases@ == live_leases(old(self).leases@, now_ms),
            r == exists|i: int|
                0 <= i < final(self).leases@.len() && final(self).leases@[i].state == ResourceLeaseState::Active
                    && priority_rank(final(self).leases@[i].priority) >= priority_rank(minimum),
            final(self).state_revision == if live_leases(old(self).leases@, now_ms).len() != old(self).leases@.len() { bumped(old(self).state_revision) } else { old(self).state_revision },
            final(self).next_lease_id == old(self).next_lease_id,
    {
        if self.prune_expired(now_ms) {
            self.bump_revision();
        }
        let mut i: usize = 0;
        while i < self.leases.len()
            invariant
                i <= self.leases.len(),
                forall|j: int|
                    0 <= j < i ==> !(self.leases@[j].state == ResourceLeaseState::Active && priority_rank(
                        self.leases@[j].priority,
                    ) >= priority_rank(minimum)),
            decreases self.leases.len() - i,
        {
            let active = match self.leases[i].state {
                ResourceLeaseState::Active => true,
                ResourceLeaseState::Reserved => false,
            };
            if active && super::model::priority_level(self.leases[i].priority) >= super::model::priority_level(minimum) {
                return true;
            }
            i = i + 1;
        }
        false
    }

    /// After dropping expired leases: `adapter_id` holds an active lease.
    #[verifier::loop_isolation(false)]
    pub fn has_active_adapter(&mut self, adapter_id: &str, now_ms: u64) -> (r: bool)
        requires
            old(self).wf(),
        ensures
            final(self).wf(),
            final(self).leases@ == live_leases(old(self).leases@, now_ms),
            r == exists|i: int|
                0 <= i < final(self).leases@.len() && final(self).leases@[i].state == ResourceLeaseState::Active
                    && final(self).leases@[i].adapter_id@ == adapter_id@,
            final(self).state_revision == if live_leases(old(self).leases@, now_ms).len() != old(self).leases@.len() { bumped(old(self).state_revision) } else { old(self).state_revision },
            final(self).next_lease_id == old(self).next_lease_id,
    {
        if self.prune_expired(now_ms) {
            self.bump_revision();
        }
        let mut i: usize = 0;
        while i < self.leases.len()
            invariant
                i <= self.leases.len(),
                forall|j: int|
                    0 <= j < i ==> !(self.leases@[j].state == ResourceLeaseState::Active
                        && self.leases@[j].adapter_id@ == adapter_id@),
            decreases self.leases.len() - i,
        {
            let active = match self.leases[i].state {
                ResourceLeaseState::Active => true,
                ResourceLeaseState::Reserved => false,
            };
            if active && str_eq(self.leases[i].adapter_id.as_str(), adapter_id) {
                return true;
            }
            i = i + 1;
        }
        false
    }

    /// After dropping expired leases: `adapter_id` holds a reserved or active lease.
    #[verifier::loop_isolation(false)]
    pub fn has_adapter_lease(&mut self, adapter_id: &str, now_ms: u64) -> (r: bool)
        requires
            old(self).wf(),
        ensures
            final(self).wf(),
            final(self).leases@ == live_leases(old(self).leases@, now_ms),
            r == exists|i: int|
                0 <= i < final(self).leases@.len() && final(self).leases@[i].adapter_id@ == adapter_id@,
            final(self).state_revision == if live_leases(old(self).leases@, now_ms).len() != old(self).leases@.len() { bumped(old(self).state_revision) } else { old(self).state_revision },
            final(self).next_lease_id == old(self).next_lease_id,
    {
        if self.prune_expired(now_ms) {
            self.bump_revision();
        }
        let mut i: usize = 0;
        while i < self.leases.len()
            invariant
                i <= self.leases.len(),
                forall|j: int| 0 <= j < i ==> self.leases@[j].adapter_id@ != adapter_id@,
            decreases self.leases.len() - i,
        {
            if str_eq(self.leases[i].adapter_id.as_str(), adapter_id) {
                return true;
            }
            i = i + 1;
        }
        false
    }

    /// Takes a new snapshot at `now_ms` and recomputes pressure and its reason codes.
    pub fn refresh(&mut self, snapshot: ResourceSnapshot, now_ms: u64, gpu_device_index: Option<u32>)
        requires
            old(self).wf(),
        ensures
            final(self).wf(),
            final(self).leases@ == live_leases(old(self).leases@, now_ms),
            final(self).last_snapshot == snapshot,
            final(self).last_pressure == pressure_spec(snapshot, old(self).policy, gpu_device_index),
            strs(final(self).last_reason_codes@) == pressure_reasons_spec(
                snapshot,
                old(self).policy,
                gpu_device_index,
                final(self).last_pressure,
            ),
            final(self).state_revision == observed_revision(*old(self), snapshot, now_ms, gpu_device_index),
            final(self).next_lease_id == old(self).next_lease_id,
            final(self).policy == old(self).policy,
    {
        let pressure = pressure_for(&snapshot, &self.policy, gpu_device_index);
        let codes = pressure_reason_codes(&snapshot, &self.policy, gpu_device_index, pressure);
        self.observe_snapshot(snapshot, now_ms, gpu_device_index);
        self.last_reason_codes = codes;
    }

    /// Current diagnostics.
    pub fn diagnostics(&self) -> (d: ResourceCoordinationDiagnostics)
        requires
            self.wf(),
        ensures
            d.state_revision == self.state_revision,
            d.state == coordination_state(self.last_snapshot.source@, self.last_pressure),
            d.pressure == self.last_pressure,
            d.policy == self.policy,
            listed_by_id(d.leases@, self.leases@),
            d.admission_queue.active_ticket_id is None && d.admission_queue.queued@.len() == 0,
            strs(d.reason_codes@) == strs(self.last_reason_codes@),
            same_snapshot(d.snapshot, self.last_snapshot),
    {
        let state = if str_eq(self.last_snapshot.source.as_str(), "not_evaluated") {
            ResourceCoordinationDiagnosticState::NotEvaluated
        } else {
            match self.last_pressure {
                ResourcePressureLevel::Normal => ResourceCoordinationDiagnosticState::Ready,
                ResourcePressureLevel::Critical => ResourceCoordinationDiagnosticState::Blocked,
                _ => ResourceCoordinationDiagnosticState::Degraded,
            }
        };
        let leases = leases_by_id(&self.leases);
        ResourceCoordinationDiagnostics {
            state_revision: self.state_revision,
            state,
            pressure: self.last_pressure,
            policy: self.policy,
            snapshot: self.last_snapshot.copy(),
            leases,
            admission_queue: super::queue::ResourceAdmissionQueueDiagnostics { active_ticket_id: None, queued: Vec::new() },
            reason_codes: copy_strings(&self.last_reason_codes),
        }
    }
}

/// The lease ids, in order.
pub open spec fn lease_ids(s: Seq<ResourceLeaseDiagnostic>) -> Seq<Seq<char>> {
    s.map_values(|l: ResourceLeaseDiagnostic| l.lease_id@)
}

/// `r` lists the leases of `s` (ids distinct) ordered by lease id, as a
/// map keyed by lease id would.
pub open spec fn listed_by_id(r: Seq<ResourceLeaseDiagnostic>, s: Seq<ResourceLeaseDiagnostic>) -> bool {
    &&& r.len() == s.len()
    &&& forall|a: int, b: int| 0 <= a < b < r.len() ==> crate::text::lex_le(r[a].lease_id@, r[b].lease_id@)
    &&& lease_ids(r).to_multiset() == lease_ids(s).to_multiset()
    &&& forall|t: int, j: int|
        0 <= t < r.len() && 0 <= j < s.len() && #[trigger] r[t].lease_id@ == #[trigger] s[j].lease_id@ ==> same_lease(
            r[t],
            s[j],
        )
}

/// Copies of the leases, ordered by lease id.
fn leases_by_id(leases: &Vec<ResourceLeaseDiagnostic>) -> (r: Vec<ResourceLeaseDiagnostic>)
    requires
        forall|a: int, b: int| 0 <= a < b < leases@.len() ==> leases@[a].lease_id@ != leases@[b].lease_id@,
    ensures
        listed_by_id(r@, leases@),
{
    broadcast use vstd::seq_lib::group_to_multiset_ensures;
    let mut out: Vec<ResourceLeaseDiagnostic> = Vec::new();
    let ghost mut perm: Seq<int> = Seq::empty();
    let mut i: usize = 0;
    assert(lease_ids(out@) =~= lease_ids(leases@.take(0)));
    while i < leases.len()
        invariant
            i <= leases@.len(),
            forall|a: int, b: int| 0 <= a < b < leases@.len() ==> leases@[a].lease_id@ != leases@[b].lease_id@,
            out@.len() == i,
            perm.len() == i,
            forall|t: int| 0 <= t < i ==> 0 <= #[trigger] perm[t] < i && same_lease(out@[t], leases@[perm[t]]),
            forall|a: int, b: int| 0 <= a < b < out@.len() ==> crate::text::lex_le(out@[a].lease_id@, out@[b].lease_id@),
            lease_ids(out@).to_multiset() == lease_ids(leases@.take(i as int)).to_multiset(),
        decreases leases.len() - i,
    {
        let c = leases[i].copy();
        let ghost ov = out@;
        let ghost oi = lease_ids(out@);
        let mut k: usize = out.len();
        while k > 0 && !crate::text::lex_le_exec(out[k - 1].lease_id.as_str(), c.lease_id.as_str())
            invariant
                k <= out@.len(),
                ov == out@,
                forall|a: int, b: int| 0 <= a < b < ov.len() ==> crate::text::lex_le(ov[a].lease_id@, ov[b].lease_id@),
                forall|j: int| k <= j < ov.len() ==> !crate::text::lex_le(ov[j].lease_id@, c.lease_id@),
            decreases k,
        {
            k = k - 1;
        }
        proof {
            assert forall|j: int| k <= j < ov.len() implies crate::text::lex_le(c.lease_id@, ov[j].lease_id@) by {
                crate::text::lemma_lex_total(ov[j].lease_id@, c.lease_id@);
            }
        }
        let ghost cv = c;
        out.insert(k, c);
        proof {
            let nv = out@;
            assert(nv =~= ov.insert(k as int, cv));
            assert forall|a: int, b: int| 0 <= a < b < nv.len() implies crate::text::lex_le(
                nv[a].lease_id@,
                nv[b].lease_id@,
            ) by {
                if b < k {
                    assert(nv[a] == ov[a] && nv[b] == ov[b]);
                } else if b == k {
                    assert(nv[a] == ov[a]);
                    if a < k - 1 {
                        crate::text::lemma_lex_trans(ov[a].lease_id@, ov[k - 1].lease_id@, cv.lease_id@);
                    }
                } else if a == k {
                    assert(nv[b] == ov[b - 1]);
                } else if a < k {
                    assert(nv[a] == ov[a] && nv[b] == ov[b - 1]);
                } else {
                    assert(nv[a] == ov[a - 1] && nv[b] == ov[b - 1]);
                }
            }
            let np = perm.insert(k as int, i as int);
            assert forall|t: int| 0 <= t < i + 1 implies 0 <= #[trigger] np[t] < i + 1 && same_lease(
                nv[t],
                leases@[np[t]],
            ) by {
                if t < k {
                    assert(np[t] == perm[t] && nv[t] == ov[t]);
                } else if t == k {
                    assert(np[t] == i);
                } else {
                    assert(np[t] == perm[t - 1] && nv[t] == ov[t - 1]);
                }
            }
            perm = np;
            assert(lease_ids(nv) =~= oi.insert(k as int, cv.lease_id@));
            vstd::seq_lib::to_multiset_insert(oi, k as int, cv.lease_id@);
            let t1 = lease_ids(leases@.take(i + 1));
            assert(t1 =~= lease_ids(leases@.take(i as int)).push(cv.lease_id@));
            vstd::seq_lib::to_multiset_build(lease_ids(leases@.take(i as int)), cv.lease_id@);
        }
        i = i + 1;
    }
    proof {
        assert(leases@.take(i as int) =~= leases@);
        assert forall|t: int, j: int|
            0 <= t < out@.len() && 0 <= j < leases@.len() && #[trigger] out@[t].lease_id@ == #[trigger] leases@[j].lease_id@
            implies same_lease(out@[t], leases@[j]) by {
            assert(same_lease(out@[t], leases@[perm[t]]));
            if perm[t] != j {
                if perm[t] < j {
                    assert(leases@[perm[t]].lease_id@ != leases@[j].lease_id@);
                } else {
                    assert(leases@[j].lease_id@ != leases@[perm[t]].lease_id@);
                }
            }
        }
    }
    out
}

/// Whether `v` holds a string equal to `s`.
pub fn contains_string(v: &Vec<String>, s: &str) -> (r: bool)
    ensures
        r == strs(v@).contains(s@),
{
    let mut i: usize = 0;
    while i < v.len()
        invariant
            i <= v.len(),
            forall|j: int| 0 <= j < i ==> v@[j]@ != s@,
        decreases v.len() - i,
    {
        if str_eq(v[i].as_str(), s) {
            assert(strs(v@)[i as int] == s@);
            return true;
        }
        i = i + 1;
    }
    assert(!strs(v@).contains(s@)) by {
        if strs(v@).contains(s@) {
            let k = choose|k: int| 0 <= k < strs(v@).len() && strs(v@)[k] == s@;
            assert(v@[k]@ == s@);
        }
    }
    false
}

} // verus!
