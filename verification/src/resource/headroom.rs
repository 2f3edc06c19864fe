//! Capacity check of a candidate plan: what its starts request, what its
//! yields release, and the reason codes the host's headroom gives.

use vstd::prelude::*;
use super::coordinator::{max_u16, max_u64, ResourceExecutionTarget, ResourceOperatingProfile};
use super::model::{
    strs, ResourceAdapterOperation, ResourceCoordinatorPolicy, ResourceLeaseDiagnostic, ResourceSnapshot,
};
use super::pressure::{device_free, free_mib_for_device};
use super::plan::{
    adapter_at_exec, find_profile_pos, lemma_profile_pos_bound, profile_pos, transition_views,
    ResourceAdapterDiagnostic, ResourceCandidateTransition, TransitionView,
};
use super::candidate::lookup;

verus! {

/// Running totals of a plan's capacity demands.
#[derive(Clone, Copy)]
pub struct CapacityTally {
    pub requested_gpu_mib: u64,
    pub requested_ram_mib: u64,
    pub requested_cpu_threads: u64,
    pub released_gpu_mib: u64,
    pub released_ram_mib: u64,
    pub released_cpu_threads: u64,
    pub gpu_relevant: bool,
    pub ram_relevant: bool,
    pub cpu_relevant: bool,
    pub gpu_estimate_missing: bool,
    pub estimate_missing: bool,
}

pub open spec fn empty_tally() -> CapacityTally {
    CapacityTally {
        requested_gpu_mib: 0,
        requested_ram_mib: 0,
        requested_cpu_threads: 0,
        released_gpu_mib: 0,
        released_ram_mib: 0,
        released_cpu_threads: 0,
        gpu_relevant: false,
        ram_relevant: false,
        cpu_relevant: false,
        gpu_estimate_missing: false,
        estimate_missing: false,
    }
}

/// The profile a start transition names, among its adapter's profiles.
pub open spec fn transition_profile(a: ResourceAdapterDiagnostic, t: TransitionView) -> Option<ResourceOperatingProfile> {
    match t.profile_id {
        Some(pid) => match profile_pos(a.descriptor.profiles@, pid) {
            Some(i) => Some(a.descriptor.profiles@[i]),
            None => None,
        },
        None => None,
    }
}

/// What starting on profile `p` requests.
pub open spec fn tally_profile(acc: CapacityTally, p: ResourceOperatingProfile) -> CapacityTally {
    let on_gpu = p.execution_target == ResourceExecutionTarget::Gpu || p.execution_target
        == ResourceExecutionTarget::Hybrid;
    let g = if on_gpu {
        match p.estimated_reservation_mib {
            Some(e) => CapacityTally {
                gpu_relevant: true,
                requested_gpu_mib: acc.requested_gpu_mib.saturating_add(e),
                ..acc
            },
            None => CapacityTally { gpu_relevant: true, gpu_estimate_missing: true, ..acc },
        }
    } else {
        acc
    };
    let m = match p.estimated_ram_mib {
        Some(e) => CapacityTally { ram_relevant: true, requested_ram_mib: g.requested_ram_mib.saturating_add(e), ..g },
        None => g,
    };
    let c = match p.estimated_cpu_threads {
        Some(e) => CapacityTally {
            cpu_relevant: true,
            requested_cpu_threads: m.requested_cpu_threads.saturating_add(e as u64),
            ..m
        },
        None => m,
    };
    if p.execution_target != ResourceExecutionTarget::External && p.estimated_reservation_mib is None
        && p.estimated_ram_mib is None && p.estimated_cpu_threads is None {
        CapacityTally { estimate_missing: true, ..c }
    } else {
        c
    }
}

/// What yielding adapter `id` releases: every lease it holds.
pub open spec fn tally_release(acc: CapacityTally, ls: Seq<ResourceLeaseDiagnostic>, id: Seq<char>) -> CapacityTally
    decreases ls.len(),
{
    if ls.len() == 0 {
        acc
    } else {
        let prev = tally_release(acc, ls.drop_last(), id);
        let l = ls.last();
        if l.adapter_id@ == id {
            CapacityTally {
                released_gpu_mib: prev.released_gpu_mib.saturating_add(max_u64(l.actual_mib, l.reservation_mib)),
                released_ram_mib: prev.released_ram_mib.saturating_add(
                    max_u64(l.actual_ram_mib, l.ram_reservation_mib),
                ),
                released_cpu_threads: prev.released_cpu_threads.saturating_add(
                    max_u16(l.actual_cpu_threads, l.cpu_thread_reservation) as u64,
                ),
                ..prev
            }
        } else {
            prev
        }
    }
}

pub open spec fn tally_step(
    acc: CapacityTally,
    ads: Seq<ResourceAdapterDiagnostic>,
    ls: Seq<ResourceLeaseDiagnostic>,
    t: TransitionView,
) -> CapacityTally {
    match t.operation {
        ResourceAdapterOperation::Start | ResourceAdapterOperation::Resume => match lookup(ads, t.adapter_id) {
            Some(a) => match transition_profile(a, t) {
                Some(p) => tally_profile(acc, p),
                None => CapacityTally { estimate_missing: true, ..acc },
            },
            None => acc,
        },
        ResourceAdapterOperation::Observe => acc,
        _ => tally_release(acc, ls, t.adapter_id),
    }
}

/// The capacity demands of a plan's transitions.
pub open spec fn tally(
    ts: Seq<TransitionView>,
    ads: Seq<ResourceAdapterDiagnostic>,
    ls: Seq<ResourceLeaseDiagnostic>,
) -> CapacityTally
    decreases ts.len(),
{
    if ts.len() == 0 {
        empty_tally()
    } else {
        tally_step(tally(ts.drop_last(), ads, ls), ads, ls, ts.last())
    }
}

/// CPU threads the live leases hold.
pub open spec fn occupied_cpu(ls: Seq<ResourceLeaseDiagnostic>) -> nat
    decreases ls.len(),
{
    if ls.len() == 0 {
        0
    } else {
        occupied_cpu(ls.drop_last()) + max_u16(ls.last().actual_cpu_threads, ls.last().cpu_thread_reservation) as nat
    }
}

/// CPU threads free once the plan's yields are done.
pub open spec fn cpu_available_after(cores: u16, ls: Seq<ResourceLeaseDiagnostic>, released: u64) -> u64 {
    let left: u64 = if cores >= occupied_cpu(ls) { (cores - occupied_cpu(ls)) as u64 } else { 0 };
    left.saturating_add(released)
}

pub open spec fn reason_if(b: bool, code: Seq<char>) -> Set<Seq<char>> {
    if b { set![code] } else { Set::empty() }
}

/// The capacity checks that block a plan.
pub open spec fn capacity_blocked(
    tl: CapacityTally,
    snap: ResourceSnapshot,
    policy: ResourceCoordinatorPolicy,
    gpu_index: Option<u32>,
    ls: Seq<ResourceLeaseDiagnostic>,
) -> Set<Seq<char>> {
    let gpu = if tl.gpu_relevant && snap.available {
        match device_free(snap.gpu_devices@, gpu_index) {
            Some(f) => reason_if(
                f.saturating_add(tl.released_gpu_mib) < policy.gpu_safety_reserve_mib.saturating_add(
                    tl.requested_gpu_mib,
                ),
                "resource_plan_insufficient_gpu_headroom"@,
            ),
            None => set!["resource_plan_gpu_device_unavailable"@],
        }
    } else {
        Set::empty()
    };
    let ram = if tl.ram_relevant {
        match snap.system_memory {
            Some(m) => reason_if(
                m.available_mib.saturating_add(tl.released_ram_mib)
                    < policy.system_memory_safety_reserve_mib.saturating_add(tl.requested_ram_mib),
                "resource_plan_insufficient_system_memory_headroom"@,
            ),
            None => Set::empty(),
        }
    } else {
        Set::empty()
    };
    let cpu = if tl.cpu_relevant {
        match snap.cpu {
            Some(c) => reason_if(
                cpu_available_after(c.logical_cores, ls, tl.released_cpu_threads) < (
                policy.cpu_safety_reserve_threads as u64).saturating_add(tl.requested_cpu_threads),
                "resource_plan_insufficient_cpu_thread_headroom"@,
            ),
            None => Set::empty(),
        }
    } else {
        Set::empty()
    };
    gpu + ram + cpu
}

/// The capacity checks that could not be made, or only partly.
pub open spec fn capacity_degraded(tl: CapacityTally, snap: ResourceSnapshot) -> Set<Seq<char>> {
    reason_if(tl.gpu_estimate_missing, "resource_plan_gpu_capacity_unknown"@) + reason_if(
        tl.estimate_missing,
        "resource_plan_capacity_unknown"@,
    ) + reason_if(tl.gpu_relevant && !snap.available, "resource_plan_gpu_capacity_unverified"@) + reason_if(
        tl.ram_relevant && snap.system_memory is None,
        "resource_plan_system_memory_capacity_unverified"@,
    ) + reason_if(tl.cpu_relevant && snap.cpu is None, "resource_plan_cpu_capacity_unverified"@)
}


/// The reason codes a list holds.
pub open spec fn reason_set(v: Seq<String>) -> Set<Seq<char>> {
    strs(v).to_set()
}

pub open spec fn distinct_strs(s: Seq<Seq<char>>) -> bool {
    forall|a: int, b: int| 0 <= a < b < s.len() ==> s[a] != s[b]
}

/// Add a reason code to a list that holds each code once.
pub(crate) fn add_reason(v: &mut Vec<String>, code: &str)
    requires
        distinct_strs(strs(old(v)@)),
    ensures
        distinct_strs(strs(final(v)@)),
        reason_set(final(v)@) == reason_set(old(v)@).insert(code@),
{
    let chars = crate::text::chars_of(code);
    assert(crate::text::views(v@) =~= strs(v@));
    if crate::plugins::contains_str(v, &chars) {
        assert(reason_set(v@) =~= reason_set(v@).insert(code@));
    } else {
        let ghost before = strs(v@);
        v.push(crate::text::owned(code));
        assert(strs(v@) =~= before.push(code@));
        proof {
            before.lemma_push_to_set_commute(code@);
        }
    }
}

/// Add every code of `w`.
pub(crate) fn add_reasons(v: &mut Vec<String>, w: &Vec<String>)
    requires
        distinct_strs(strs(old(v)@)),
    ensures
        distinct_strs(strs(final(v)@)),
        reason_set(final(v)@) == reason_set(old(v)@) + reason_set(w@),
{
    let ghost start = reason_set(v@);
    let mut i: usize = 0;
    while i < w.len()
        invariant
            i <= w@.len(),
            distinct_strs(strs(v@)),
            reason_set(v@) == start + strs(w@).take(i as int).to_set(),
        decreases w.len() - i,
    {
        let ghost before = reason_set(v@);
        add_reason(v, w[i].as_str());
        proof {
            assert(strs(w@).take(i + 1) =~= strs(w@).take(i as int).push(w@[i as int]@));
            strs(w@).take(i as int).lemma_push_to_set_commute(w@[i as int]@);
            assert(reason_set(v@) =~= start + strs(w@).take(i + 1).to_set());
        }
        i = i + 1;
    }
    assert(strs(w@).take(i as int) =~= strs(w@));
}

pub(crate) fn add_reason_if(v: &mut Vec<String>, b: bool, code: &str)
    requires
        distinct_strs(strs(old(v)@)),
    ensures
        distinct_strs(strs(final(v)@)),
        reason_set(final(v)@) == reason_set(old(v)@) + reason_if(b, code@),
{
    if b {
        add_reason(v, code);
        assert(reason_set(old(v)@).insert(code@) =~= reason_set(old(v)@) + reason_if(b, code@));
    } else {
        assert(reason_set(v@) =~= reason_set(v@) + reason_if(b, code@));
    }
}

fn tally_profile_exec(acc: CapacityTally, p: &ResourceOperatingProfile) -> (r: CapacityTally)
    ensures
        r == tally_profile(acc, *p),
{
    let mut t = acc;
    match p.execution_target {
        ResourceExecutionTarget::Gpu | ResourceExecutionTarget::Hybrid => {
            t.gpu_relevant = true;
            match p.estimated_reservation_mib {
                Some(e) => {
                    t.requested_gpu_mib = t.requested_gpu_mib.saturating_add(e);
                },
                None => {
                    t.gpu_estimate_missing = true;
                },
            }
        },
        _ => {},
    }
    match p.estimated_ram_mib {
        Some(e) => {
            t.ram_relevant = true;
            t.requested_ram_mib = t.requested_ram_mib.saturating_add(e);
        },
        None => {},
    }
    match p.estimated_cpu_threads {
        Some(e) => {
            t.cpu_relevant = true;
            t.requested_cpu_threads = t.requested_cpu_threads.saturating_add(e as u64);
        },
        None => {},
    }
    let external = match p.execution_target {
        ResourceExecutionTarget::External => true,
        _ => false,
    };
    if !external && p.estimated_reservation_mib.is_none() && p.estimated_ram_mib.is_none()
        && p.estimated_cpu_threads.is_none() {
        t.estimate_missing = true;
    }
    t
}

fn max_u64_of(a: u64, b: u64) -> (r: u64)
    ensures
        r == max_u64(a, b),
{
    if a >= b { a } else { b }
}

fn max_u16_of(a: u16, b: u16) -> (r: u16)
    ensures
        r == max_u16(a, b),
{
    if a >= b { a } else { b }
}

fn tally_release_exec(acc: CapacityTally, ls: &Vec<ResourceLeaseDiagnostic>, id: &str) -> (r: CapacityTally)
    ensures
        r == tally_release(acc, ls@, id@),
{
    let mut t = acc;
    let mut i: usize = 0;
    while i < ls.len()
        invariant
            i <= ls@.len(),
            t == tally_release(acc, ls@.take(i as int), id@),
        decreases ls.len() - i,
    {
        assert(ls@.take(i + 1).drop_last() =~= ls@.take(i as int));
        assert(ls@.take(i + 1).last() == ls@[i as int]);
        let l = &ls[i];
        if crate::text::str_eq(l.adapter_id.as_str(), id) {
            t.released_gpu_mib = t.released_gpu_mib.saturating_add(max_u64_of(l.actual_mib, l.reservation_mib));
            t.released_ram_mib = t.released_ram_mib.saturating_add(
                max_u64_of(l.actual_ram_mib, l.ram_reservation_mib),
            );
            t.released_cpu_threads = t.released_cpu_threads.saturating_add(
                max_u16_of(l.actual_cpu_threads, l.cpu_thread_reservation) as u64,
            );
        }
        i = i + 1;
    }
    assert(ls@.take(i as int) =~= ls@);
    t
}

fn tally_step_exec(
    acc: CapacityTally,
    ads: &Vec<ResourceAdapterDiagnostic>,
    ls: &Vec<ResourceLeaseDiagnostic>,
    t: &ResourceCandidateTransition,
) -> (r: CapacityTally)
    ensures
        r == tally_step(acc, ads@, ls@, t@),
{
    match t.operation {
        ResourceAdapterOperation::Start | ResourceAdapterOperation::Resume => {
            match adapter_at_exec(ads, t.adapter_id.as_str()) {
                Some(i) => {
                    proof { super::plan::lemma_adapter_at_bound(ads@, t.adapter_id@); }
                    let a = &ads[i];
                    let pos = match &t.profile_id {
                        Some(pid) => find_profile_pos(&a.descriptor.profiles, pid.as_str(), false),
                        None => None,
                    };
                    match pos {
                        Some(k) => {
                            proof {
                                lemma_profile_pos_bound(a.descriptor.profiles@, t@.profile_id->0);
                            }
                            tally_profile_exec(acc, &a.descriptor.profiles[k])
                        },
                        None => {
                            let mut r = acc;
                            r.estimate_missing = true;
                            r
                        },
                    }
                },
                None => acc,
            }
        },
        ResourceAdapterOperation::Observe => acc,
        _ => tally_release_exec(acc, ls, t.adapter_id.as_str()),
    }
}

/// The capacity demands of a plan's transitions.
pub(crate) fn tally_exec(
    ts: &Vec<ResourceCandidateTransition>,
    ads: &Vec<ResourceAdapterDiagnostic>,
    ls: &Vec<ResourceLeaseDiagnostic>,
) -> (r: CapacityTally)
    ensures
        r == tally(transition_views(ts@), ads@, ls@),
{
    let ghost tv = transition_views(ts@);
    let mut acc = CapacityTally {
        requested_gpu_mib: 0,
        requested_ram_mib: 0,
        requested_cpu_threads: 0,
        released_gpu_mib: 0,
        released_ram_mib: 0,
        released_cpu_threads: 0,
        gpu_relevant: false,
        ram_relevant: false,
        cpu_relevant: false,
        gpu_estimate_missing: false,
        estimate_missing: false,
    };
    let mut i: usize = 0;
    while i < ts.len()
        invariant
            i <= ts@.len(),
            tv == transition_views(ts@),
            acc == tally(tv.take(i as int), ads@, ls@),
        decreases ts.len() - i,
    {
        assert(tv.take(i + 1).drop_last() =~= tv.take(i as int));
        assert(tv.take(i + 1).last() == ts@[i as int]@);
        acc = tally_step_exec(acc, ads, ls, &ts[i]);
        i = i + 1;
    }
    assert(tv.take(i as int) =~= tv);
    acc
}

fn cpu_available_after_exec(cores: u16, ls: &Vec<ResourceLeaseDiagnostic>, released: u64) -> (r: u64)
    ensures
        r == cpu_available_after(cores, ls@, released),
{
    let mut occ: u64 = 0;
    let mut i: usize = 0;
    while i < ls.len()
        invariant
            i <= ls@.len(),
            occ == (if occupied_cpu(ls@.take(i as int)) > u64::MAX { u64::MAX as nat } else {
                occupied_cpu(ls@.take(i as int))
            }),
        decreases ls.len() - i,
    {
        assert(ls@.take(i + 1).drop_last() =~= ls@.take(i as int));
        assert(ls@.take(i + 1).last() == ls@[i as int]);
        occ = occ.saturating_add(max_u16_of(ls[i].actual_cpu_threads, ls[i].cpu_thread_reservation) as u64);
        i = i + 1;
    }
    assert(ls@.take(i as int) =~= ls@);
    let left: u64 = if cores as u64 >= occ { cores as u64 - occ } else { 0 };
    left.saturating_add(released)
}

/// Add the capacity verdict's reason codes.
pub(crate) fn capacity_reasons(
    tl: CapacityTally,
    snap: &ResourceSnapshot,
    policy: &ResourceCoordinatorPolicy,
    gpu_index: Option<u32>,
    ls: &Vec<ResourceLeaseDiagnostic>,
    degraded: &mut Vec<String>,
    blocked: &mut Vec<String>,
)
    requires
        distinct_strs(strs(old(degraded)@)),
        distinct_strs(strs(old(blocked)@)),
    ensures
        distinct_strs(strs(final(degraded)@)),
        distinct_strs(strs(final(blocked)@)),
        reason_set(final(degraded)@) == reason_set(old(degraded)@) + capacity_degraded(tl, *snap),
        reason_set(final(blocked)@) == reason_set(old(blocked)@) + capacity_blocked(tl, *snap, *policy, gpu_index, ls@),
{
    let ghost d0 = reason_set(degraded@);
    let ghost b0 = reason_set(blocked@);
    add_reason_if(degraded, tl.gpu_estimate_missing, "resource_plan_gpu_capacity_unknown");
    add_reason_if(degraded, tl.estimate_missing, "resource_plan_capacity_unknown");
    add_reason_if(degraded, tl.gpu_relevant && !snap.available, "resource_plan_gpu_capacity_unverified");
    add_reason_if(
        degraded,
        tl.ram_relevant && snap.system_memory.is_none(),
        "resource_plan_system_memory_capacity_unverified",
    );
    add_reason_if(degraded, tl.cpu_relevant && snap.cpu.is_none(), "resource_plan_cpu_capacity_unverified");
    assert(reason_set(degraded@) =~= d0 + capacity_degraded(tl, *snap));
    if tl.gpu_relevant && snap.available {
        match free_mib_for_device(snap, gpu_index) {
            Some(f) => {
                add_reason_if(
                    blocked,
                    f.saturating_add(tl.released_gpu_mib) < policy.gpu_safety_reserve_mib.saturating_add(
                        tl.requested_gpu_mib,
                    ),
                    "resource_plan_insufficient_gpu_headroom",
                );
            },
            None => {
                add_reason(blocked, "resource_plan_gpu_device_unavailable");
                assert(b0.insert("resource_plan_gpu_device_unavailable"@) =~= b0 + set![
                    "resource_plan_gpu_device_unavailable"@,
                ]);
            },
        }
    } else {
        assert(b0 + Set::<Seq<char>>::empty() =~= b0);
    }
    let ghost b1 = reason_set(blocked@);
    if tl.ram_relevant {
        match &snap.system_memory {
            Some(m) => {
                add_reason_if(
                    blocked,
                    m.available_mib.saturating_add(tl.released_ram_mib)
                        < policy.system_memory_safety_reserve_mib.saturating_add(tl.requested_ram_mib),
                    "resource_plan_insufficient_system_memory_headroom",
                );
            },
            None => {
                assert(b1 + Set::<Seq<char>>::empty() =~= b1);
            },
        }
    } else {
        assert(b1 + Set::<Seq<char>>::empty() =~= b1);
    }
    let ghost b2 = reason_set(blocked@);
    if tl.cpu_relevant {
        match &snap.cpu {
            Some(c) => {
                let after = cpu_available_after_exec(c.logical_cores, ls, tl.released_cpu_threads);
                add_reason_if(
                    blocked,
                    after < (policy.cpu_safety_reserve_threads as u64).saturating_add(tl.requested_cpu_threads),
                    "resource_plan_insufficient_cpu_thread_headroom",
                );
            },
            None => {
                assert(b2 + Set::<Seq<char>>::empty() =~= b2);
            },
        }
    } else {
        assert(b2 + Set::<Seq<char>>::empty() =~= b2);
    }
    assert(reason_set(blocked@) =~= b0 + capacity_blocked(tl, *snap, *policy, gpu_index, ls@));
}

} // verus!
