//! Pressure classification of a snapshot and the reason codes it yields.

use vstd::prelude::*;
use super::model::{
    copy_strings, strs, CpuSnapshot, GpuDeviceSnapshot, ResourceAdapterOperation,
    ResourceAdmissionResult, ResourceCoordinatorPolicy, ResourcePressureLevel, ResourceSnapshot,
    SystemMemorySnapshot,
};

verus! {

/// First position holding the smallest device index.
pub open spec fn is_first_min_device(devs: Seq<GpuDeviceSnapshot>, k: int) -> bool {
    &&& 0 <= k < devs.len()
    &&& forall|j: int| 0 <= j < devs.len() ==> devs[k].device_index <= devs[j].device_index
    &&& forall|j: int| 0 <= j < k ==> devs[j].device_index > devs[k].device_index
}

/// First position holding device `index`.
pub open spec fn is_first_device_with(devs: Seq<GpuDeviceSnapshot>, index: u32, k: int) -> bool {
    &&& 0 <= k < devs.len()
    &&& devs[k].device_index == index
    &&& forall|j: int| 0 <= j < k ==> devs[j].device_index != index
}

pub open spec fn has_device(devs: Seq<GpuDeviceSnapshot>, index: u32) -> bool {
    exists|k: int| is_first_device_with(devs, index, k)
}

pub open spec fn first_device_pos(devs: Seq<GpuDeviceSnapshot>, index: u32) -> int {
    choose|k: int| is_first_device_with(devs, index, k)
}

pub open spec fn first_min_pos(devs: Seq<GpuDeviceSnapshot>) -> int {
    choose|k: int| is_first_min_device(devs, k)
}

/// Free memory of the requested device, or of the lowest-indexed device
/// when none is requested.
pub open spec fn device_free(devs: Seq<GpuDeviceSnapshot>, index: Option<u32>) -> Option<u64> {
    match index {
        Some(i) => if has_device(devs, i) {
            Some(devs[first_device_pos(devs, i)].free_mib)
        } else {
            None
        },
        None => if devs.len() > 0 {
            Some(devs[first_min_pos(devs)].free_mib)
        } else {
            None
        },
    }
}

/// `2 * r`, saturating at `u64::MAX`.
pub open spec fn sat_double(r: u64) -> nat {
    if 2 * r > u64::MAX {
        u64::MAX as nat
    } else {
        (2 * r) as nat
    }
}

/// Pressure of one resource with `free` left against a safety `reserve`.
pub open spec fn level_for(free: u64, reserve: u64) -> ResourcePressureLevel {
    if free <= reserve {
        ResourcePressureLevel::Critical
    } else if free <= sat_double(reserve) {
        ResourcePressureLevel::Elevated
    } else {
        ResourcePressureLevel::Normal
    }
}

pub open spec fn gpu_level(
    s: ResourceSnapshot,
    p: ResourceCoordinatorPolicy,
    index: Option<u32>,
) -> ResourcePressureLevel {
    if s.available && s.gpu_devices@.len() > 0 {
        let free = match device_free(s.gpu_devices@, index) {
            Some(f) => f,
            None => 0,
        };
        level_for(free, p.gpu_safety_reserve_mib)
    } else {
        ResourcePressureLevel::Unknown
    }
}

pub open spec fn ram_level(s: ResourceSnapshot, p: ResourceCoordinatorPolicy) -> ResourcePressureLevel {
    match s.system_memory {
        Some(m) => level_for(m.available_mib, p.system_memory_safety_reserve_mib),
        None => ResourcePressureLevel::Unknown,
    }
}

/// The worse of two levels, ordered Critical, Elevated, Unknown, Normal.
pub open spec fn combine_levels(a: ResourcePressureLevel, b: ResourcePressureLevel) -> ResourcePressureLevel {
    if a == ResourcePressureLevel::Critical || b == ResourcePressureLevel::Critical {
        ResourcePressureLevel::Critical
    } else if a == ResourcePressureLevel::Elevated || b == ResourcePressureLevel::Elevated {
        ResourcePressureLevel::Elevated
    } else if a == ResourcePressureLevel::Unknown || b == ResourcePressureLevel::Unknown {
        ResourcePressureLevel::Unknown
    } else {
        ResourcePressureLevel::Normal
    }
}

#[verifier::opaque]
pub open spec fn pressure_spec(
    s: ResourceSnapshot,
    p: ResourceCoordinatorPolicy,
    index: Option<u32>,
) -> ResourcePressureLevel {
    combine_levels(gpu_level(s, p, index), ram_level(s, p))
}

/// Free memory of the selected GPU device.
pub fn free_mib_for_device(snapshot: &ResourceSnapshot, requested_index: Option<u32>) -> (r: Option<u64>)
    ensures
        r == device_free(snapshot.gpu_devices@, requested_index),
{
    let devs = &snapshot.gpu_devices;
    match requested_index {
        Some(index) => {
            let mut k: usize = 0;
            while k < devs.len()
                invariant
                    k <= devs.len(),
                    devs@ == snapshot.gpu_devices@,
                    requested_index == Some(index),
                    forall|j: int| 0 <= j < k ==> devs@[j].device_index != index,
                decreases devs.len() - k,
            {
                if devs[k].device_index == index {
                    assert(is_first_device_with(devs@, index, k as int));
                    let ghost c = first_device_pos(devs@, index);
                    assert(c == k) by {
                        if c < k {
                            assert(devs@[c].device_index != index);
                        } else if c > k {
                            assert(devs@[k as int].device_index != index);
                        }
                    }
                    assert(has_device(devs@, index));
                    assert(first_device_pos(devs@, index) == k);
                    assert(devs@[first_device_pos(devs@, index)].free_mib == devs@[k as int].free_mib);
                    assert(device_free(devs@, Some(index)) == Some(devs@[k as int].free_mib));
                    return Some(devs[k].free_mib);
                }
                k = k + 1;
            }
            None
        },
        None => {
            if devs.len() == 0 {
                return None;
            }
            let mut best: usize = 0;
            let mut k: usize = 1;
            while k < devs.len()
                invariant
                    1 <= k <= devs.len(),
                    best < k,
                    forall|j: int| 0 <= j < k ==> devs@[best as int].device_index <= devs@[j].device_index,
                    forall|j: int| 0 <= j < best ==> devs@[j].device_index > devs@[best as int].device_index,
                decreases devs.len() - k,
            {
                if devs[k].device_index < devs[best].device_index {
                    best = k;
                }
                k = k + 1;
            }
            assert(is_first_min_device(devs@, best as int));
            let ghost c = first_min_pos(devs@);
            assert(c == best) by {
                if c < best {
                    assert(devs@[c].device_index > devs@[best as int].device_index);
                } else if c > best {
                    assert(devs@[best as int].device_index > devs@[c].device_index);
                }
            }
            Some(devs[best].free_mib)
        },
    }
}

fn level_of(free: u64, reserve: u64) -> (r: ResourcePressureLevel)
    ensures
        r == level_for(free, reserve),
{
    if free <= reserve {
        ResourcePressureLevel::Critical
    } else if free <= (if reserve > u64::MAX / 2 { u64::MAX } else { reserve * 2 }) {
        ResourcePressureLevel::Elevated
    } else {
        ResourcePressureLevel::Normal
    }
}

/// GPU and system-memory pressure of a snapshot.
pub fn pressure_levels(
    snapshot: &ResourceSnapshot,
    policy: &ResourceCoordinatorPolicy,
    gpu_device_index: Option<u32>,
) -> (r: (ResourcePressureLevel, ResourcePressureLevel))
    ensures
        r.0 == gpu_level(*snapshot, *policy, gpu_device_index),
        r.1 == ram_level(*snapshot, *policy),
{
    let gpu = if snapshot.available && snapshot.gpu_devices.len() > 0 {
        let free = match free_mib_for_device(snapshot, gpu_device_index) {
            Some(f) => f,
            None => 0,
        };
        level_of(free, policy.gpu_safety_reserve_mib)
    } else {
        ResourcePressureLevel::Unknown
    };
    let ram = match snapshot.system_memory {
        Some(m) => level_of(m.available_mib, policy.system_memory_safety_reserve_mib),
        None => ResourcePressureLevel::Unknown,
    };
    (gpu, ram)
}

fn is_level(a: ResourcePressureLevel, b: ResourcePressureLevel) -> (r: bool)
    ensures
        r == (a == b),
{
    match (a, b) {
        (ResourcePressureLevel::Unknown, ResourcePressureLevel::Unknown) => true,
        (ResourcePressureLevel::Normal, ResourcePressureLevel::Normal) => true,
        (ResourcePressureLevel::Elevated, ResourcePressureLevel::Elevated) => true,
        (ResourcePressureLevel::Critical, ResourcePressureLevel::Critical) => true,
        _ => false,
    }
}

/// Overall pressure: the worse of GPU and system-memory pressure.
pub fn pressure_for(
    snapshot: &ResourceSnapshot,
    policy: &ResourceCoordinatorPolicy,
    gpu_device_index: Option<u32>,
) -> (r: ResourcePressureLevel)
    ensures
        r == pressure_spec(*snapshot, *policy, gpu_device_index),
{
    reveal(pressure_spec);
    let (gpu, ram) = pressure_levels(snapshot, policy, gpu_device_index);
    if is_level(gpu, ResourcePressureLevel::Critical) || is_level(ram, ResourcePressureLevel::Critical) {
        ResourcePressureLevel::Critical
    } else if is_level(gpu, ResourcePressureLevel::Elevated) || is_level(ram, ResourcePressureLevel::Elevated) {
        ResourcePressureLevel::Elevated
    } else if is_level(gpu, ResourcePressureLevel::Unknown) || is_level(ram, ResourcePressureLevel::Unknown) {
        ResourcePressureLevel::Unknown
    } else {
        ResourcePressureLevel::Normal
    }
}

pub open spec fn gpu_reason(l: ResourcePressureLevel) -> Seq<Seq<char>> {
    match l {
        ResourcePressureLevel::Elevated => seq!["gpu_headroom_elevated"@],
        ResourcePressureLevel::Critical => seq!["gpu_headroom_critical"@],
        _ => seq![],
    }
}

pub open spec fn ram_reason(l: ResourcePressureLevel) -> Seq<Seq<char>> {
    match l {
        ResourcePressureLevel::Elevated => seq!["system_memory_headroom_elevated"@],
        ResourcePressureLevel::Critical => seq!["system_memory_headroom_critical"@],
        _ => seq![],
    }
}

/// Reason codes describing the pressure of a snapshot: the snapshot's own
/// codes, then the GPU code, then the memory code; `resource_pressure_unknown`
/// when nothing else explains an unknown pressure.
pub open spec fn pressure_reasons_spec(
    s: ResourceSnapshot,
    p: ResourceCoordinatorPolicy,
    index: Option<u32>,
    pressure: ResourcePressureLevel,
) -> Seq<Seq<char>> {
    let base = strs(s.reason_codes@) + gpu_reason(gpu_level(s, p, index)) + ram_reason(ram_level(s, p));
    if pressure == ResourcePressureLevel::Unknown && base.len() == 0 {
        seq!["resource_pressure_unknown"@]
    } else {
        base
    }
}

fn push_code(v: &mut Vec<String>, code: &str)
    ensures
        strs(final(v)@) == strs(old(v)@).push(code@),
{
    v.push(crate::text::owned(code));
    assert(strs(v@) =~= strs(old(v)@).push(code@));
}

/// Reason codes of the current pressure.
pub fn pressure_reason_codes(
    snapshot: &ResourceSnapshot,
    policy: &ResourceCoordinatorPolicy,
    gpu_device_index: Option<u32>,
    pressure: ResourcePressureLevel,
) -> (r: Vec<String>)
    ensures
        strs(r@) == pressure_reasons_spec(*snapshot, *policy, gpu_device_index, pressure),
{
    let mut reasons = copy_strings(&snapshot.reason_codes);
    let (gpu, ram) = pressure_levels(snapshot, policy, gpu_device_index);
    let ghost b0 = strs(reasons@);
    match gpu {
        ResourcePressureLevel::Elevated => push_code(&mut reasons, "gpu_headroom_elevated"),
        ResourcePressureLevel::Critical => push_code(&mut reasons, "gpu_headroom_critical"),
        _ => {},
    }
    let ghost b1 = strs(reasons@);
    assert(b1 =~= b0 + gpu_reason(gpu));
    match ram {
        ResourcePressureLevel::Elevated => push_code(&mut reasons, "system_memory_headroom_elevated"),
        ResourcePressureLevel::Critical => push_code(&mut reasons, "system_memory_headroom_critical"),
        _ => {},
    }
    assert(strs(reasons@) =~= b1 + ram_reason(ram));
    if is_level(pressure, ResourcePressureLevel::Unknown) && reasons.len() == 0 {
        let mut v: Vec<String> = Vec::new();
        push_code(&mut v, "resource_pressure_unknown");
        assert(strs(v@) =~= seq!["resource_pressure_unknown"@]);
        return v;
    }
    reasons
}

/// The codes that automatic preemption can relieve.
pub open spec fn is_capacity_reason(r: Seq<char>) -> bool {
    r == "insufficient_gpu_headroom"@ || r == "insufficient_system_memory_headroom"@ || r
        == "insufficient_cpu_thread_headroom"@
}

/// Whether a denial was caused by missing capacity.
pub fn preemption_relevant(result: &ResourceAdmissionResult) -> (r: bool)
    ensures
        r == exists|i: int|
            0 <= i < result.reason_codes@.len() && is_capacity_reason(#[trigger] result.reason_codes@[i]@),
{
    let mut i: usize = 0;
    while i < result.reason_codes.len()
        invariant
            i <= result.reason_codes.len(),
            forall|j: int| 0 <= j < i ==> !is_capacity_reason(#[trigger] result.reason_codes@[j]@),
        decreases result.reason_codes.len() - i,
    {
        let r = result.reason_codes[i].as_str();
        if crate::text::str_eq(r, "insufficient_gpu_headroom") || crate::text::str_eq(
            r,
            "insufficient_system_memory_headroom",
        ) || crate::text::str_eq(r, "insufficient_cpu_thread_headroom") {
            return true;
        }
        i = i + 1;
    }
    false
}

/// The operation that undoes an automatic preemption step.
pub open spec fn restore_spec(op: ResourceAdapterOperation) -> Option<ResourceAdapterOperation> {
    match op {
        ResourceAdapterOperation::Suspend => Some(ResourceAdapterOperation::Resume),
        ResourceAdapterOperation::Unload => Some(ResourceAdapterOperation::Start),
        _ => None,
    }
}

pub fn restore_operation_for(operation: ResourceAdapterOperation) -> (r: Option<ResourceAdapterOperation>)
    ensures
        r == restore_spec(operation),
{
    match operation {
        ResourceAdapterOperation::Suspend => Some(ResourceAdapterOperation::Resume),
        ResourceAdapterOperation::Unload => Some(ResourceAdapterOperation::Start),
        _ => None,
    }
}

/// Operations after which an adapter holds no residency.
pub open spec fn releases_residency(op: ResourceAdapterOperation) -> bool {
    op == ResourceAdapterOperation::Suspend || op == ResourceAdapterOperation::Unload || op
        == ResourceAdapterOperation::Release
}

pub fn transition_releases_residency(operation: ResourceAdapterOperation) -> (r: bool)
    ensures
        r == releases_residency(operation),
{
    match operation {
        ResourceAdapterOperation::Suspend | ResourceAdapterOperation::Unload
        | ResourceAdapterOperation::Release => true,
        _ => false,
    }
}

pub open spec fn same_devices(a: Seq<GpuDeviceSnapshot>, b: Seq<GpuDeviceSnapshot>) -> bool {
    &&& a.len() == b.len()
    &&& forall|i: int|
        0 <= i < a.len() ==> {
            &&& (#[trigger] a[i]).device_index == b[i].device_index
            &&& a[i].name@ == b[i].name@
            &&& a[i].total_mib == b[i].total_mib
            &&& a[i].free_mib == b[i].free_mib
            &&& a[i].used_mib == b[i].used_mib
        }
}

/// Whether two snapshots differ in anything but their capture time.
pub open spec fn materially_changed(a: ResourceSnapshot, b: ResourceSnapshot) -> bool {
    a.source@ != b.source@ || a.available != b.available || !same_devices(a.gpu_devices@, b.gpu_devices@)
        || a.system_memory != b.system_memory || a.cpu != b.cpu || strs(a.reason_codes@) != strs(
        b.reason_codes@,
    )
}

pub fn strings_eq(a: &Vec<String>, b: &Vec<String>) -> (r: bool)
    ensures
        r == (strs(a@) == strs(b@)),
{
    if a.len() != b.len() {
        assert(strs(a@).len() != strs(b@).len());
        return false;
    }
    let mut i: usize = 0;
    while i < a.len()
        invariant
            a.len() == b.len(),
            i <= a.len(),
            forall|j: int| 0 <= j < i ==> a@[j]@ == b@[j]@,
        decreases a.len() - i,
    {
        if !crate::text::str_eq(a[i].as_str(), b[i].as_str()) {
            assert(strs(a@)[i as int] != strs(b@)[i as int]);
            return false;
        }
        i = i + 1;
    }
    assert(strs(a@) =~= strs(b@));
    true
}

pub fn snapshot_materially_changed(previous: &ResourceSnapshot, next: &ResourceSnapshot) -> (r: bool)
    ensures
        r == materially_changed(*previous, *next),
{
    if !crate::text::str_eq(previous.source.as_str(), next.source.as_str()) || previous.available
        != next.available {
        return true;
    }
    let a = &previous.gpu_devices;
    let b = &next.gpu_devices;
    if a.len() != b.len() {
        return true;
    }
    let mut i: usize = 0;
    while i < a.len()
        invariant
            a.len() == b.len(),
            i <= a.len(),
            a@ == previous.gpu_devices@,
            b@ == next.gpu_devices@,
            forall|j: int|
                0 <= j < i ==> {
                    &&& (#[trigger] a@[j]).device_index == b@[j].device_index
                    &&& a@[j].name@ == b@[j].name@
                    &&& a@[j].total_mib == b@[j].total_mib
                    &&& a@[j].free_mib == b@[j].free_mib
                    &&& a@[j].used_mib == b@[j].used_mib
                },
        decreases a.len() - i,
    {
        if a[i].device_index != b[i].device_index || !crate::text::str_eq(
            a[i].name.as_str(),
            b[i].name.as_str(),
        ) || a[i].total_mib != b[i].total_mib || a[i].free_mib != b[i].free_mib || a[i].used_mib
            != b[i].used_mib {
            assert(!same_devices(a@, b@)) by {
                let x = a@[i as int];
                assert(x == a@[i as int]);
            }
            return true;
        }
        i = i + 1;
    }
    let mem_same = match (previous.system_memory, next.system_memory) {
        (Some(x), Some(y)) => x.total_mib == y.total_mib && x.available_mib == y.available_mib
            && x.used_mib == y.used_mib,
        (None, None) => true,
        _ => false,
    };
    if !mem_same {
        return true;
    }
    let cpu_same = match (previous.cpu, next.cpu) {
        (Some(x), Some(y)) => x.logical_cores == y.logical_cores && match (
            x.physical_cores,
            y.physical_cores,
        ) {
            (Some(p), Some(q)) => p == q,
            (None, None) => true,
            _ => false,
        },
        (None, None) => true,
        _ => false,
    };
    if !cpu_same {
        return true;
    }
    !strings_eq(&previous.reason_codes, &next.reason_codes)
}

} // verus!
