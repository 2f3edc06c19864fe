//! Resource coordination data model: snapshots, policy, requests, leases.

use vstd::prelude::*;

verus! {

/// Scheduling priority of a workload; later variants outrank earlier ones.
#[derive(Clone, Copy, Debug, PartialEq, Eq, Structural)]
pub enum ResourcePriority {
    Resident,
    BackgroundWarmup,
    ForegroundMedia,
    ForegroundInteractive,
}

/// Rank of a priority (`Resident` lowest).
pub open spec fn priority_rank(p: ResourcePriority) -> nat {
    match p {
        ResourcePriority::Resident => 0,
        ResourcePriority::BackgroundWarmup => 1,
        ResourcePriority::ForegroundMedia => 2,
        ResourcePriority::ForegroundInteractive => 3,
    }
}

pub fn priority_level(p: ResourcePriority) -> (r: u64)
    ensures
        r == priority_rank(p),
{
    match p {
        ResourcePriority::Resident => 0,
        ResourcePriority::BackgroundWarmup => 1,
        ResourcePriority::ForegroundMedia => 2,
        ResourcePriority::ForegroundInteractive => 3,
    }
}

/// The higher of two priorities.
pub fn max_priority(a: ResourcePriority, b: ResourcePriority) -> (r: ResourcePriority)
    ensures
        priority_rank(r) == if priority_rank(a) >= priority_rank(b) {
            priority_rank(a)
        } else {
            priority_rank(b)
        },
        r == a || r == b,
{
    if priority_level(a) >= priority_level(b) {
        a
    } else {
        b
    }
}

#[derive(Clone, Copy, Debug, PartialEq, Eq, Structural)]
pub enum ResourcePressureLevel {
    Unknown,
    Normal,
    Elevated,
    Critical,
}

#[derive(Clone, Copy, Debug, PartialEq, Eq, Structural)]
pub enum ResourceLeaseState {
    Reserved,
    Active,
}

#[derive(Clone, Copy, Debug, PartialEq, Eq, Structural)]
pub enum ResourceControlMode {
    ObserveOnly,
    Managed,
}

#[derive(Clone, Copy, Debug, PartialEq, Eq, Structural)]
pub enum ResourceAdmissionMode {
    Enforced,
    ObserveOnly,
}

#[derive(Clone, Copy, Debug, PartialEq, Eq, Structural)]
pub enum ResourceAdmissionDecision {
    Granted,
    GrantedUnverified,
    Reused,
    Denied,
}

/// Lifecycle operations a managed adapter may perform.
#[derive(Clone, Copy, Debug, PartialEq, Eq, Structural)]
pub enum ResourceAdapterOperation {
    Observe,
    Start,
    Resume,
    Suspend,
    Unload,
    Release,
}

#[derive(Clone, Debug)]
pub struct GpuDeviceSnapshot {
    pub device_index: u32,
    pub name: String,
    pub total_mib: u64,
    pub free_mib: u64,
    pub used_mib: u64,
}

#[derive(Clone, Copy, Debug, PartialEq, Eq, Structural)]
pub struct SystemMemorySnapshot {
    pub total_mib: u64,
    pub available_mib: u64,
    pub used_mib: u64,
}

#[derive(Clone, Copy, Debug, PartialEq, Eq, Structural)]
pub struct CpuSnapshot {
    pub logical_cores: u16,
    pub physical_cores: Option<u16>,
}

/// One probe of host GPU, memory and CPU capacity.
#[derive(Clone, Debug)]
pub struct ResourceSnapshot {
    pub captured_at_ms: u64,
    pub source: String,
    pub available: bool,
    pub gpu_devices: Vec<GpuDeviceSnapshot>,
    pub system_memory: Option<SystemMemorySnapshot>,
    pub cpu: Option<CpuSnapshot>,
    pub reason_codes: Vec<String>,
}

/// Tunables of the coordinator.
#[derive(Clone, Copy, Debug, PartialEq, Eq, Structural)]
pub struct ResourceCoordinatorPolicy {
    pub gpu_safety_reserve_mib: u64,
    pub system_memory_safety_reserve_mib: u64,
    pub cpu_safety_reserve_threads: u16,
    pub pending_lease_ttl_ms: u64,
    pub active_lease_ttl_ms: u64,
    pub allow_unverified_admission: bool,
    pub automatic_preemption: bool,
    pub admission_queue_timeout_ms: u64,
    pub queue_aging_quantum_ms: u64,
}

impl Default for ResourceCoordinatorPolicy {
    fn default() -> (p: Self)
        ensures
            p.gpu_safety_reserve_mib == 1024,
            p.system_memory_safety_reserve_mib == 1024,
            p.cpu_safety_reserve_threads == 2,
            p.pending_lease_ttl_ms == 30_000,
            p.active_lease_ttl_ms == 300_000,
            p.allow_unverified_admission,
            p.automatic_preemption,
            p.admission_queue_timeout_ms == 30_000,
            p.queue_aging_quantum_ms == 5_000,
    {
        ResourceCoordinatorPolicy {
            gpu_safety_reserve_mib: 1024,
            system_memory_safety_reserve_mib: 1024,
            cpu_safety_reserve_threads: 2,
            pending_lease_ttl_ms: 30_000,
            active_lease_ttl_ms: 300_000,
            allow_unverified_admission: true,
            automatic_preemption: true,
            admission_queue_timeout_ms: 30_000,
            queue_aging_quantum_ms: 5_000,
        }
    }
}

/// A request to reserve capacity for one workload of one adapter.
#[derive(Clone, Debug)]
pub struct ResourceAdmissionRequest {
    pub adapter_id: String,
    pub workload_id: String,
    pub profile_id: Option<String>,
    pub gpu_device_index: Option<u32>,
    pub reservation_mib: u64,
    pub ram_reservation_mib: u64,
    pub cpu_thread_reservation: u16,
    pub priority: ResourcePriority,
    pub control_mode: ResourceControlMode,
    pub admission_mode: ResourceAdmissionMode,
}

/// A granted (reserved or active) claim on host capacity.
#[derive(Clone, Debug)]
pub struct ResourceLeaseDiagnostic {
    pub lease_id: String,
    pub adapter_id: String,
    pub workload_id: String,
    pub profile_id: Option<String>,
    pub gpu_device_index: Option<u32>,
    pub reservation_mib: u64,
    pub actual_mib: u64,
    pub ram_reservation_mib: u64,
    pub actual_ram_mib: u64,
    pub cpu_thread_reservation: u16,
    pub actual_cpu_threads: u16,
    pub priority: ResourcePriority,
    pub control_mode: ResourceControlMode,
    pub state: ResourceLeaseState,
    pub granted_at_ms: u64,
    pub expires_at_ms: Option<u64>,
    pub reason_codes: Vec<String>,
}

/// Outcome of one admission.
#[derive(Clone, Debug)]
pub struct ResourceAdmissionResult {
    pub decision: ResourceAdmissionDecision,
    pub lease: Option<ResourceLeaseDiagnostic>,
    pub snapshot: ResourceSnapshot,
    pub pressure: ResourcePressureLevel,
    pub queue_wait_ms: u64,
    pub preempted_adapters: Vec<ResourcePreemptionRecord>,
    pub reason_codes: Vec<String>,
}

/// An adapter yielded to make room for a higher-priority admission.
#[derive(Clone, Debug)]
pub struct ResourcePreemptionRecord {
    pub adapter_id: String,
    pub operation: ResourceAdapterOperation,
    pub restore_operation: ResourceAdapterOperation,
    pub profile_id: Option<String>,
}

/// Views of a list of strings.
pub open spec fn strs(v: Seq<String>) -> Seq<Seq<char>> {
    v.map_values(|s: String| s@)
}

pub open spec fn opt_view(o: Option<String>) -> Option<Seq<char>> {
    match o {
        Some(s) => Some(s@),
        None => None,
    }
}

/// A copy of a list of strings.
pub fn copy_strings(v: &Vec<String>) -> (r: Vec<String>)
    ensures
        r@ == v@,
{
    let mut r: Vec<String> = Vec::new();
    let mut i: usize = 0;
    while i < v.len()
        invariant
            i <= v.len(),
            r@ == v@.take(i as int),
        decreases v.len() - i,
    {
        r.push(v[i].clone());
        i = i + 1;
        assert(r@ =~= v@.take(i as int));
    }
    assert(v@.take(v@.len() as int) =~= v@);
    r
}

pub fn copy_opt_string(o: &Option<String>) -> (r: Option<String>)
    ensures
        r == *o,
{
    match o {
        Some(s) => Some(s.clone()),
        None => None,
    }
}

/// Equality of optional strings by content.
pub fn opt_str_eq(a: &Option<String>, b: &Option<String>) -> (r: bool)
    ensures
        r == (opt_view(*a) == opt_view(*b)),
{
    match (a, b) {
        (Some(x), Some(y)) => crate::text::str_eq(x.as_str(), y.as_str()),
        (None, None) => true,
        _ => false,
    }
}

impl GpuDeviceSnapshot {
    pub fn copy(&self) -> (r: Self)
        ensures
            r == *self,
    {
        GpuDeviceSnapshot {
            device_index: self.device_index,
            name: self.name.clone(),
            total_mib: self.total_mib,
            free_mib: self.free_mib,
            used_mib: self.used_mib,
        }
    }
}

impl ResourceSnapshot {
    pub fn copy(&self) -> (r: Self)
        ensures
            r.captured_at_ms == self.captured_at_ms,
            r.source@ == self.source@,
            r.available == self.available,
            r.gpu_devices@ == self.gpu_devices@,
            r.system_memory == self.system_memory,
            r.cpu == self.cpu,
            r.reason_codes@ == self.reason_codes@,
    {
        let mut devices: Vec<GpuDeviceSnapshot> = Vec::new();
        let mut i: usize = 0;
        while i < self.gpu_devices.len()
            invariant
                i <= self.gpu_devices.len(),
                devices@ == self.gpu_devices@.take(i as int),
            decreases self.gpu_devices.len() - i,
        {
            devices.push(self.gpu_devices[i].copy());
            i = i + 1;
            assert(devices@ =~= self.gpu_devices@.take(i as int));
        }
        assert(self.gpu_devices@.take(self.gpu_devices@.len() as int) =~= self.gpu_devices@);
        ResourceSnapshot {
            captured_at_ms: self.captured_at_ms,
            source: self.source.clone(),
            available: self.available,
            gpu_devices: devices,
            system_memory: self.system_memory,
            cpu: self.cpu,
            reason_codes: copy_strings(&self.reason_codes),
        }
    }

    /// A snapshot that reports telemetry as unavailable.
    pub fn unavailable(source: &str, reason_code: &str) -> (r: Self)
        ensures
            r.captured_at_ms == 0,
            r.source@ == source@,
            !r.available,
            r.gpu_devices@.len() == 0,
            r.system_memory is None,
            r.cpu is None,
            strs(r.reason_codes@) == seq![reason_code@],
    {
        let mut reasons: Vec<String> = Vec::new();
        reasons.push(crate::text::owned(reason_code));
        assert(strs(reasons@) =~= seq![reason_code@]);
        ResourceSnapshot {
            captured_at_ms: 0,
            source: crate::text::owned(source),
            available: false,
            gpu_devices: Vec::new(),
            system_memory: None,
            cpu: None,
            reason_codes: reasons,
        }
    }
}

impl ResourceLeaseDiagnostic {
    pub fn copy(&self) -> (r: Self)
        ensures
            r.lease_id@ == self.lease_id@,
            r.adapter_id@ == self.adapter_id@,
            r.workload_id@ == self.workload_id@,
            opt_view(r.profile_id) == opt_view(self.profile_id),
            r.gpu_device_index == self.gpu_device_index,
            r.reservation_mib == self.reservation_mib,
            r.actual_mib == self.actual_mib,
            r.ram_reservation_mib == self.ram_reservation_mib,
            r.actual_ram_mib == self.actual_ram_mib,
            r.cpu_thread_reservation == self.cpu_thread_reservation,
            r.actual_cpu_threads == self.actual_cpu_threads,
            r.priority == self.priority,
            r.control_mode == self.control_mode,
            r.state == self.state,
            r.granted_at_ms == self.granted_at_ms,
            r.expires_at_ms == self.expires_at_ms,
            r.reason_codes@ == self.reason_codes@,
    {
        ResourceLeaseDiagnostic {
            lease_id: self.lease_id.clone(),
            adapter_id: self.adapter_id.clone(),
            workload_id: self.workload_id.clone(),
            profile_id: copy_opt_string(&self.profile_id),
            gpu_device_index: self.gpu_device_index,
            reservation_mib: self.reservation_mib,
            actual_mib: self.actual_mib,
            ram_reservation_mib: self.ram_reservation_mib,
            actual_ram_mib: self.actual_ram_mib,
            cpu_thread_reservation: self.cpu_thread_reservation,
            actual_cpu_threads: self.actual_cpu_threads,
            priority: self.priority,
            control_mode: self.control_mode,
            state: self.state,
            granted_at_ms: self.granted_at_ms,
            expires_at_ms: self.expires_at_ms,
            reason_codes: copy_strings(&self.reason_codes),
        }
    }
}

} // verus!
