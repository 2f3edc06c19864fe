//! The resource coordinator: adapter registry, controllers, transition
//! grants, transition validation, preemption candidates and admission.

use vstd::prelude::*;
use super::leases::{
    admission_verdict, first_match, live, live_leases, sat, CoordinatorState, ResourceCoordinationDiagnostics,
};
use super::model::{
    copy_opt_string, opt_view, priority_level, ResourceLeaseDiagnostic, priority_rank, strs, ResourceAdapterOperation,
    ResourceAdmissionDecision, ResourceAdmissionRequest, ResourceAdmissionResult, ResourceControlMode,
    ResourceCoordinatorPolicy, ResourceLeaseState, ResourcePressureLevel, ResourcePriority, ResourceSnapshot,
};
use super::pressure::{restore_operation_for, restore_spec};
use super::queue::AdmissionQueueState;
use super::plan::{find_profile_pos, lemma_profile_pos_bound, lemma_profile_pos_none, profile_pos};
use crate::text::{lex_le, lemma_lex_total, lemma_lex_trans, lex_le_exec, str_eq, trim};

verus! {

/// Where a profile runs.
#[derive(Clone, Copy, Debug, PartialEq, Eq, Structural)]
pub enum ResourceExecutionTarget {
    Gpu,
    Hybrid,
    Cpu,
    External,
}

/// One operating profile of an adapter.
#[derive(Clone, Debug)]
pub struct ResourceOperatingProfile {
    pub profile_id: String,
    pub quality_rank: u16,
    pub execution_target: ResourceExecutionTarget,
    pub estimated_reservation_mib: Option<u64>,
    pub estimated_ram_mib: Option<u64>,
    pub estimated_cpu_threads: Option<u16>,
    pub requires_restart: bool,
    pub coordinator_selectable: bool,
}

/// A resource-sensitive runtime and what the coordinator may do with it.
#[derive(Clone, Debug)]
pub struct ResourceAdapterDescriptor {
    pub adapter_id: String,
    pub provider_id: Option<String>,
    pub control_mode: ResourceControlMode,
    pub profiles: Vec<ResourceOperatingProfile>,
    pub lifecycle_operations: Vec<ResourceAdapterOperation>,
    pub automatic_preemption: Option<ResourceAdapterOperation>,
}

#[derive(Clone, Copy, Debug, PartialEq, Eq, Structural)]
pub enum ResourceAdapterRegistrationSource {
    Builtin,
    HostExtension,
    DirectoryPlugin,
}

/// A descriptor together with the party that registered it.
#[derive(Clone, Debug)]
pub struct ResourceAdapterRegistration {
    pub source: ResourceAdapterRegistrationSource,
    pub source_id: String,
    pub descriptor: ResourceAdapterDescriptor,
}

/// A requester allowed to ask a target adapter for some operations.
pub struct TransitionGrant {
    pub requested_by_adapter_id: String,
    pub target_adapter_id: String,
    pub operations: Vec<ResourceAdapterOperation>,
}

/// Stable control-plane reasons for refusing a lifecycle transition.
#[derive(Clone, Copy, Debug, PartialEq, Eq, Structural)]
pub enum ResourceTransitionError {
    AdapterIdInvalid,
    SelfRequest,
    RequesterUnregistered,
    AdapterUnregistered,
    ControlUnavailable,
    OperationUnsupported,
    ProfileUnregistered,
    ProfileNotCoordinatorSelectable,
    NotAuthorized,
    ControllerUnavailable,
    StaleRevision,
}

impl ResourceTransitionError {
    /// The stable reason code.
    pub fn code(&self) -> (s: &'static str)
        ensures
            s@ == transition_error_code(*self),
    {
        match self {
            ResourceTransitionError::AdapterIdInvalid => "resource_transition_adapter_id_invalid",
            ResourceTransitionError::SelfRequest => "resource_transition_self_request",
            ResourceTransitionError::RequesterUnregistered => "resource_transition_requester_unregistered",
            ResourceTransitionError::AdapterUnregistered => "resource_transition_adapter_unregistered",
            ResourceTransitionError::ControlUnavailable => "resource_transition_control_unavailable",
            ResourceTransitionError::OperationUnsupported => "resource_transition_operation_unsupported",
            ResourceTransitionError::ProfileUnregistered => "resource_profile_unregistered",
            ResourceTransitionError::ProfileNotCoordinatorSelectable => "resource_profile_not_coordinator_selectable",
            ResourceTransitionError::NotAuthorized => "resource_transition_not_authorized",
            ResourceTransitionError::ControllerUnavailable => "resource_transition_controller_unavailable",
            ResourceTransitionError::StaleRevision => "resource_plan_stale_revision",
        }
    }
}

pub open spec fn transition_error_code(e: ResourceTransitionError) -> Seq<char> {
    match e {
        ResourceTransitionError::AdapterIdInvalid => "resource_transition_adapter_id_invalid"@,
        ResourceTransitionError::SelfRequest => "resource_transition_self_request"@,
        ResourceTransitionError::RequesterUnregistered => "resource_transition_requester_unregistered"@,
        ResourceTransitionError::AdapterUnregistered => "resource_transition_adapter_unregistered"@,
        ResourceTransitionError::ControlUnavailable => "resource_transition_control_unavailable"@,
        ResourceTransitionError::OperationUnsupported => "resource_transition_operation_unsupported"@,
        ResourceTransitionError::ProfileUnregistered => "resource_profile_unregistered"@,
        ResourceTransitionError::ProfileNotCoordinatorSelectable => "resource_profile_not_coordinator_selectable"@,
        ResourceTransitionError::NotAuthorized => "resource_transition_not_authorized"@,
        ResourceTransitionError::ControllerUnavailable => "resource_transition_controller_unavailable"@,
        ResourceTransitionError::StaleRevision => "resource_plan_stale_revision"@,
    }
}

pub open spec fn ops_contain(ops: Seq<ResourceAdapterOperation>, op: ResourceAdapterOperation) -> bool {
    exists|i: int| 0 <= i < ops.len() && ops[i] == op
}

fn has_op(ops: &Vec<ResourceAdapterOperation>, op: ResourceAdapterOperation) -> (r: bool)
    ensures
        r == ops_contain(ops@, op),
{
    let mut i: usize = 0;
    while i < ops.len()
        invariant
            i <= ops.len(),
            forall|j: int| 0 <= j < i ==> ops@[j] != op,
        decreases ops.len() - i,
    {
        if same_op(ops[i], op) {
            return true;
        }
        i = i + 1;
    }
    false
}

fn same_op(a: ResourceAdapterOperation, b: ResourceAdapterOperation) -> (r: bool)
    ensures
        r == (a == b),
{
    a == b
}

/// Position of the descriptor of `id`.
pub open spec fn adapter_pos(reg: Seq<ResourceAdapterRegistration>, id: Seq<char>) -> Option<int> {
    if exists|k: int| 0 <= k < reg.len() && reg[k].descriptor.adapter_id@ == id {
        Some(choose|k: int| 0 <= k < reg.len() && reg[k].descriptor.adapter_id@ == id)
    } else {
        None
    }
}

pub open spec fn registered(reg: Seq<ResourceAdapterRegistration>, id: Seq<char>) -> bool {
    exists|k: int| 0 <= k < reg.len() && reg[k].descriptor.adapter_id@ == id
}

pub open spec fn profile_registered(d: ResourceAdapterDescriptor, p: Seq<char>) -> bool {
    exists|k: int| 0 <= k < d.profiles@.len() && d.profiles@[k].profile_id@ == p
}

pub open spec fn strings_contain(v: Seq<String>, s: Seq<char>) -> bool {
    exists|k: int| 0 <= k < v.len() && v[k]@ == s
}

/// `requester` may ask `target` for `op`.
pub open spec fn granted(grants: Seq<TransitionGrant>, requester: Seq<char>, target: Seq<char>, op: ResourceAdapterOperation) -> bool {
    exists|k: int|
        0 <= k < grants.len() && grants[k].requested_by_adapter_id@ == requester && grants[k].target_adapter_id@
            == target && ops_contain(grants[k].operations@, op)
}

/// The first reason, in check order, to refuse `op` on `adapter` with
/// `profile` asked by `requester` (none: the transition may run).
pub open spec fn transition_refusal(
    reg: Seq<ResourceAdapterRegistration>,
    controllers: Seq<String>,
    grants: Seq<TransitionGrant>,
    adapter: Seq<char>,
    op: ResourceAdapterOperation,
    profile: Option<Seq<char>>,
    requester: Option<Seq<char>>,
    allow_nonselectable: bool,
) -> Option<ResourceTransitionError> {
    if trim(adapter).len() == 0 || trim(adapter) != adapter {
        Some(ResourceTransitionError::AdapterIdInvalid)
    } else if requester matches Some(r) && r == adapter {
        Some(ResourceTransitionError::SelfRequest)
    } else if requester matches Some(r) && !registered(reg, r) {
        Some(ResourceTransitionError::RequesterUnregistered)
    } else if !registered(reg, adapter) {
        Some(ResourceTransitionError::AdapterUnregistered)
    } else {
        let d = reg[adapter_pos(reg, adapter)->0].descriptor;
        if d.control_mode != ResourceControlMode::Managed {
            Some(ResourceTransitionError::ControlUnavailable)
        } else if !ops_contain(d.lifecycle_operations@, op) {
            Some(ResourceTransitionError::OperationUnsupported)
        } else if profile matches Some(p) && !profile_registered(d, p) {
            Some(ResourceTransitionError::ProfileUnregistered)
        } else if profile matches Some(p) && !allow_nonselectable && (op == ResourceAdapterOperation::Start || op
            == ResourceAdapterOperation::Resume) && !d.profiles@[profile_pos(d.profiles@, p)->0].coordinator_selectable {
            Some(ResourceTransitionError::ProfileNotCoordinatorSelectable)
        } else if requester matches Some(r) && !granted(grants, r, adapter, op) {
            Some(ResourceTransitionError::NotAuthorized)
        } else if !strings_contain(controllers, adapter) {
            Some(ResourceTransitionError::ControllerUnavailable)
        } else {
            None
        }
    }
}

/// A lease holder that automatic preemption may yield.
pub struct AutomaticPreemptionCandidate {
    pub adapter_id: String,
    pub profile_id: Option<String>,
    pub operation: ResourceAdapterOperation,
    pub restore_operation: ResourceAdapterOperation,
    pub priority: ResourcePriority,
    pub releasable_mib: u64,
    pub releasable_ram_mib: u64,
    pub releasable_cpu_threads: u16,
    pub granted_at_ms: u64,
}

/// Host-owned resource admission, leases and lifecycle control.
pub struct ResourceCoordinator {
    pub state: CoordinatorState,
    pub registry: Vec<ResourceAdapterRegistration>,
    pub controller_ids: Vec<String>,
    pub grants: Vec<TransitionGrant>,
    pub admission_queue: AdmissionQueueState,
}

/// Registered adapter ids are distinct.
pub open spec fn registry_ids_unique(reg: Seq<ResourceAdapterRegistration>) -> bool {
    forall|i: int, j: int|
        0 <= i < j < reg.len() ==> reg[i].descriptor.adapter_id@ != reg[j].descriptor.adapter_id@
}

/// Registration errors.
#[derive(Clone, Copy, Debug, PartialEq, Eq, Structural)]
pub enum ResourceRegistrationError {
    AdapterIdInvalid,
    AlreadyRegistered,
    BuiltinSourceRejected,
    ControllerTargetUnregistered,
    ControllerNotOwned,
    ControllerTargetObserveOnly,
    ControllerAlreadyRegistered,
    GrantIdsInvalid,
    GrantRequesterUnregistered,
    GrantTargetUnregistered,
    GrantTargetWithoutController,
    GrantOperationsUnsupported,
}

/// The message of a registration error about adapter `id`, asked for by
/// `source` where the check involves an owner.
pub open spec fn registration_message(e: ResourceRegistrationError, id: Seq<char>, source: Seq<char>) -> Seq<char> {
    match e {
        ResourceRegistrationError::AdapterIdInvalid => "resource adapter id is invalid"@,
        ResourceRegistrationError::AlreadyRegistered => "resource adapter "@ + id + " is already registered"@,
        ResourceRegistrationError::BuiltinSourceRejected => "third-party resource adapter source must not be builtin"@,
        ResourceRegistrationError::ControllerTargetUnregistered => "resource adapter controller target "@ + id
            + " is unregistered"@,
        ResourceRegistrationError::ControllerNotOwned => "resource adapter controller "@ + id + " is not owned by "@
            + source,
        ResourceRegistrationError::ControllerTargetObserveOnly => "resource adapter controller target "@ + id
            + " is observe-only"@,
        ResourceRegistrationError::ControllerAlreadyRegistered => "resource adapter controller "@ + id
            + " already registered"@,
        ResourceRegistrationError::GrantIdsInvalid => "resource adapter transition grant ids are invalid"@,
        ResourceRegistrationError::GrantRequesterUnregistered => "resource transition grant requester "@ + id
            + " is unregistered"@,
        ResourceRegistrationError::GrantTargetUnregistered => "resource transition grant target "@ + id
            + " is unregistered"@,
        ResourceRegistrationError::GrantTargetWithoutController => "resource transition grant target "@ + id
            + " has no controller"@,
        ResourceRegistrationError::GrantOperationsUnsupported => "resource transition grant for "@ + id
            + " contains unsupported operations"@,
    }
}

fn framed(pre: &str, id: &str, post: &str) -> (r: String)
    ensures
        r@ == pre@ + id@ + post@,
{
    let mut r = crate::text::owned(pre);
    crate::text::append(&mut r, id);
    crate::text::append(&mut r, post);
    r
}

impl ResourceRegistrationError {
    /// The human-readable message: `adapter_id` is the adapter the failed
    /// check names, `source_id` the party that asked.
    pub fn message(&self, adapter_id: &str, source_id: &str) -> (r: String)
        ensures
            r@ == registration_message(*self, adapter_id@, source_id@),
    {
        match self {
            ResourceRegistrationError::AdapterIdInvalid => crate::text::owned("resource adapter id is invalid"),
            ResourceRegistrationError::AlreadyRegistered => framed(
                "resource adapter ",
                adapter_id,
                " is already registered",
            ),
            ResourceRegistrationError::BuiltinSourceRejected => crate::text::owned(
                "third-party resource adapter source must not be builtin",
            ),
            ResourceRegistrationError::ControllerTargetUnregistered => framed(
                "resource adapter controller target ",
                adapter_id,
                " is unregistered",
            ),
            ResourceRegistrationError::ControllerNotOwned => {
                let mut r = framed("resource adapter controller ", adapter_id, " is not owned by ");
                crate::text::append(&mut r, source_id);
                r
            },
            ResourceRegistrationError::ControllerTargetObserveOnly => framed(
                "resource adapter controller target ",
                adapter_id,
                " is observe-only",
            ),
            ResourceRegistrationError::ControllerAlreadyRegistered => framed(
                "resource adapter controller ",
                adapter_id,
                " already registered",
            ),
            ResourceRegistrationError::GrantIdsInvalid => crate::text::owned(
                "resource adapter transition grant ids are invalid",
            ),
            ResourceRegistrationError::GrantRequesterUnregistered => framed(
                "resource transition grant requester ",
                adapter_id,
                " is unregistered",
            ),
            ResourceRegistrationError::GrantTargetUnregistered => framed(
                "resource transition grant target ",
                adapter_id,
                " is unregistered",
            ),
            ResourceRegistrationError::GrantTargetWithoutController => framed(
                "resource transition grant target ",
                adapter_id,
                " has no controller",
            ),
            ResourceRegistrationError::GrantOperationsUnsupported => framed(
                "resource transition grant for ",
                adapter_id,
                " contains unsupported operations",
            ),
        }
    }
}

impl ResourceCoordinator {
    pub open spec fn wf(&self) -> bool {
        &&& self.state.wf()
        &&& self.admission_queue.wf()
        &&& registry_ids_unique(self.registry@)
    }

    pub fn new(policy: ResourceCoordinatorPolicy) -> (c: Self)
        ensures
            c.wf(),
            c.state.policy == policy,
            c.state.leases@.len() == 0,
            c.state.state_revision == 1,
            c.registry@.len() == 0,
            c.controller_ids@.len() == 0,
            c.grants@.len() == 0,
    {
        ResourceCoordinator {
            state: CoordinatorState::new(policy),
            registry: Vec::new(),
            controller_ids: Vec::new(),
            grants: Vec::new(),
            admission_queue: AdmissionQueueState::new(),
        }
    }

    pub fn policy(&self) -> (p: &ResourceCoordinatorPolicy)
        ensures
            *p == self.state.policy,
    {
        &self.state.policy
    }

    pub fn state_revision(&self) -> (r: u64)
        ensures
            r == self.state.state_revision,
    {
        self.state.state_revision
    }

    pub(crate) fn bump(&mut self)
        ensures
            final(self).state.state_revision == super::leases::bumped(old(self).state.state_revision),
            final(self).state.leases@ == old(self).state.leases@,
            final(self).state.next_lease_id == old(self).state.next_lease_id,
            final(self).state.policy == old(self).state.policy,
            final(self).state.last_snapshot == old(self).state.last_snapshot,
            final(self).state.last_pressure == old(self).state.last_pressure,
            final(self).state.last_reason_codes@ == old(self).state.last_reason_codes@,
            final(self).registry@ == old(self).registry@,
            final(self).controller_ids@ == old(self).controller_ids@,
            final(self).grants@ == old(self).grants@,
            final(self).admission_queue == old(self).admission_queue,
    {
        if self.state.state_revision < u64::MAX {
            self.state.state_revision = self.state.state_revision + 1;
        }
    }

    /// Position of the registration of `id`.
    pub fn find_adapter(&self, id: &str) -> (r: Option<usize>)
        requires
            registry_ids_unique(self.registry@),
        ensures
            r matches Some(k) ==> k < self.registry@.len() && self.registry@[k as int].descriptor.adapter_id@
                == id@ && adapter_pos(self.registry@, id@) == Some(k as int),
            r is None <==> !registered(self.registry@, id@),
    {
        let mut i: usize = 0;
        while i < self.registry.len()
            invariant
                i <= self.registry.len(),
                registry_ids_unique(self.registry@),
                forall|j: int| 0 <= j < i ==> self.registry@[j].descriptor.adapter_id@ != id@,
            decreases self.registry.len() - i,
        {
            if str_eq(self.registry[i].descriptor.adapter_id.as_str(), id) {
                let ghost c = choose|k: int|
                    0 <= k < self.registry@.len() && self.registry@[k].descriptor.adapter_id@ == id@;
                assert(c == i) by {
                    if c != i {
                        if c < i {
                        } else {
                            assert(self.registry@[i as int].descriptor.adapter_id@ != self.registry@[c].descriptor.adapter_id@);
                        }
                    }
                }
                return Some(i);
            }
            i = i + 1;
        }
        None
    }

    fn has_controller(&self, id: &str) -> (r: bool)
        ensures
            r == strings_contain(self.controller_ids@, id@),
    {
        let mut i: usize = 0;
        while i < self.controller_ids.len()
            invariant
                i <= self.controller_ids.len(),
                forall|j: int| 0 <= j < i ==> self.controller_ids@[j]@ != id@,
            decreases self.controller_ids.len() - i,
        {
            if str_eq(self.controller_ids[i].as_str(), id) {
                return true;
            }
            i = i + 1;
        }
        false
    }

    fn is_granted(&self, requester: &str, target: &str, op: ResourceAdapterOperation) -> (r: bool)
        ensures
            r == granted(self.grants@, requester@, target@, op),
    {
        let mut i: usize = 0;
        while i < self.grants.len()
            invariant
                i <= self.grants.len(),
                forall|j: int|
                    0 <= j < i ==> !(self.grants@[j].requested_by_adapter_id@ == requester@
                        && self.grants@[j].target_adapter_id@ == target@ && ops_contain(
                        self.grants@[j].operations@,
                        op,
                    )),
            decreases self.grants.len() - i,
        {
            let g = &self.grants[i];
            if str_eq(g.requested_by_adapter_id.as_str(), requester) && str_eq(
                g.target_adapter_id.as_str(),
                target,
            ) && has_op(&g.operations, op) {
                return true;
            }
            i = i + 1;
        }
        false
    }

    /// Registers a descriptor; the id must be trimmed, non-empty and new.
    pub fn register_owned(&mut self, registration: ResourceAdapterRegistration) -> (r: Result<(), ResourceRegistrationError>)
        requires
            old(self).wf(),
        ensures
            final(self).wf(),
            r is Ok ==> final(self).state.state_revision == super::leases::bumped(old(self).state.state_revision),
            r is Err ==> final(self).state.state_revision == old(self).state.state_revision,
            final(self).state.leases@ == old(self).state.leases@,
            final(self).controller_ids@ == old(self).controller_ids@,
            final(self).grants@ == old(self).grants@,
            ({
                let id = registration.descriptor.adapter_id@;
                if trim(id).len() == 0 || trim(id) != id {
                    r == Err::<(), ResourceRegistrationError>(ResourceRegistrationError::AdapterIdInvalid)
                } else if registered(old(self).registry@, id) {
                    r == Err::<(), ResourceRegistrationError>(ResourceRegistrationError::AlreadyRegistered)
                } else {
                    r is Ok
                }
            }),
            r is Ok ==> final(self).registry@ == old(self).registry@.push(registration),
            r is Err ==> final(self).registry@ == old(self).registry@,
    {
        let id = crate::text::trim_chars(registration.descriptor.adapter_id.as_str());
        let raw = crate::text::chars_of(registration.descriptor.adapter_id.as_str());
        if id.len() == 0 || !crate::text::seq_eq(&id, &raw) {
            return Err(ResourceRegistrationError::AdapterIdInvalid);
        }
        if self.find_adapter(registration.descriptor.adapter_id.as_str()).is_some() {
            return Err(ResourceRegistrationError::AlreadyRegistered);
        }
        let ghost before = self.registry@;
        self.registry.push(registration);
        proof {
            assert forall|i: int, j: int| 0 <= i < j < self.registry@.len() implies self.registry@[i].descriptor.adapter_id@
                != self.registry@[j].descriptor.adapter_id@ by {
                if j == self.registry@.len() - 1 {
                    assert(self.registry@[i] == before[i]);
                }
            }
        }
        self.bump();
        Ok(())
    }

    /// Registers a builtin descriptor.
    pub fn register_adapter(&mut self, descriptor: ResourceAdapterDescriptor) -> (r: Result<(), ResourceRegistrationError>)
        requires
            old(self).wf(),
        ensures
            final(self).wf(),
            r is Ok ==> final(self).state.state_revision == super::leases::bumped(old(self).state.state_revision),
            r is Err ==> final(self).state.state_revision == old(self).state.state_revision,
            ({
                let id = descriptor.adapter_id@;
                if trim(id).len() == 0 || trim(id) != id {
                    r == Err::<(), ResourceRegistrationError>(ResourceRegistrationError::AdapterIdInvalid)
                } else if registered(old(self).registry@, id) {
                    r == Err::<(), ResourceRegistrationError>(ResourceRegistrationError::AlreadyRegistered)
                } else {
                    r is Ok
                }
            }),
            r is Ok ==> registered(final(self).registry@, descriptor.adapter_id@) && final(self).registry@.last().source
                == ResourceAdapterRegistrationSource::Builtin,
            r is Err ==> final(self).registry@ == old(self).registry@,
    {
        let registration = ResourceAdapterRegistration {
            source: ResourceAdapterRegistrationSource::Builtin,
            source_id: crate::text::owned("builtin"),
            descriptor,
        };
        let r = self.register_owned(registration);
        proof {
            if r is Ok {
                assert(final(self).registry@.last().descriptor.adapter_id@ == descriptor.adapter_id@);
            }
        }
        r
    }

    /// Registers a descriptor owned by a third party; builtin claims are refused.
    pub fn register_third_party_adapter(&mut self, registration: ResourceAdapterRegistration) -> (r: Result<
        (),
        ResourceRegistrationError,
    >)
        requires
            old(self).wf(),
        ensures
            final(self).wf(),
            r is Ok ==> final(self).state.state_revision == super::leases::bumped(old(self).state.state_revision),
            r is Err ==> final(self).state.state_revision == old(self).state.state_revision,
            registration.source == ResourceAdapterRegistrationSource::Builtin ==> r == Err::<
                (),
                ResourceRegistrationError,
            >(ResourceRegistrationError::BuiltinSourceRejected),
            registration.source != ResourceAdapterRegistrationSource::Builtin ==> ({
                let id = registration.descriptor.adapter_id@;
                if trim(id).len() == 0 || trim(id) != id {
                    r == Err::<(), ResourceRegistrationError>(ResourceRegistrationError::AdapterIdInvalid)
                } else if registered(old(self).registry@, id) {
                    r == Err::<(), ResourceRegistrationError>(ResourceRegistrationError::AlreadyRegistered)
                } else {
                    r is Ok
                }
            }),
            r is Ok ==> final(self).registry@ == old(self).registry@.push(registration),
            r is Err ==> final(self).registry@ == old(self).registry@,
    {
        match registration.source {
            ResourceAdapterRegistrationSource::Builtin => Err(ResourceRegistrationError::BuiltinSourceRejected),
            _ => self.register_owned(registration),
        }
    }

    /// Binds the single lifecycle controller of a managed adapter.
    pub fn register_adapter_controller(&mut self, adapter_id: &str) -> (r: Result<(), ResourceRegistrationError>)
        requires
            old(self).wf(),
        ensures
            final(self).wf(),
            final(self).registry@ == old(self).registry@,
            r is Ok ==> final(self).state.state_revision == super::leases::bumped(old(self).state.state_revision),
            r is Err ==> final(self).state.state_revision == old(self).state.state_revision,
            ({
                if trim(adapter_id@).len() == 0 || trim(adapter_id@) != adapter_id@ {
                    r == Err::<(), ResourceRegistrationError>(ResourceRegistrationError::AdapterIdInvalid)
                } else if !registered(old(self).registry@, adapter_id@) {
                    r == Err::<(), ResourceRegistrationError>(ResourceRegistrationError::ControllerTargetUnregistered)
                } else if old(self).registry@[adapter_pos(old(self).registry@, adapter_id@)->0].descriptor.control_mode
                    != ResourceControlMode::Managed {
                    r == Err::<(), ResourceRegistrationError>(ResourceRegistrationError::ControllerTargetObserveOnly)
                } else if strings_contain(old(self).controller_ids@, adapter_id@) {
                    r == Err::<(), ResourceRegistrationError>(ResourceRegistrationError::ControllerAlreadyRegistered)
                } else {
                    r is Ok
                }
            }),
            r is Ok ==> strings_contain(final(self).controller_ids@, adapter_id@),
            r is Err ==> final(self).controller_ids@ == old(self).controller_ids@,
    {
        let id = crate::text::trim_chars(adapter_id);
        let raw = crate::text::chars_of(adapter_id);
        if id.len() == 0 || !crate::text::seq_eq(&id, &raw) {
            return Err(ResourceRegistrationError::AdapterIdInvalid);
        }
        let k = match self.find_adapter(adapter_id) {
            None => return Err(ResourceRegistrationError::ControllerTargetUnregistered),
            Some(k) => k,
        };
        match self.registry[k].descriptor.control_mode {
            ResourceControlMode::Managed => {},
            ResourceControlMode::ObserveOnly => return Err(ResourceRegistrationError::ControllerTargetObserveOnly),
        }
        if self.has_controller(adapter_id) {
            return Err(ResourceRegistrationError::ControllerAlreadyRegistered);
        }
        self.controller_ids.push(crate::text::owned(adapter_id));
        assert(self.controller_ids@.last()@ == adapter_id@);
        self.bump();
        Ok(())
    }

    /// Binds a controller offered by `source_id`, which must own the adapter.
    pub fn register_third_party_adapter_controller(&mut self, source_id: &str, adapter_id: &str) -> (r: Result<
        (),
        ResourceRegistrationError,
    >)
        requires
            old(self).wf(),
        ensures
            final(self).wf(),
            final(self).registry@ == old(self).registry@,
            r is Ok ==> final(self).state.state_revision == super::leases::bumped(old(self).state.state_revision),
            r is Err ==> final(self).state.state_revision == old(self).state.state_revision,
            !registered(old(self).registry@, adapter_id@) ==> r == Err::<(), ResourceRegistrationError>(
                ResourceRegistrationError::ControllerTargetUnregistered,
            ),
            registered(old(self).registry@, adapter_id@) && ({
                let reg = old(self).registry@[adapter_pos(old(self).registry@, adapter_id@)->0];
                reg.source == ResourceAdapterRegistrationSource::Builtin || reg.source_id@ != source_id@
            }) ==> r == Err::<(), ResourceRegistrationError>(ResourceRegistrationError::ControllerNotOwned),
            r is Ok ==> strings_contain(final(self).controller_ids@, adapter_id@),
            r is Err ==> final(self).controller_ids@ == old(self).controller_ids@,
    {
        let k = match self.find_adapter(adapter_id) {
            None => return Err(ResourceRegistrationError::ControllerTargetUnregistered),
            Some(k) => k,
        };
        let builtin = match self.registry[k].source {
            ResourceAdapterRegistrationSource::Builtin => true,
            _ => false,
        };
        if builtin || !str_eq(self.registry[k].source_id.as_str(), source_id) {
            return Err(ResourceRegistrationError::ControllerNotOwned);
        }
        self.register_adapter_controller(adapter_id)
    }

    /// Authorizes `requested_by` to ask `target` for `operations`.
    #[verifier::loop_isolation(false)]
    pub fn register_adapter_transition_grant(
        &mut self,
        requested_by: &str,
        target: &str,
        operations: Vec<ResourceAdapterOperation>,
    ) -> (r: Result<(), ResourceRegistrationError>)
        requires
            old(self).wf(),
        ensures
            final(self).wf(),
            final(self).registry@ == old(self).registry@,
            final(self).controller_ids@ == old(self).controller_ids@,
            r is Ok ==> final(self).state.state_revision == super::leases::bumped(old(self).state.state_revision),
            r is Err ==> final(self).state.state_revision == old(self).state.state_revision,
            ({
                if trim(requested_by@).len() == 0 || trim(target@).len() == 0 || requested_by@ == target@ {
                    r == Err::<(), ResourceRegistrationError>(ResourceRegistrationError::GrantIdsInvalid)
                } else if !registered(old(self).registry@, requested_by@) {
                    r == Err::<(), ResourceRegistrationError>(ResourceRegistrationError::GrantRequesterUnregistered)
                } else if !registered(old(self).registry@, target@) {
                    r == Err::<(), ResourceRegistrationError>(ResourceRegistrationError::GrantTargetUnregistered)
                } else if !strings_contain(old(self).controller_ids@, target@) {
                    r == Err::<(), ResourceRegistrationError>(ResourceRegistrationError::GrantTargetWithoutController)
                } else if operations@.len() == 0 || exists|i: int|
                    0 <= i < operations@.len() && !ops_contain(
                        old(self).registry@[adapter_pos(old(self).registry@, target@)->0].descriptor.lifecycle_operations@,
                        operations@[i],
                    ) {
                    r == Err::<(), ResourceRegistrationError>(ResourceRegistrationError::GrantOperationsUnsupported)
                } else {
                    r is Ok
                }
            }),
            r is Ok ==> forall|i: int|
                0 <= i < operations@.len() ==> granted(final(self).grants@, requested_by@, target@, operations@[i]),
            r is Ok ==> forall|req: Seq<char>, tgt: Seq<char>, op: ResourceAdapterOperation|
                granted(old(self).grants@, req, tgt, op) ==> granted(final(self).grants@, req, tgt, op),
            r is Err ==> final(self).grants@ == old(self).grants@,
    {
        let a = crate::text::trim_chars(requested_by);
        let b = crate::text::trim_chars(target);
        if a.len() == 0 || b.len() == 0 || str_eq(requested_by, target) {
            return Err(ResourceRegistrationError::GrantIdsInvalid);
        }
        if self.find_adapter(requested_by).is_none() {
            return Err(ResourceRegistrationError::GrantRequesterUnregistered);
        }
        let k = match self.find_adapter(target) {
            None => return Err(ResourceRegistrationError::GrantTargetUnregistered),
            Some(k) => k,
        };
        if !self.has_controller(target) {
            return Err(ResourceRegistrationError::GrantTargetWithoutController);
        }
        if operations.len() == 0 {
            return Err(ResourceRegistrationError::GrantOperationsUnsupported);
        }
        let mut i: usize = 0;
        while i < operations.len()
            invariant
                i <= operations.len(),
                k < self.registry@.len(),
                forall|j: int|
                    0 <= j < i ==> ops_contain(self.registry@[k as int].descriptor.lifecycle_operations@, operations@[j]),
            decreases operations.len() - i,
        {
            if !has_op(&self.registry[k].descriptor.lifecycle_operations, operations[i]) {
                return Err(ResourceRegistrationError::GrantOperationsUnsupported);
            }
            i = i + 1;
        }
        let ghost before = self.grants@;
        let ghost ops = operations@;
        self.grants.push(
            TransitionGrant {
                requested_by_adapter_id: crate::text::owned(requested_by),
                target_adapter_id: crate::text::owned(target),
                operations,
            },
        );
        proof {
            let last = self.grants@.len() - 1;
            assert forall|i: int| 0 <= i < ops.len() implies granted(self.grants@, requested_by@, target@, ops[i]) by {
                assert(ops_contain(self.grants@[last].operations@, ops[i]));
            }
            assert forall|req: Seq<char>, tgt: Seq<char>, op: ResourceAdapterOperation|
                granted(before, req, tgt, op) implies granted(self.grants@, req, tgt, op) by {
                let k = choose|k: int|
                    0 <= k < before.len() && before[k].requested_by_adapter_id@ == req && before[k].target_adapter_id@
                        == tgt && ops_contain(before[k].operations@, op);
                assert(self.grants@[k] == before[k]);
            }
        }
        self.bump();
        Ok(())
    }

    /// Checks a lifecycle transition against registry, profiles, grants and
    /// controllers; the first failing check is reported.
    #[verifier::spinoff_prover]
    pub fn validate_transition(
        &self,
        adapter_id: &str,
        operation: ResourceAdapterOperation,
        profile_id: Option<&str>,
        requested_by: Option<&str>,
        allow_nonselectable_profile: bool,
    ) -> (r: Result<(), ResourceTransitionError>)
        requires
            self.wf(),
        ensures
            ({
                let refusal = transition_refusal(
                    self.registry@,
                    self.controller_ids@,
                    self.grants@,
                    adapter_id@,
                    operation,
                    match profile_id { Some(p) => Some(p@), None => None },
                    match requested_by { Some(q) => Some(q@), None => None },
                    allow_nonselectable_profile,
                );
                match refusal {
                    Some(e) => r == Err::<(), ResourceTransitionError>(e),
                    None => r is Ok,
                }
            }),
    {
        let trimmed = crate::text::trim_chars(adapter_id);
        let raw = crate::text::chars_of(adapter_id);
        if trimmed.len() == 0 || !crate::text::seq_eq(&trimmed, &raw) {
            return Err(ResourceTransitionError::AdapterIdInvalid);
        }
        if let Some(q) = requested_by {
            if str_eq(q, adapter_id) {
                return Err(ResourceTransitionError::SelfRequest);
            }
            if self.find_adapter(q).is_none() {
                return Err(ResourceTransitionError::RequesterUnregistered);
            }
        }
        let k = match self.find_adapter(adapter_id) {
            None => return Err(ResourceTransitionError::AdapterUnregistered),
            Some(k) => k,
        };
        let d = &self.registry[k].descriptor;
        match d.control_mode {
            ResourceControlMode::Managed => {},
            ResourceControlMode::ObserveOnly => return Err(ResourceTransitionError::ControlUnavailable),
        }
        if !has_op(&d.lifecycle_operations, operation) {
            return Err(ResourceTransitionError::OperationUnsupported);
        }
        if let Some(p) = profile_id {
            let pk = match find_profile_pos(&d.profiles, p, false) {
                None => {
                    proof { lemma_profile_pos_none(d.profiles@, p@); }
                    return Err(ResourceTransitionError::ProfileUnregistered);
                },
                Some(pk) => pk,
            };
            proof { lemma_profile_pos_bound(d.profiles@, p@); }
            let start = match operation {
                ResourceAdapterOperation::Start | ResourceAdapterOperation::Resume => true,
                _ => false,
            };
            if !allow_nonselectable_profile && start && !d.profiles[pk].coordinator_selectable {
                return Err(ResourceTransitionError::ProfileNotCoordinatorSelectable);
            }
        }
        if let Some(q) = requested_by {
            if !self.is_granted(q, adapter_id, operation) {
                return Err(ResourceTransitionError::NotAuthorized);
            }
        }
        if !self.has_controller(adapter_id) {
            return Err(ResourceTransitionError::ControllerUnavailable);
        }
        Ok(())
    }

    /// Refuses a plan or request compiled against another revision.
    pub fn ensure_expected_revision(&self, expected: Option<u64>) -> (r: Result<(), ResourceTransitionError>)
        ensures
            r is Err <==> (expected matches Some(e) && e != self.state.state_revision),
            r is Err ==> r == Err::<(), ResourceTransitionError>(ResourceTransitionError::StaleRevision),
    {
        match expected {
            Some(e) => if e != self.state.state_revision {
                Err(ResourceTransitionError::StaleRevision)
            } else {
                Ok(())
            },
            None => Ok(()),
        }
    }
}


/// A preemption candidate as plain values.
pub struct CandidateModel {
    pub adapter_id: Seq<char>,
    pub profile_id: Option<Seq<char>>,
    pub operation: ResourceAdapterOperation,
    pub restore_operation: ResourceAdapterOperation,
    pub priority: ResourcePriority,
    pub releasable_mib: u64,
    pub releasable_ram_mib: u64,
    pub releasable_cpu_threads: u16,
    pub granted_at_ms: u64,
}

impl View for AutomaticPreemptionCandidate {
    type V = CandidateModel;

    open spec fn view(&self) -> CandidateModel {
        CandidateModel {
            adapter_id: self.adapter_id@,
            profile_id: opt_view(self.profile_id),
            operation: self.operation,
            restore_operation: self.restore_operation,
            priority: self.priority,
            releasable_mib: self.releasable_mib,
            releasable_ram_mib: self.releasable_ram_mib,
            releasable_cpu_threads: self.releasable_cpu_threads,
            granted_at_ms: self.granted_at_ms,
        }
    }
}

pub open spec fn cand_views(s: Seq<AutomaticPreemptionCandidate>) -> Seq<CandidateModel> {
    s.map_values(|c: AutomaticPreemptionCandidate| c@)
}

/// Releasable GPU and RAM memory together, saturating.
pub open spec fn releasable_memory(c: CandidateModel) -> nat {
    sat(c.releasable_mib as nat, c.releasable_ram_mib as nat)
}

/// The sort key order of preemption candidates: lower priority first, then
/// more releasable memory, more releasable CPU, later grant, and adapter id.
pub open spec fn candidate_le(a: CandidateModel, b: CandidateModel) -> bool {
    let ra = priority_rank(a.priority);
    let rb = priority_rank(b.priority);
    if ra != rb {
        ra < rb
    } else if releasable_memory(a) != releasable_memory(b) {
        releasable_memory(a) > releasable_memory(b)
    } else if a.releasable_cpu_threads != b.releasable_cpu_threads {
        a.releasable_cpu_threads > b.releasable_cpu_threads
    } else if a.granted_at_ms != b.granted_at_ms {
        a.granted_at_ms > b.granted_at_ms
    } else {
        lex_le(a.adapter_id, b.adapter_id)
    }
}

pub proof fn lemma_candidate_total(a: CandidateModel, b: CandidateModel)
    ensures
        candidate_le(a, b) || candidate_le(b, a),
{
    lemma_lex_total(a.adapter_id, b.adapter_id);
}

pub proof fn lemma_candidate_trans(a: CandidateModel, b: CandidateModel, c: CandidateModel)
    requires
        candidate_le(a, b),
        candidate_le(b, c),
    ensures
        candidate_le(a, c),
{
    if priority_rank(a.priority) == priority_rank(b.priority) && priority_rank(b.priority) == priority_rank(c.priority)
        && releasable_memory(a) == releasable_memory(b) && releasable_memory(b) == releasable_memory(c)
        && a.releasable_cpu_threads == b.releasable_cpu_threads && b.releasable_cpu_threads == c.releasable_cpu_threads
        && a.granted_at_ms == b.granted_at_ms && b.granted_at_ms == c.granted_at_ms {
        lemma_lex_trans(a.adapter_id, b.adapter_id, c.adapter_id);
    }
}

fn candidate_le_exec(a: &AutomaticPreemptionCandidate, b: &AutomaticPreemptionCandidate) -> (r: bool)
    ensures
        r == candidate_le(a@, b@),
{
    let ra = priority_level(a.priority);
    let rb = priority_level(b.priority);
    let ma = a.releasable_mib.saturating_add(a.releasable_ram_mib);
    let mb = b.releasable_mib.saturating_add(b.releasable_ram_mib);
    if ra != rb {
        ra < rb
    } else if ma != mb {
        ma > mb
    } else if a.releasable_cpu_threads != b.releasable_cpu_threads {
        a.releasable_cpu_threads > b.releasable_cpu_threads
    } else if a.granted_at_ms != b.granted_at_ms {
        a.granted_at_ms > b.granted_at_ms
    } else {
        lex_le_exec(a.adapter_id.as_str(), b.adapter_id.as_str())
    }
}

/// Candidates are in key order.
pub open spec fn candidates_sorted(v: Seq<CandidateModel>) -> bool {
    forall|i: int, j: int| 0 <= i < j < v.len() ==> candidate_le(v[i], v[j])
}

/// Sorts candidates by key (insertion sort); the result is a permutation.
pub fn sort_candidates(v: Vec<AutomaticPreemptionCandidate>) -> (r: Vec<AutomaticPreemptionCandidate>)
    ensures
        candidates_sorted(cand_views(r@)),
        cand_views(r@).to_multiset() == cand_views(v@).to_multiset(),
{
    broadcast use vstd::seq_lib::group_to_multiset_ensures;
    let mut input = v;
    let ghost orig = cand_views(input@);
    let mut out: Vec<AutomaticPreemptionCandidate> = Vec::new();
    assert(cand_views(out@) =~= Seq::<CandidateModel>::empty());
    while input.len() > 0
        invariant
            candidates_sorted(cand_views(out@)),
            cand_views(out@).to_multiset().add(cand_views(input@).to_multiset()) == orig.to_multiset(),
        decreases input.len(),
    {
        let ghost before_in = cand_views(input@);
        let c = input.pop().unwrap();
        assert(before_in =~= cand_views(input@).push(c@));
        let ghost ov = cand_views(out@);
        let mut k: usize = out.len();
        while k > 0 && !candidate_le_exec(&out[k - 1], &c)
            invariant
                k <= out.len(),
                ov == cand_views(out@),
                candidates_sorted(ov),
                forall|j: int| k <= j < ov.len() ==> !candidate_le(ov[j], c@),
            decreases k,
        {
            k = k - 1;
        }
        proof {
            assert forall|j: int| k <= j < ov.len() implies candidate_le(c@, ov[j]) by {
                lemma_candidate_total(ov[j], c@);
            }
            if k > 0 {
                assert(candidate_le(ov[k - 1], c@));
            }
        }
        out.insert(k, c);
        let ghost nv = cand_views(out@);
        proof {
            assert(nv =~= ov.insert(k as int, c@));
            assert forall|i: int, j: int| 0 <= i < j < nv.len() implies candidate_le(nv[i], nv[j]) by {
                if j < k {
                    assert(nv[i] == ov[i] && nv[j] == ov[j]);
                } else if j == k {
                    assert(nv[i] == ov[i]);
                    if i < k - 1 {
                        lemma_candidate_trans(ov[i], ov[k - 1], c@);
                    }
                } else if i == k {
                    assert(nv[j] == ov[j - 1]);
                } else if i < k {
                    assert(nv[i] == ov[i] && nv[j] == ov[j - 1]);
                } else {
                    assert(nv[i] == ov[i - 1] && nv[j] == ov[j - 1]);
                }
            }
            vstd::seq_lib::to_multiset_insert(ov, k as int, c@);
            vstd::seq_lib::to_multiset_build(cand_views(input@), c@);
        }
    }
    out
}

/// A lease that automatic preemption may consider for `req`: active,
/// managed, of another adapter and of lower priority.
pub open spec fn eligible_lease(l: ResourceLeaseDiagnostic, req: ResourceAdmissionRequest) -> bool {
    &&& l.state == ResourceLeaseState::Active
    &&& l.control_mode == ResourceControlMode::Managed
    &&& l.adapter_id@ != req.adapter_id@
    &&& priority_rank(l.priority) < priority_rank(req.priority)
}

pub open spec fn max_u64(a: u64, b: u64) -> u64 {
    if a >= b { a } else { b }
}

pub open spec fn max_u16(a: u16, b: u16) -> u16 {
    if a >= b { a } else { b }
}

/// The candidate one lease contributes: its adapter declares an automatic
/// preemption with a restore operation, `req`'s adapter holds grants for
/// both, and the adapter has a controller.
pub open spec fn lease_candidate(
    reg: Seq<ResourceAdapterRegistration>,
    controllers: Seq<String>,
    grants: Seq<TransitionGrant>,
    req: ResourceAdmissionRequest,
    l: ResourceLeaseDiagnostic,
) -> Option<CandidateModel> {
    if !eligible_lease(l, req) || !registered(reg, l.adapter_id@) {
        None
    } else {
        match reg[adapter_pos(reg, l.adapter_id@)->0].descriptor.automatic_preemption {
            None => None,
            Some(op) => match restore_spec(op) {
                None => None,
                Some(rop) => {
                    if granted(grants, req.adapter_id@, l.adapter_id@, op) && granted(
                        grants,
                        req.adapter_id@,
                        l.adapter_id@,
                        rop,
                    ) && strings_contain(controllers, l.adapter_id@) {
                        Some(
                            CandidateModel {
                                adapter_id: l.adapter_id@,
                                profile_id: opt_view(l.profile_id),
                                operation: op,
                                restore_operation: rop,
                                priority: l.priority,
                                releasable_mib: max_u64(l.actual_mib, l.reservation_mib),
                                releasable_ram_mib: max_u64(l.actual_ram_mib, l.ram_reservation_mib),
                                releasable_cpu_threads: max_u16(l.actual_cpu_threads, l.cpu_thread_reservation),
                                granted_at_ms: l.granted_at_ms,
                            },
                        )
                    } else {
                        None
                    }
                },
            },
        }
    }
}

/// The candidates of all leases, in lease order.
pub open spec fn raw_candidates(
    reg: Seq<ResourceAdapterRegistration>,
    controllers: Seq<String>,
    grants: Seq<TransitionGrant>,
    req: ResourceAdmissionRequest,
    ls: Seq<ResourceLeaseDiagnostic>,
) -> Seq<CandidateModel>
    decreases ls.len(),
{
    if ls.len() == 0 {
        Seq::empty()
    } else {
        let rest = raw_candidates(reg, controllers, grants, req, ls.drop_last());
        match lease_candidate(reg, controllers, grants, req, ls.last()) {
            Some(c) => rest.push(c),
            None => rest,
        }
    }
}

/// Position of the candidate of adapter `id`.
pub open spec fn adapter_index(acc: Seq<CandidateModel>, id: Seq<char>) -> Option<int>
    decreases acc.len(),
{
    if acc.len() == 0 {
        None
    } else if acc.last().adapter_id == id {
        Some(acc.len() - 1)
    } else {
        adapter_index(acc.drop_last(), id)
    }
}

pub open spec fn sat16(a: u16, b: u16) -> u16 {
    if a + b > u16::MAX { u16::MAX } else { (a + b) as u16 }
}

/// Two candidates of one adapter as one: releasable amounts add up
/// (saturating), priority and grant time are the larger ones, the rest is
/// the first's.
pub open spec fn combine_candidates(e: CandidateModel, c: CandidateModel) -> CandidateModel {
    CandidateModel {
        adapter_id: e.adapter_id,
        profile_id: e.profile_id,
        operation: e.operation,
        restore_operation: e.restore_operation,
        priority: if priority_rank(e.priority) >= priority_rank(c.priority) { e.priority } else { c.priority },
        releasable_mib: sat(e.releasable_mib as nat, c.releasable_mib as nat) as u64,
        releasable_ram_mib: sat(e.releasable_ram_mib as nat, c.releasable_ram_mib as nat) as u64,
        releasable_cpu_threads: sat16(e.releasable_cpu_threads, c.releasable_cpu_threads),
        granted_at_ms: max_u64(e.granted_at_ms, c.granted_at_ms),
    }
}

pub open spec fn merge_one(acc: Seq<CandidateModel>, c: CandidateModel) -> Seq<CandidateModel> {
    match adapter_index(acc, c.adapter_id) {
        Some(k) => acc.update(k, combine_candidates(acc[k], c)),
        None => acc.push(c),
    }
}

/// Candidates merged per adapter, in order of first appearance.
pub open spec fn merge_candidates(cs: Seq<CandidateModel>) -> Seq<CandidateModel>
    decreases cs.len(),
{
    if cs.len() == 0 {
        Seq::empty()
    } else {
        merge_one(merge_candidates(cs.drop_last()), cs.last())
    }
}

/// An active lease of another adapter at or above `req`'s priority: then
/// no lease may be preempted for `req`.
pub open spec fn preemption_blocked(ls: Seq<ResourceLeaseDiagnostic>, req: ResourceAdmissionRequest) -> bool {
    exists|i: int|
        0 <= i < ls.len() && ls[i].state == ResourceLeaseState::Active && ls[i].adapter_id@ != req.adapter_id@
            && priority_rank(ls[i].priority) >= priority_rank(req.priority)
}

fn max_u64_exec(a: u64, b: u64) -> (r: u64)
    ensures
        r == max_u64(a, b),
{
    if a >= b { a } else { b }
}

fn max_u16_exec(a: u16, b: u16) -> (r: u16)
    ensures
        r == max_u16(a, b),
{
    if a >= b { a } else { b }
}

fn clone_candidate(c: &AutomaticPreemptionCandidate) -> (r: AutomaticPreemptionCandidate)
    ensures
        r@ == c@,
{
    AutomaticPreemptionCandidate {
        adapter_id: c.adapter_id.clone(),
        profile_id: copy_opt_string(&c.profile_id),
        operation: c.operation,
        restore_operation: c.restore_operation,
        priority: c.priority,
        releasable_mib: c.releasable_mib,
        releasable_ram_mib: c.releasable_ram_mib,
        releasable_cpu_threads: c.releasable_cpu_threads,
        granted_at_ms: c.granted_at_ms,
    }
}

/// Adds `c` to the per-adapter merge `acc`.
fn merge_into(acc: &mut Vec<AutomaticPreemptionCandidate>, c: AutomaticPreemptionCandidate)
    ensures
        cand_views(final(acc)@) == merge_one(cand_views(old(acc)@), c@),
{
    let ghost av = cand_views(acc@);
    let mut j: usize = acc.len();
    assert(av.take(j as int) =~= av);
    while j > 0
        invariant
            j <= acc.len(),
            acc@ == old(acc)@,
            av == cand_views(acc@),
            adapter_index(av, c@.adapter_id) == adapter_index(av.take(j as int), c@.adapter_id),
        decreases j,
    {
        if str_eq(acc[j - 1].adapter_id.as_str(), c.adapter_id.as_str()) {
            assert(av.take(j as int).last() == av[j - 1]);
            let e = &acc[j - 1];
            let merged = AutomaticPreemptionCandidate {
                adapter_id: e.adapter_id.clone(),
                profile_id: copy_opt_string(&e.profile_id),
                operation: e.operation,
                restore_operation: e.restore_operation,
                priority: super::model::max_priority(e.priority, c.priority),
                releasable_mib: e.releasable_mib.saturating_add(c.releasable_mib),
                releasable_ram_mib: e.releasable_ram_mib.saturating_add(c.releasable_ram_mib),
                releasable_cpu_threads: e.releasable_cpu_threads.saturating_add(c.releasable_cpu_threads),
                granted_at_ms: max_u64_exec(e.granted_at_ms, c.granted_at_ms),
            };
            assert(av.take(j as int).len() == j);
            assert(adapter_index(av, c@.adapter_id) == Some(j - 1));
            assert(merged@ == combine_candidates(av[j - 1], c@));
            acc.set(j - 1, merged);
            assert(cand_views(acc@) =~= av.update(j - 1, combine_candidates(av[j - 1], c@)));
            return;
        }
        assert(av.take(j as int).drop_last() =~= av.take(j - 1));
        j = j - 1;
    }
    acc.push(c);
    assert(cand_views(acc@) =~= av.push(c@));
}

impl ResourceCoordinator {
    /// The candidate that lease `l` contributes for `req`.
    fn lease_candidate_exec(&self, req: &ResourceAdmissionRequest, l: &ResourceLeaseDiagnostic) -> (r: Option<
        AutomaticPreemptionCandidate,
    >)
        requires
            registry_ids_unique(self.registry@),
        ensures
            match r {
                Some(c) => lease_candidate(self.registry@, self.controller_ids@, self.grants@, *req, *l) == Some(c@),
                None => lease_candidate(self.registry@, self.controller_ids@, self.grants@, *req, *l) is None,
            },
    {
        let active = match l.state {
            ResourceLeaseState::Active => true,
            ResourceLeaseState::Reserved => false,
        };
        let managed = match l.control_mode {
            ResourceControlMode::Managed => true,
            ResourceControlMode::ObserveOnly => false,
        };
        if !active || !managed || str_eq(l.adapter_id.as_str(), req.adapter_id.as_str()) || priority_level(l.priority)
            >= priority_level(req.priority) {
            return None;
        }
        let k = match self.find_adapter(l.adapter_id.as_str()) {
            None => return None,
            Some(k) => k,
        };
        let op = match self.registry[k].descriptor.automatic_preemption {
            None => return None,
            Some(op) => op,
        };
        let rop = match restore_operation_for(op) {
            None => return None,
            Some(rop) => rop,
        };
        if !self.is_granted(req.adapter_id.as_str(), l.adapter_id.as_str(), op) || !self.is_granted(
            req.adapter_id.as_str(),
            l.adapter_id.as_str(),
            rop,
        ) || !self.has_controller(l.adapter_id.as_str()) {
            return None;
        }
        Some(
            AutomaticPreemptionCandidate {
                adapter_id: l.adapter_id.clone(),
                profile_id: copy_opt_string(&l.profile_id),
                operation: op,
                restore_operation: rop,
                priority: l.priority,
                releasable_mib: max_u64_exec(l.actual_mib, l.reservation_mib),
                releasable_ram_mib: max_u64_exec(l.actual_ram_mib, l.ram_reservation_mib),
                releasable_cpu_threads: max_u16_exec(l.actual_cpu_threads, l.cpu_thread_reservation),
                granted_at_ms: l.granted_at_ms,
            },
        )
    }

    fn preemption_blocked_exec(&self, req: &ResourceAdmissionRequest) -> (r: bool)
        ensures
            r == preemption_blocked(self.state.leases@, *req),
    {
        let mut i: usize = 0;
        while i < self.state.leases.len()
            invariant
                i <= self.state.leases.len(),
                forall|j: int|
                    0 <= j < i ==> !(self.state.leases@[j].state == ResourceLeaseState::Active
                        && self.state.leases@[j].adapter_id@ != req.adapter_id@ && priority_rank(
                        self.state.leases@[j].priority,
                    ) >= priority_rank(req.priority)),
            decreases self.state.leases.len() - i,
        {
            let l = &self.state.leases[i];
            let active = match l.state {
                ResourceLeaseState::Active => true,
                ResourceLeaseState::Reserved => false,
            };
            if active && !str_eq(l.adapter_id.as_str(), req.adapter_id.as_str()) && priority_level(l.priority)
                >= priority_level(req.priority) {
                return true;
            }
            i = i + 1;
        }
        false
    }

    /// The leases that automatic preemption may yield for `req`, one
    /// candidate per adapter, in key order. Expired leases are dropped
    /// first when `req`'s adapter is registered.
    pub fn preemption_candidates(&mut self, req: &ResourceAdmissionRequest, now_ms: u64) -> (r: Vec<
        AutomaticPreemptionCandidate,
    >)
        requires
            old(self).wf(),
        ensures
            final(self).wf(),
            final(self).registry@ == old(self).registry@,
            final(self).controller_ids@ == old(self).controller_ids@,
            final(self).grants@ == old(self).grants@,
            final(self).state.state_revision == if registered(old(self).registry@, req.adapter_id@) && live_leases(
                old(self).state.leases@,
                now_ms,
            ).len() != old(self).state.leases@.len() {
                super::leases::bumped(old(self).state.state_revision)
            } else {
                old(self).state.state_revision
            },
            !registered(old(self).registry@, req.adapter_id@) ==> r@.len() == 0 && final(self).state.leases@
                == old(self).state.leases@,
            registered(old(self).registry@, req.adapter_id@) ==> final(self).state.leases@ == live_leases(
                old(self).state.leases@,
                now_ms,
            ),
            preemption_blocked(final(self).state.leases@, *req) ==> r@.len() == 0,
            registered(old(self).registry@, req.adapter_id@) && !preemption_blocked(final(self).state.leases@, *req)
                ==> candidates_sorted(cand_views(r@)) && cand_views(r@).to_multiset() == merge_candidates(
                raw_candidates(
                    final(self).registry@,
                    final(self).controller_ids@,
                    final(self).grants@,
                    *req,
                    final(self).state.leases@,
                ),
            ).to_multiset(),
    {
        if self.find_adapter(req.adapter_id.as_str()).is_none() {
            return Vec::new();
        }
        if self.state.prune_expired(now_ms) {
            self.bump();
        }
        if self.preemption_blocked_exec(req) {
            return Vec::new();
        }
        let ghost ls = self.state.leases@;
        let mut merged: Vec<AutomaticPreemptionCandidate> = Vec::new();
        let mut i: usize = 0;
        assert(ls.take(0) =~= Seq::<ResourceLeaseDiagnostic>::empty());
        assert(cand_views(merged@) =~= Seq::<CandidateModel>::empty());
        while i < self.state.leases.len()
            invariant
                i <= self.state.leases.len(),
                ls == self.state.leases@,
                self.wf(),
                cand_views(merged@) == merge_candidates(
                    raw_candidates(self.registry@, self.controller_ids@, self.grants@, *req, ls.take(i as int)),
                ),
            decreases self.state.leases.len() - i,
        {
            assert(ls.take(i + 1).drop_last() =~= ls.take(i as int));
            assert(ls.take(i + 1).last() == ls[i as int]);
            let ghost before = cand_views(merged@);
            let ghost raw_i = raw_candidates(self.registry@, self.controller_ids@, self.grants@, *req, ls.take(i as int));
            match self.lease_candidate_exec(req, &self.state.leases[i]) {
                Some(c) => {
                    assert(raw_candidates(self.registry@, self.controller_ids@, self.grants@, *req, ls.take(i + 1))
                        == raw_i.push(c@));
                    assert(raw_i.push(c@).drop_last() =~= raw_i);
                    merge_into(&mut merged, c);
                },
                None => {
                    assert(raw_candidates(self.registry@, self.controller_ids@, self.grants@, *req, ls.take(i + 1))
                        == raw_i);
                },
            }
            i = i + 1;
        }
        assert(ls.take(i as int) =~= ls);
        sort_candidates(merged)
    }
}

} // verus!
