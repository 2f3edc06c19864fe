use oclive_host::resource::admission::{
    finish_preemption, preemption_action, preemption_step, start_preemption, PreemptionAction, PreemptionEvent,
};
use oclive_host::resource::coordinator::{
    AutomaticPreemptionCandidate, ResourceAdapterDescriptor, ResourceAdapterRegistration, ResourceAdapterRegistrationSource, ResourceCoordinator,
    ResourceExecutionTarget, ResourceOperatingProfile, ResourceRegistrationError, ResourceTransitionError,
};
use oclive_host::resource::leases::ResourceCoordinationDiagnosticState;
use oclive_host::resource::model::{
    CpuSnapshot, GpuDeviceSnapshot, ResourceAdapterOperation, ResourceAdmissionDecision, ResourceAdmissionMode,
    ResourceAdmissionRequest, ResourceControlMode, ResourceCoordinatorPolicy, ResourceLeaseState, ResourcePriority,
    ResourceSnapshot, SystemMemorySnapshot,
};
use oclive_host::resource::queue::{select_queue_candidate, ResourceAdmissionQueueItem};

const NOW_MS: u64 = 1_700_000_000_000;

fn snapshot(free_mib: u64) -> ResourceSnapshot {
    ResourceSnapshot {
        captured_at_ms: 1,
        source: "test".into(),
        available: true,
        gpu_devices: vec![GpuDeviceSnapshot {
            device_index: 0,
            name: "test-gpu".into(),
            total_mib: 8192,
            free_mib,
            used_mib: 8192 - free_mib,
        }],
        system_memory: None,
        cpu: None,
        reason_codes: Vec::new(),
    }
}

fn snapshot_with_host_resources(free_mib: u64, available_ram_mib: u64, logical_cores: u16) -> ResourceSnapshot {
    let mut snapshot = snapshot(free_mib);
    snapshot.system_memory = Some(SystemMemorySnapshot {
        total_mib: 32_768,
        available_mib: available_ram_mib,
        used_mib: 32_768_u64.saturating_sub(available_ram_mib),
    });
    snapshot.cpu = Some(CpuSnapshot { logical_cores, physical_cores: Some(logical_cores / 2) });
    snapshot
}

fn request(adapter: &str, workload: &str, reservation_mib: u64) -> ResourceAdmissionRequest {
    ResourceAdmissionRequest {
        adapter_id: adapter.into(),
        workload_id: workload.into(),
        profile_id: None,
        gpu_device_index: None,
        reservation_mib,
        ram_reservation_mib: 0,
        cpu_thread_reservation: 0,
        priority: ResourcePriority::BackgroundWarmup,
        control_mode: ResourceControlMode::Managed,
        admission_mode: ResourceAdmissionMode::Enforced,
    }
}

fn registered_adapter(adapter_id: &str) -> ResourceAdapterDescriptor {
    ResourceAdapterDescriptor {
        adapter_id: adapter_id.into(),
        provider_id: Some("builtin.test".into()),
        control_mode: ResourceControlMode::Managed,
        profiles: vec![ResourceOperatingProfile {
            profile_id: "full".into(),
            quality_rank: 100,
            execution_target: ResourceExecutionTarget::Gpu,
            estimated_reservation_mib: None,
            estimated_ram_mib: None,
            estimated_cpu_threads: None,
            requires_restart: true,
            coordinator_selectable: true,
        }],
        lifecycle_operations: vec![
            ResourceAdapterOperation::Start,
            ResourceAdapterOperation::Resume,
            ResourceAdapterOperation::Suspend,
            ResourceAdapterOperation::Unload,
        ],
        automatic_preemption: Some(ResourceAdapterOperation::Suspend),
    }
}

#[test]
fn queue_aging_eventually_protects_old_resident_work() {
    let now_ms = NOW_MS;
    let queued = vec![
        ResourceAdmissionQueueItem {
            ticket_id: 1,
            adapter_id: "old".into(),
            workload_id: "old".into(),
            priority: ResourcePriority::Resident,
            enqueued_at_ms: now_ms.saturating_sub(10_000),
        },
        ResourceAdmissionQueueItem {
            ticket_id: 2,
            adapter_id: "new".into(),
            workload_id: "new".into(),
            priority: ResourcePriority::ForegroundInteractive,
            enqueued_at_ms: now_ms,
        },
    ];
    assert_eq!(select_queue_candidate(&queued, 2_000, now_ms), Some(1));
}

#[test]
fn third_party_controller_binding_requires_the_registered_owner() {
    let mut coordinator = ResourceCoordinator::new(ResourceCoordinatorPolicy::default());
    let mut render = registered_adapter("com.example.live2d.render");
    render.provider_id = Some("com.example.live2d".into());
    coordinator
        .register_third_party_adapter(ResourceAdapterRegistration {
            source: ResourceAdapterRegistrationSource::HostExtension,
            source_id: "com.example.live2d".into(),
            descriptor: render,
        })
        .unwrap();
    let error = coordinator
        .register_third_party_adapter_controller("com.other", "com.example.live2d.render")
        .unwrap_err();
    assert!(error.message("com.example.live2d.render", "com.other").contains("is not owned"));
    coordinator
        .register_third_party_adapter_controller("com.example.live2d", "com.example.live2d.render")
        .unwrap();
}

#[test]
fn pending_reservations_count_against_the_next_admission() {
    let mut coordinator = ResourceCoordinator::new(ResourceCoordinatorPolicy {
        gpu_safety_reserve_mib: 768,
        ..ResourceCoordinatorPolicy::default()
    });
    let first = coordinator.admit_once(request("voice", "a", 1500), snapshot(3000), NOW_MS);
    assert_eq!(first.decision, ResourceAdmissionDecision::Granted);
    let second = coordinator.admit_once(request("llm", "b", 1500), snapshot(3000), NOW_MS);
    assert_eq!(second.decision, ResourceAdmissionDecision::Denied);
    assert_eq!(second.reason_codes, vec!["insufficient_gpu_headroom"]);
}

#[test]
fn repeated_admission_reuses_the_live_lease_until_released() {
    let mut coordinator = ResourceCoordinator::new(ResourceCoordinatorPolicy::default());
    let first = coordinator.admit_once(request("voice", "cosy", 1792), snapshot(6000), NOW_MS);
    let lease = first.lease.expect("lease");
    assert!(coordinator.state.has_adapter_lease("voice", NOW_MS));
    assert!(!coordinator.state.has_active_adapter("voice", NOW_MS));
    assert!(coordinator.state.activate(&lease.lease_id, Some(1400), NOW_MS));
    assert!(coordinator.state.has_active_adapter("voice", NOW_MS));
    assert_eq!(coordinator.state.record_adapter_reason("voice", "resource_release_unconfirmed"), 1);
    assert_eq!(coordinator.state.record_adapter_reason("voice", "resource_release_unconfirmed"), 0);
    let reused = coordinator.admit_once(request("voice", "cosy", 1792), snapshot(6000), NOW_MS + 10);
    assert_eq!(reused.decision, ResourceAdmissionDecision::Reused);
    let reused_lease = reused.lease.expect("reused lease");
    assert_eq!(reused_lease.lease_id, lease.lease_id);
    assert_eq!(reused_lease.state, ResourceLeaseState::Active);
    assert_eq!(reused_lease.expires_at_ms, None);
    assert_eq!(reused_lease.reason_codes, vec!["resource_release_unconfirmed"]);
    assert!(coordinator.state.release(&lease.lease_id));
    assert!(!coordinator.state.has_adapter_lease("voice", NOW_MS));
    assert!(coordinator.state.diagnostics().leases.is_empty());
}

#[test]
fn changed_budget_is_granted_a_new_lease() {
    let mut coordinator = ResourceCoordinator::new(ResourceCoordinatorPolicy::default());
    let host = || snapshot_with_host_resources(8_000, 16_000, 16);
    let mut first_request = request("render", "live2d", 512);
    first_request.ram_reservation_mib = 1_024;
    first_request.cpu_thread_reservation = 2;
    let first = coordinator.admit_once(first_request, host(), NOW_MS);
    assert_eq!(first.decision, ResourceAdmissionDecision::Granted);
    let first_lease_id = first.lease.expect("first lease").lease_id;
    let mut larger_request = request("render", "live2d", 768);
    larger_request.ram_reservation_mib = 2_048;
    larger_request.cpu_thread_reservation = 4;
    larger_request.priority = ResourcePriority::ForegroundMedia;
    let second = coordinator.admit_once(larger_request, host(), NOW_MS);
    assert_eq!(second.decision, ResourceAdmissionDecision::Granted);
    assert_ne!(second.lease.expect("second lease").lease_id, first_lease_id);
    assert_eq!(coordinator.state.diagnostics().leases.len(), 2);
}

#[test]
fn unavailable_snapshot_follows_the_unverified_policy() {
    let mut permissive = ResourceCoordinator::new(ResourceCoordinatorPolicy::default());
    let granted = permissive.admit_once(
        request("voice", "cosy", 1792),
        ResourceSnapshot::unavailable("test", "telemetry_missing"),
        NOW_MS,
    );
    assert_eq!(granted.decision, ResourceAdmissionDecision::GrantedUnverified);
    let mut strict = ResourceCoordinator::new(ResourceCoordinatorPolicy {
        allow_unverified_admission: false,
        ..ResourceCoordinatorPolicy::default()
    });
    let denied = strict.admit_once(
        request("voice", "cosy", 1792),
        ResourceSnapshot::unavailable("test", "telemetry_missing"),
        NOW_MS,
    );
    assert_eq!(denied.decision, ResourceAdmissionDecision::Denied);
}

#[test]
fn ram_and_cpu_are_checked_on_their_own() {
    let mut coordinator = ResourceCoordinator::new(ResourceCoordinatorPolicy::default());
    let host = || snapshot_with_host_resources(6000, 2000, 8);
    let mut ram_heavy = request("render", "ram", 0);
    ram_heavy.ram_reservation_mib = 1_100;
    let denied_ram = coordinator.admit_once(ram_heavy, host(), NOW_MS);
    assert_eq!(denied_ram.decision, ResourceAdmissionDecision::Denied);
    assert_eq!(denied_ram.reason_codes, vec!["insufficient_system_memory_headroom"]);
    let mut cpu_heavy = request("render", "cpu", 0);
    cpu_heavy.cpu_thread_reservation = 8;
    let denied_cpu = coordinator.admit_once(cpu_heavy, host(), NOW_MS);
    assert_eq!(denied_cpu.decision, ResourceAdmissionDecision::Denied);
    assert_eq!(denied_cpu.reason_codes, vec!["insufficient_cpu_thread_headroom"]);
    let mut compatible = request("render", "compatible", 0);
    compatible.ram_reservation_mib = 512;
    compatible.cpu_thread_reservation = 2;
    assert_eq!(coordinator.admit_once(compatible, host(), NOW_MS).decision, ResourceAdmissionDecision::Granted);
}

#[test]
fn critical_gpu_pressure_blocks_with_a_stable_code() {
    let mut coordinator = ResourceCoordinator::new(ResourceCoordinatorPolicy::default());
    coordinator.state.refresh(snapshot(500), NOW_MS, None);
    let diagnostics = coordinator.state.diagnostics();
    assert_eq!(diagnostics.state, ResourceCoordinationDiagnosticState::Blocked);
    assert_eq!(diagnostics.reason_codes, vec!["gpu_headroom_critical"]);
}

#[test]
fn aging_lifts_a_waiter_one_level_per_quantum() {
    let item = |ticket_id: u64, priority: ResourcePriority, enqueued_at_ms: u64| ResourceAdmissionQueueItem {
        ticket_id,
        adapter_id: format!("a{ticket_id}"),
        workload_id: "w".into(),
        priority,
        enqueued_at_ms,
    };
    let queued = vec![
        item(1, ResourcePriority::Resident, NOW_MS - 3_000),
        item(2, ResourcePriority::ForegroundMedia, NOW_MS),
    ];
    // After one quantum the resident waiter is at the warmup level only.
    assert_eq!(select_queue_candidate(&queued, 2_000, NOW_MS), Some(2));
    // After three quanta it is at the top level and older.
    assert_eq!(select_queue_candidate(&queued, 1_000, NOW_MS), Some(1));
    assert_eq!(select_queue_candidate(&Vec::new(), 1_000, NOW_MS), None);
}

#[test]
fn preemption_offers_lower_priority_leases_once_per_adapter() {
    let mut coordinator = ResourceCoordinator::new(ResourceCoordinatorPolicy::default());
    coordinator.register_adapter(registered_adapter("builtin.llm.test")).unwrap();
    coordinator.register_adapter(registered_adapter("com.example.render")).unwrap();
    coordinator.register_adapter_controller("builtin.llm.test").unwrap();
    coordinator
        .register_adapter_transition_grant(
            "com.example.render",
            "builtin.llm.test",
            vec![ResourceAdapterOperation::Suspend, ResourceAdapterOperation::Resume],
        )
        .unwrap();
    let mut resident = request("builtin.llm.test", "chat", 1000);
    resident.priority = ResourcePriority::Resident;
    let mut second = request("builtin.llm.test", "embed", 500);
    second.priority = ResourcePriority::Resident;
    for req in [resident, second] {
        let admitted = coordinator.admit_once(req, snapshot(7000), NOW_MS);
        assert_eq!(admitted.decision, ResourceAdmissionDecision::Granted);
        assert!(coordinator.state.activate(&admitted.lease.expect("lease").lease_id, None, NOW_MS));
    }
    let mut render = request("com.example.render", "live2d", 2500);
    render.priority = ResourcePriority::ForegroundMedia;
    let candidates = coordinator.preemption_candidates(&render, NOW_MS);
    assert_eq!(candidates.len(), 1);
    assert_eq!(candidates[0].adapter_id, "builtin.llm.test");
    assert_eq!(candidates[0].operation, ResourceAdapterOperation::Suspend);
    assert_eq!(candidates[0].restore_operation, ResourceAdapterOperation::Resume);
    assert_eq!(candidates[0].releasable_mib, 1500);
    let mut background = request("com.example.render", "live2d", 2500);
    background.priority = ResourcePriority::Resident;
    assert!(coordinator.preemption_candidates(&background, NOW_MS).is_empty());
}

#[test]
fn transition_checks_report_stable_codes() {
    let mut coordinator = ResourceCoordinator::new(ResourceCoordinatorPolicy::default());
    coordinator.register_adapter(registered_adapter("builtin.llm.test")).unwrap();
    assert_eq!(
        coordinator.validate_transition(" bad", ResourceAdapterOperation::Start, None, None, false),
        Err(ResourceTransitionError::AdapterIdInvalid)
    );
    assert_eq!(
        coordinator.validate_transition("builtin.llm.test", ResourceAdapterOperation::Start, Some("lite"), None, false),
        Err(ResourceTransitionError::ProfileUnregistered)
    );
    assert_eq!(
        coordinator.validate_transition("builtin.llm.test", ResourceAdapterOperation::Start, Some("full"), None, false),
        Err(ResourceTransitionError::ControllerUnavailable)
    );
    coordinator.register_adapter_controller("builtin.llm.test").unwrap();
    assert_eq!(
        coordinator.validate_transition("builtin.llm.test", ResourceAdapterOperation::Start, Some("full"), None, false),
        Ok(())
    );
    assert_eq!(
        ResourceTransitionError::ProfileUnregistered.code(),
        "resource_profile_unregistered"
    );
    assert_eq!(
        ResourceRegistrationError::ControllerNotOwned.message("x", "y"),
        "resource adapter controller x is not owned by y"
    );
}

#[test]
fn diagnostics_list_leases_by_lease_id() {
    let mut coordinator = ResourceCoordinator::new(ResourceCoordinatorPolicy::default());
    for n in 0..11 {
        let workload = format!("w{n}");
        let adapter = format!("a{n}");
        let result = coordinator.admit_once(request(&adapter, &workload, 10), snapshot(6000), NOW_MS);
        assert!(result.lease.is_some());
    }
    let ids: Vec<String> = coordinator.diagnostics_snapshot(NOW_MS).leases.iter().map(|l| l.lease_id.clone()).collect();
    assert_eq!(ids.len(), 11);
    assert_eq!(ids[0], "resource-lease-1");
    assert_eq!(ids[1], "resource-lease-10");
    assert_eq!(ids[2], "resource-lease-11");
    assert_eq!(ids[3], "resource-lease-2");
    let mut sorted = ids.clone();
    sorted.sort();
    assert_eq!(ids, sorted);
}

fn candidate(adapter: &str) -> AutomaticPreemptionCandidate {
    AutomaticPreemptionCandidate {
        adapter_id: adapter.into(),
        profile_id: Some("full".into()),
        operation: ResourceAdapterOperation::Suspend,
        restore_operation: ResourceAdapterOperation::Resume,
        priority: ResourcePriority::BackgroundWarmup,
        releasable_mib: 100,
        releasable_ram_mib: 0,
        releasable_cpu_threads: 0,
        granted_at_ms: NOW_MS,
    }
}

#[test]
fn preemption_round_restores_when_admission_still_fails() {
    let coordinator = ResourceCoordinator::new(ResourceCoordinatorPolicy::default());
    let denied = coordinator.queue_timeout_result();
    let round = start_preemption("voice", vec![candidate("a"), candidate("b")], denied);
    let PreemptionAction::Yield(first) = preemption_action(&round) else { panic!("expected a yield") };
    assert_eq!(first.adapter_id, "a");
    assert_eq!(first.requested_by_adapter_id, "voice");
    assert_eq!(first.operation, ResourceAdapterOperation::Suspend);
    assert_eq!(first.reason.as_deref(), Some("higher-priority resource admission"));
    let round = preemption_step(round, PreemptionEvent::YieldFailed);
    let PreemptionAction::Yield(second) = preemption_action(&round) else { panic!("expected a yield") };
    assert_eq!(second.adapter_id, "b");
    let round = preemption_step(round, PreemptionEvent::Yielded(coordinator.queue_timeout_result()));
    let PreemptionAction::Restore(restores) = preemption_action(&round) else { panic!("expected restores") };
    assert_eq!(restores.len(), 1);
    assert_eq!(restores[0].adapter_id, "b");
    assert_eq!(restores[0].operation, ResourceAdapterOperation::Resume);
    assert_eq!(restores[0].reason.as_deref(), Some("preempting resource workload released"));
    let result = finish_preemption(round, true, 7);
    assert_eq!(result.decision, ResourceAdmissionDecision::Denied);
    assert_eq!(result.queue_wait_ms, 7);
    assert_eq!(result.preempted_adapters.len(), 1);
    assert_eq!(
        result.reason_codes,
        vec![
            "resource_admission_queue_timeout",
            "resource_preemption_rollback_failed",
            "resource_preemption_failed"
        ]
    );
}

#[test]
fn preemption_round_stops_once_admitted() {
    let mut coordinator = ResourceCoordinator::new(ResourceCoordinatorPolicy::default());
    let denied = coordinator.queue_timeout_result();
    let round = start_preemption("voice", vec![candidate("a"), candidate("b")], denied);
    assert!(matches!(preemption_action(&round), PreemptionAction::Yield(_)));
    let admitted = coordinator.admit_once(request("voice", "cosy", 10), snapshot(6000), NOW_MS);
    assert_ne!(admitted.decision, ResourceAdmissionDecision::Denied);
    let round = preemption_step(round, PreemptionEvent::Yielded(admitted));
    assert!(matches!(preemption_action(&round), PreemptionAction::Done));
    let result = finish_preemption(round, false, 0);
    assert_eq!(result.preempted_adapters.len(), 1);
    assert_eq!(result.preempted_adapters[0].adapter_id, "a");
    assert!(result.lease.is_some());
}

#[test]
fn diagnostics_show_the_admission_queue() {
    let mut coordinator = ResourceCoordinator::new(ResourceCoordinatorPolicy::default());
    let t = coordinator.admission_queue.enqueue("voice".into(), "cosy".into(), ResourcePriority::ForegroundMedia, NOW_MS);
    let d = coordinator.diagnostics_snapshot(NOW_MS);
    assert_eq!(d.admission_queue.active_ticket_id, None);
    assert_eq!(d.admission_queue.queued.len(), 1);
    assert_eq!(d.admission_queue.queued[0].ticket_id, t);
    assert_eq!(d.admission_queue.queued[0].adapter_id, "voice");
    assert!(coordinator.admission_queue.try_acquire(t, 5_000, NOW_MS));
    assert_eq!(coordinator.diagnostics_snapshot(NOW_MS).admission_queue.active_ticket_id, Some(t));
}
