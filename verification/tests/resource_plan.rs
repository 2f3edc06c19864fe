use oclive_host::resource::compile::{
    compile_resource_candidate_plan, CompileResourceCandidatePlanInput, ResourceCandidatePlan,
    ResourceCandidatePlanState,
};
use oclive_host::resource::coordinator::{
    ResourceAdapterDescriptor, ResourceAdapterRegistrationSource, ResourceExecutionTarget, ResourceOperatingProfile,
};
use oclive_host::resource::model::{
    CpuSnapshot, GpuDeviceSnapshot, ResourceAdapterOperation, ResourceControlMode, ResourceCoordinatorPolicy,
    ResourceLeaseDiagnostic, ResourceLeaseState, ResourcePriority, ResourceSnapshot, SystemMemorySnapshot,
};
use oclive_host::resource::plan::{
    ResourceAdapterDiagnostic, ResourceCandidateTransition, ResourceAdapterRuntimeState, ResourceProfileSelectionSource,
    ResourceResidencyPreference, ResourceSchedulingCommand, ResourceSchedulingIntent,
    ResourceSchedulingIntentDiagnostics, ResourceSchedulingIntentState, ResourceSchedulingStrategy,
};
use oclive_host::resource::execution::{
    check_candidate_plan, plan_execution_action, plan_execution_step, plan_failure_message, plan_rollback_steps,
    plan_step_reason, plan_step_requester, rollback_unavailable_error, start_plan_execution, CompletedStep,
    PlanExecutionAction, PlanStepEvent, ResourcePlanExecutionError,
};
use oclive_host::resource::plan_id::{candidate_plan_id, candidate_plan_payload};
use sha2::Digest;

fn profile(profile_id: &str, quality_rank: u16, estimate: Option<u64>, selectable: bool) -> ResourceOperatingProfile {
    ResourceOperatingProfile {
        profile_id: profile_id.into(),
        quality_rank,
        execution_target: ResourceExecutionTarget::Gpu,
        estimated_reservation_mib: estimate,
        estimated_ram_mib: None,
        estimated_cpu_threads: None,
        requires_restart: true,
        coordinator_selectable: selectable,
    }
}

fn adapter(
    adapter_id: &str,
    profiles: Vec<ResourceOperatingProfile>,
    runtime_state: ResourceAdapterRuntimeState,
    current_profile_id: Option<&str>,
) -> ResourceAdapterDiagnostic {
    ResourceAdapterDiagnostic {
        descriptor: ResourceAdapterDescriptor {
            adapter_id: adapter_id.into(),
            provider_id: Some("test".into()),
            control_mode: ResourceControlMode::Managed,
            profiles,
            lifecycle_operations: vec![
                ResourceAdapterOperation::Start,
                ResourceAdapterOperation::Resume,
                ResourceAdapterOperation::Suspend,
            ],
            automatic_preemption: Some(ResourceAdapterOperation::Suspend),
        },
        registration_source: ResourceAdapterRegistrationSource::Builtin,
        registration_source_id: "host".into(),
        runtime_state,
        current_profile_id: current_profile_id.map(str::to_string),
        lease_ids: Vec::new(),
        reason_codes: Vec::new(),
    }
}

fn snapshot(free_mib: u64) -> ResourceSnapshot {
    ResourceSnapshot {
        captured_at_ms: 1,
        source: "test".into(),
        available: true,
        gpu_devices: vec![GpuDeviceSnapshot {
            device_index: 0,
            name: "test".into(),
            total_mib: 8192,
            free_mib,
            used_mib: 8192_u64.saturating_sub(free_mib),
        }],
        system_memory: None,
        cpu: None,
        reason_codes: Vec::new(),
    }
}

fn snapshot_with_host_resources(free_mib: u64, available_ram_mib: u64, logical_cores: u16) -> ResourceSnapshot {
    let mut snapshot = snapshot(free_mib);
    snapshot.system_memory = Some(SystemMemorySnapshot {
        total_mib: 16_384,
        available_mib: available_ram_mib,
        used_mib: 16_384_u64.saturating_sub(available_ram_mib),
    });
    snapshot.cpu = Some(CpuSnapshot { logical_cores, physical_cores: Some(logical_cores / 2) });
    snapshot
}

fn lease(adapter_id: &str, actual_mib: u64) -> ResourceLeaseDiagnostic {
    ResourceLeaseDiagnostic {
        lease_id: format!("{adapter_id}-lease"),
        adapter_id: adapter_id.into(),
        workload_id: "test".into(),
        profile_id: Some("full".into()),
        gpu_device_index: Some(0),
        reservation_mib: actual_mib,
        actual_mib,
        ram_reservation_mib: 0,
        actual_ram_mib: 0,
        cpu_thread_reservation: 0,
        actual_cpu_threads: 0,
        priority: ResourcePriority::Resident,
        control_mode: ResourceControlMode::Managed,
        state: ResourceLeaseState::Active,
        granted_at_ms: 1,
        expires_at_ms: None,
        reason_codes: Vec::new(),
    }
}

fn ready_scheduling(intent: ResourceSchedulingIntent) -> ResourceSchedulingIntentDiagnostics {
    ResourceSchedulingIntentDiagnostics {
        state: ResourceSchedulingIntentState::Ready,
        intent,
        reason_codes: Vec::new(),
    }
}

fn compile(
    state_revision: u64,
    snapshot: ResourceSnapshot,
    adapters: Vec<ResourceAdapterDiagnostic>,
    leases: Vec<ResourceLeaseDiagnostic>,
    scheduling: ResourceSchedulingIntentDiagnostics,
    controllers: &[&str],
) -> ResourceCandidatePlan {
    compile_resource_candidate_plan(&CompileResourceCandidatePlanInput {
        state_revision,
        policy: ResourceCoordinatorPolicy::default(),
        snapshot,
        gpu_device_index: Some(0),
        adapters,
        leases,
        scheduling,
        controller_ids: controllers.iter().map(|c| c.to_string()).collect(),
    })
}

#[test]
fn fallback_order_selects_first_controllable_profile() {
    let adapters = vec![adapter(
        "llm",
        vec![
            profile("full", 100, Some(4096), false),
            profile("balanced", 80, Some(3072), true),
            profile("economy", 50, Some(2048), true),
        ],
        ResourceAdapterRuntimeState::Inactive,
        None,
    )];
    let scheduling = ResourceSchedulingIntentDiagnostics {
        state: ResourceSchedulingIntentState::Degraded,
        intent: ResourceSchedulingIntent {
            strategy: ResourceSchedulingStrategy::Custom,
            primary_adapter_id: None,
            commands: vec![ResourceSchedulingCommand::Fallback {
                adapter_id: "llm".into(),
                profile_ids: vec!["full".into(), "economy".into(), "balanced".into()],
            }],
        },
        reason_codes: vec!["resource_profile_not_coordinator_selectable".into()],
    };
    let plan = compile(7, snapshot(7000), adapters, vec![], scheduling, &["llm"]);
    assert_eq!(plan.state, ResourceCandidatePlanState::Degraded);
    assert_eq!(plan.selections[0].profile_id, "economy");
    assert_eq!(plan.selections[0].source, ResourceProfileSelectionSource::Fallback);
    assert!(plan
        .reason_codes
        .iter()
        .any(|reason| reason == "resource_profile_not_coordinator_selectable"));
}

#[test]
fn yield_then_run_accounts_for_confirmed_residency_release() {
    let adapters = vec![
        adapter(
            "llm",
            vec![profile("full", 100, Some(4096), true)],
            ResourceAdapterRuntimeState::Active,
            Some("full"),
        ),
        adapter(
            "voice",
            vec![profile("full", 100, Some(1536), true)],
            ResourceAdapterRuntimeState::Inactive,
            None,
        ),
    ];
    let scheduling = ready_scheduling(ResourceSchedulingIntent {
        strategy: ResourceSchedulingStrategy::Custom,
        primary_adapter_id: None,
        commands: vec![ResourceSchedulingCommand::YieldThenRun {
            yielding_adapter_id: "llm".into(),
            target_adapter_id: "voice".into(),
        }],
    });
    let leases = vec![lease("llm", 4096)];
    let plan = compile(11, snapshot(512), adapters, leases, scheduling, &["llm", "voice"]);
    assert_eq!(plan.state, ResourceCandidatePlanState::Ready);
    assert!(plan.executable);
    assert_eq!(plan.transitions.len(), 2);
    assert_eq!(plan.transitions[0].operation, ResourceAdapterOperation::Suspend);
    assert_eq!(plan.transitions[1].operation, ResourceAdapterOperation::Start);
}

#[test]
fn missing_controller_degrades_preview_without_claiming_execution() {
    let adapters = vec![adapter(
        "llm",
        vec![profile("full", 100, Some(4096), true)],
        ResourceAdapterRuntimeState::Inactive,
        None,
    )];
    let scheduling = ready_scheduling(ResourceSchedulingIntent {
        strategy: ResourceSchedulingStrategy::PrimaryFirst,
        primary_adapter_id: Some("llm".into()),
        commands: Vec::new(),
    });
    let plan = compile(2, snapshot(7000), adapters, vec![], scheduling, &[]);
    assert_eq!(plan.state, ResourceCandidatePlanState::Degraded);
    assert!(!plan.executable);
    assert!(plan
        .reason_codes
        .iter()
        .any(|reason| reason == "resource_plan_controller_unavailable"));
}

#[test]
fn insufficient_capacity_blocks_candidate_before_execution() {
    let adapters = vec![adapter(
        "voice",
        vec![profile("full", 100, Some(1536), true)],
        ResourceAdapterRuntimeState::Inactive,
        None,
    )];
    let scheduling = ready_scheduling(ResourceSchedulingIntent {
        strategy: ResourceSchedulingStrategy::Custom,
        primary_adapter_id: None,
        commands: vec![ResourceSchedulingCommand::Residency {
            adapter_id: "voice".into(),
            mode: ResourceResidencyPreference::Resident,
        }],
    });
    let plan = compile(3, snapshot(1000), adapters, vec![], scheduling, &["voice"]);
    assert_eq!(plan.state, ResourceCandidatePlanState::Blocked);
    assert!(!plan.executable);
    assert!(plan
        .reason_codes
        .iter()
        .any(|reason| reason == "resource_plan_insufficient_gpu_headroom"));
}

#[test]
fn render_hybrid_profile_is_checked_against_ram_and_cpu_capacity() {
    let mut render_profile = profile("gpu_full", 100, Some(512), true);
    render_profile.execution_target = ResourceExecutionTarget::Hybrid;
    render_profile.estimated_ram_mib = Some(2_000);
    render_profile.estimated_cpu_threads = Some(2);
    let render = adapter(
        "com.example.live2d.render",
        vec![render_profile],
        ResourceAdapterRuntimeState::Inactive,
        None,
    );
    let adapters = vec![render];
    let intent = ResourceSchedulingIntent {
        strategy: ResourceSchedulingStrategy::LatencyFirst,
        primary_adapter_id: None,
        commands: vec![ResourceSchedulingCommand::Residency {
            adapter_id: "com.example.live2d.render".into(),
            mode: ResourceResidencyPreference::Resident,
        }],
    };
    let snapshot = snapshot_with_host_resources(6_000, 2_500, 8);
    let scheduling = ready_scheduling(intent);
    let plan = compile(1, snapshot, adapters, vec![], scheduling, &["com.example.live2d.render"]);
    assert_eq!(plan.state, ResourceCandidatePlanState::Blocked);
    assert!(plan
        .reason_codes
        .iter()
        .any(|reason| reason == "resource_plan_insufficient_system_memory_headroom"));
    assert_eq!(plan.selections[0].estimated_ram_mib, Some(2_000));
    assert_eq!(plan.selections[0].estimated_cpu_threads, Some(2));
}

#[test]
fn current_nonselectable_profile_is_preserved_for_compatibility() {
    let adapters = vec![adapter(
        "external",
        vec![profile("current", 100, None, false)],
        ResourceAdapterRuntimeState::Active,
        Some("current"),
    )];
    let scheduling = ready_scheduling(ResourceSchedulingIntent::default());
    let plan = compile(4, snapshot(5000), adapters, vec![], scheduling, &[]);
    assert_eq!(plan.state, ResourceCandidatePlanState::Ready);
    assert!(plan.executable);
    assert_eq!(plan.transitions.len(), 0);
    assert_eq!(plan.selections[0].source, ResourceProfileSelectionSource::Current);
}

#[test]
fn inactive_adapter_without_selectable_profile_never_claims_executable_start() {
    let adapters = vec![adapter(
        "external",
        vec![profile("observed", 100, Some(4096), false)],
        ResourceAdapterRuntimeState::Inactive,
        None,
    )];
    let scheduling = ready_scheduling(ResourceSchedulingIntent {
        strategy: ResourceSchedulingStrategy::PrimaryFirst,
        primary_adapter_id: Some("external".into()),
        commands: Vec::new(),
    });
    let plan = compile(5, snapshot(7000), adapters, vec![], scheduling, &["external"]);
    assert_eq!(plan.state, ResourceCandidatePlanState::Degraded);
    assert!(!plan.executable);
    assert!(plan.transitions.is_empty());
    assert!(plan
        .reason_codes
        .iter()
        .any(|reason| reason == "resource_plan_no_selectable_profile"));
}

#[test]
fn inactive_adapter_without_start_lifecycle_never_claims_executable_plan() {
    let mut unavailable = adapter(
        "render",
        vec![profile("configured", 100, Some(512), true)],
        ResourceAdapterRuntimeState::Inactive,
        None,
    );
    unavailable.descriptor.lifecycle_operations = vec![ResourceAdapterOperation::Observe];
    unavailable.descriptor.automatic_preemption = None;
    let adapters = vec![unavailable];
    let scheduling = ready_scheduling(ResourceSchedulingIntent {
        strategy: ResourceSchedulingStrategy::PrimaryFirst,
        primary_adapter_id: Some("render".into()),
        commands: Vec::new(),
    });
    let plan = compile(6, snapshot(7_000), adapters, vec![], scheduling, &["render"]);
    assert_eq!(plan.state, ResourceCandidatePlanState::Degraded);
    assert!(!plan.executable);
    assert!(plan.transitions.is_empty());
    assert!(plan
        .reason_codes
        .iter()
        .any(|reason| reason == "resource_plan_start_unavailable"));
}

#[test]
fn plan_reasons_are_sorted_and_unique() {
    let adapters = vec![adapter(
        "voice",
        vec![profile("full", 100, Some(1536), true)],
        ResourceAdapterRuntimeState::Inactive,
        None,
    )];
    let scheduling = ResourceSchedulingIntentDiagnostics {
        state: ResourceSchedulingIntentState::Blocked,
        intent: ResourceSchedulingIntent {
            strategy: ResourceSchedulingStrategy::PrimaryFirst,
            primary_adapter_id: Some("voice".into()),
            commands: Vec::new(),
        },
        reason_codes: vec!["zeta".into(), "alpha".into(), "zeta".into()],
    };
    let plan = compile(9, snapshot(1000), adapters, vec![], scheduling, &[]);
    assert_eq!(plan.state, ResourceCandidatePlanState::Blocked);
    assert!(!plan.executable);
    assert_eq!(
        plan.reason_codes,
        vec![
            "alpha".to_string(),
            "resource_plan_controller_unavailable".to_string(),
            "resource_plan_insufficient_gpu_headroom".to_string(),
            "zeta".to_string(),
        ]
    );
}

#[test]
fn exclusive_group_keeps_primary_and_yields_the_rest_once() {
    let adapters = vec![
        adapter("a", vec![profile("full", 100, Some(100), true)], ResourceAdapterRuntimeState::Active, Some("full")),
        adapter("b", vec![profile("full", 100, Some(100), true)], ResourceAdapterRuntimeState::Active, Some("full")),
        adapter("c", vec![profile("full", 100, Some(100), true)], ResourceAdapterRuntimeState::Reserved, Some("full")),
    ];
    let scheduling = ready_scheduling(ResourceSchedulingIntent {
        strategy: ResourceSchedulingStrategy::Custom,
        primary_adapter_id: Some("b".into()),
        commands: vec![
            ResourceSchedulingCommand::Exclusive { adapter_ids: vec!["a".into(), "b".into(), "c".into()] },
            ResourceSchedulingCommand::Exclusive { adapter_ids: vec!["c".into(), "b".into()] },
        ],
    });
    let plan = compile(8, snapshot(7000), adapters, vec![], scheduling, &["a", "b", "c"]);
    let steps: Vec<(String, ResourceAdapterOperation, Option<String>)> = plan
        .transitions
        .iter()
        .map(|t| (t.adapter_id.clone(), t.operation, t.requested_by_adapter_id.clone()))
        .collect();
    assert_eq!(
        steps,
        vec![
            ("a".to_string(), ResourceAdapterOperation::Suspend, Some("b".to_string())),
            ("c".to_string(), ResourceAdapterOperation::Suspend, Some("b".to_string())),
        ]
    );
    assert_eq!(plan.state, ResourceCandidatePlanState::Ready);
    assert!(plan.executable);
}

#[test]
fn plan_id_is_the_digest_of_the_compiled_payload() {
    let adapters = vec![adapter(
        "llm",
        vec![profile("full", 100, Some(4096), true)],
        ResourceAdapterRuntimeState::Inactive,
        None,
    )];
    let intent = ResourceSchedulingIntent {
        strategy: ResourceSchedulingStrategy::PrimaryFirst,
        primary_adapter_id: Some("llm".into()),
        commands: Vec::new(),
    };
    let plan = compile(
        7,
        snapshot(7000),
        adapters,
        vec![],
        ready_scheduling(ResourceSchedulingIntent {
            strategy: ResourceSchedulingStrategy::PrimaryFirst,
            primary_adapter_id: Some("llm".into()),
            commands: Vec::new(),
        }),
        &["llm"],
    );
    let payload = candidate_plan_payload(7, &intent, &plan.selections, &plan.transitions);
    assert_eq!(&payload[..8], &7u64.to_le_bytes());
    let digest = sha2::Sha256::digest(&payload);
    let hex: String = digest.iter().take(8).map(|b| format!("{b:02x}")).collect();
    assert_eq!(plan.plan_id, format!("resource-plan-{hex}"));
    assert_eq!(plan.plan_id, candidate_plan_id(7, &intent, &plan.selections, &plan.transitions));
    assert_ne!(plan.plan_id, candidate_plan_id(8, &intent, &plan.selections, &plan.transitions));
    assert_eq!(plan.plan_id.len(), "resource-plan-".len() + 16);
    assert_ne!(plan.plan_id, "resource-plan-0700000000000000");
}

#[test]
fn selections_follow_adapter_id_order_and_ready_plans_carry_no_reasons() {
    let adapters = vec![
        adapter("zeta", vec![profile("full", 100, None, false)], ResourceAdapterRuntimeState::Active, Some("full")),
        adapter("alpha", vec![profile("full", 100, None, false)], ResourceAdapterRuntimeState::Active, Some("full")),
        adapter("mid", vec![profile("full", 100, None, false)], ResourceAdapterRuntimeState::Active, Some("full")),
    ];
    let plan = compile(12, snapshot(7000), adapters, vec![], ready_scheduling(ResourceSchedulingIntent::default()), &[]);
    let ids: Vec<&str> = plan.selections.iter().map(|s| s.adapter_id.as_str()).collect();
    assert_eq!(ids, vec!["alpha", "mid", "zeta"]);
    assert_eq!(plan.state, ResourceCandidatePlanState::Ready);
    assert!(plan.reason_codes.is_empty());
    assert!(plan.executable);
    assert_eq!(plan.compiled_from_revision, 12);
}

fn two_resident_plan(revision: u64) -> ResourceCandidatePlan {
    let adapters = vec![
        adapter("first", vec![profile("full", 100, Some(512), true)], ResourceAdapterRuntimeState::Inactive, None),
        adapter("second", vec![profile("full", 100, Some(512), true)], ResourceAdapterRuntimeState::Inactive, None),
    ];
    let scheduling = ready_scheduling(ResourceSchedulingIntent {
        strategy: ResourceSchedulingStrategy::Custom,
        primary_adapter_id: None,
        commands: ["first", "second"]
            .into_iter()
            .map(|adapter_id| ResourceSchedulingCommand::Residency {
                adapter_id: adapter_id.into(),
                mode: ResourceResidencyPreference::Resident,
            })
            .collect(),
    });
    compile(revision, snapshot(4096), adapters, vec![], scheduling, &["first", "second"])
}

#[test]
fn failed_step_rolls_back_completed_steps_in_reverse() {
    let plan = two_resident_plan(3);
    assert!(plan.executable);
    assert_eq!(plan.transitions.len(), 2);
    assert_eq!(check_candidate_plan(&plan, &two_resident_plan(3)), Ok(()));
    // The first step ran and changed state; the second failed.
    let completed = vec![CompletedStep { index: 0, changed_state: true }];
    let rollbacks = plan_rollback_steps(&plan.transitions, &completed);
    assert_eq!(rollbacks.len(), 1);
    assert_eq!(rollbacks[0].adapter_id, "first");
    assert_eq!(rollbacks[0].operation, Some(ResourceAdapterOperation::Suspend));
    let message = plan_failure_message("second", "start refused", &Vec::new());
    assert!(message.contains("rollback_confirmed"));
    assert_eq!(message, "resource_plan_transition_failed:second:start refused;rollback_confirmed");
}

#[test]
fn plan_run_stops_at_the_first_failed_step_and_rolls_back() {
    let plan = two_resident_plan(3);
    let mut run = start_plan_execution();
    assert!(matches!(plan_execution_action(&run, &plan.transitions), PlanExecutionAction::RunStep(0)));
    run = plan_execution_step(run, plan.transitions.len(), PlanStepEvent::Succeeded { already_in_state: false });
    assert_eq!(run.next, 1);
    assert!(matches!(plan_execution_action(&run, &plan.transitions), PlanExecutionAction::RunStep(1)));
    run = plan_execution_step(run, plan.transitions.len(), PlanStepEvent::Failed);
    assert!(run.failed);
    assert_eq!(run.next, 1);
    match plan_execution_action(&run, &plan.transitions) {
        PlanExecutionAction::RollBack(steps) => {
            assert_eq!(steps.len(), 1);
            assert_eq!(steps[0].adapter_id, "first");
            assert_eq!(steps[0].operation, Some(ResourceAdapterOperation::Suspend));
        }
        _ => panic!("expected a rollback"),
    }
}

#[test]
fn plan_run_finishes_when_every_step_succeeds() {
    let plan = two_resident_plan(3);
    let mut run = start_plan_execution();
    run = plan_execution_step(run, 2, PlanStepEvent::Succeeded { already_in_state: true });
    run = plan_execution_step(run, 2, PlanStepEvent::Succeeded { already_in_state: false });
    assert_eq!(run.completed.len(), 2);
    assert!(!run.completed[0].changed_state);
    assert!(run.completed[1].changed_state);
    assert!(matches!(plan_execution_action(&run, &plan.transitions), PlanExecutionAction::Finish));
    run.failed = true;
    match plan_execution_action(&run, &plan.transitions) {
        PlanExecutionAction::RollBack(steps) => {
            let ids: Vec<&str> = steps.iter().map(|r| r.adapter_id.as_str()).collect();
            assert_eq!(ids, vec!["second"]);
        }
        _ => panic!("expected a rollback"),
    }
}

#[test]
fn rollback_skips_unchanged_steps_and_reports_failures() {
    let plan = two_resident_plan(3);
    let completed = vec![
        CompletedStep { index: 0, changed_state: true },
        CompletedStep { index: 1, changed_state: false },
        CompletedStep { index: 1, changed_state: true },
    ];
    let rollbacks = plan_rollback_steps(&plan.transitions, &completed);
    let ids: Vec<&str> = rollbacks.iter().map(|r| r.adapter_id.as_str()).collect();
    assert_eq!(ids, vec!["second", "first"]);
    let errors = vec![rollback_unavailable_error("x"), "y:boom".to_string()];
    assert_eq!(errors[0], "x:resource_plan_rollback_unavailable");
    assert_eq!(
        plan_failure_message("z", "e", &errors),
        "resource_plan_transition_failed:z:e;rollback_failed:x:resource_plan_rollback_unavailable|y:boom"
    );
    assert_eq!(plan_step_requester(&plan.transitions[0]), "host.resource_coordinator");
    let mut step = ResourceCandidateTransition {
        adapter_id: "x".into(),
        operation: ResourceAdapterOperation::Suspend,
        profile_id: None,
        rollback_operation: None,
        rollback_profile_id: None,
        requested_by_adapter_id: None,
        reason_codes: vec![],
    };
    assert_eq!(plan_step_reason(&step), None);
    step.reason_codes = vec!["a".into(), "b".into()];
    assert_eq!(plan_step_reason(&step).as_deref(), Some("a,b"));
}

#[test]
fn stale_or_unexecutable_plans_are_refused() {
    let plan = two_resident_plan(3);
    assert_eq!(
        check_candidate_plan(&plan, &two_resident_plan(4)),
        Err(ResourcePlanExecutionError::CandidateMismatch)
    );
    assert_eq!(ResourcePlanExecutionError::CandidateMismatch.code(), "resource_plan_candidate_mismatch");
    let blocked = compile(
        3,
        snapshot(100),
        vec![adapter("voice", vec![profile("full", 100, Some(1536), true)], ResourceAdapterRuntimeState::Inactive, None)],
        vec![],
        ready_scheduling(ResourceSchedulingIntent {
            strategy: ResourceSchedulingStrategy::PrimaryFirst,
            primary_adapter_id: Some("voice".into()),
            commands: Vec::new(),
        }),
        &["voice"],
    );
    assert_eq!(check_candidate_plan(&blocked, &blocked), Err(ResourcePlanExecutionError::Blocked));
    let degraded = compile(
        3,
        snapshot(7000),
        vec![adapter("voice", vec![profile("full", 100, Some(1536), true)], ResourceAdapterRuntimeState::Inactive, None)],
        vec![],
        ready_scheduling(ResourceSchedulingIntent {
            strategy: ResourceSchedulingStrategy::PrimaryFirst,
            primary_adapter_id: Some("voice".into()),
            commands: Vec::new(),
        }),
        &[],
    );
    assert_eq!(check_candidate_plan(&degraded, &degraded), Err(ResourcePlanExecutionError::NotExecutable));
}
