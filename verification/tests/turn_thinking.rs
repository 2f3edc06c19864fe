use oclive_host::turn_thinking::{
    build_ephemeral_event_summary, deep_latch_writes, effective_turn_thinking_policy, ephemeral_for_prompt, evaluate_policy, event_label,
    host_default_or_rules, is_strong_persistence_event, next_ephemeral_state, resolve_turn_thinking, EventType,
    FastPersistenceMode, HostProfile, RolePackTurnThinkingConfig, TurnThinkingAndGroup, TurnThinkingDefault,
    TurnThinkingEphemeralArchiveConfig, TurnThinkingLatchConfig, TurnThinkingMode, TurnThinkingPlan,
    TurnThinkingPolicy, TurnThinkingReason, TurnThinkingSignalRule, TurnThinkingSignals,
};

fn host(default_mode: TurnThinkingDefault, fast_persistence: FastPersistenceMode) -> HostProfile {
    HostProfile {
        event_impact_llm: false,
        skip_complex_emotion: false,
        concise_prompt: false,
        memory_retrieval_limit: 12,
        default_mode,
        fast_skip_complex_emotion: true,
        fast_knowledge_limit: 3,
        fast_memory_cap: 5,
        auto_deep_min_chars: 48,
        auto_deep_keywords: vec!["认真".to_string()],
        fast_persistence,
    }
}

fn signals(msg: &str, event: EventType, latch: bool) -> TurnThinkingSignals {
    TurnThinkingSignals {
        user_message: msg.to_string(),
        high_sadness: false,
        high_anger: false,
        high_fear: false,
        recent_events: vec![],
        this_turn_event: event,
        deep_latch_active: latch,
    }
}

fn fast_plan() -> TurnThinkingPlan {
    TurnThinkingPlan { mode: TurnThinkingMode::Fast, reasons: vec![TurnThinkingReason::AutoCasual] }
}

fn deep_plan() -> TurnThinkingPlan {
    TurnThinkingPlan { mode: TurnThinkingMode::Deep, reasons: vec![TurnThinkingReason::AutoLongMessage] }
}

#[test]
fn strong_persistence_events_match_rfc_whitelist() {
    assert!(is_strong_persistence_event(EventType::Quarrel));
    assert!(is_strong_persistence_event(EventType::Apology));
    assert!(is_strong_persistence_event(EventType::Confession));
    assert!(is_strong_persistence_event(EventType::Praise));
    assert!(!is_strong_persistence_event(EventType::Ignore));
    assert!(!is_strong_persistence_event(EventType::Joke));
    assert!(!is_strong_persistence_event(EventType::Complaint));
}

#[test]
fn ephemeral_for_prompt_respects_ttl() {
    assert_eq!(ephemeral_for_prompt(Some(3), Some("局面紧张")), "局面紧张");
    assert_eq!(ephemeral_for_prompt(Some(0), Some("x")), "");
    assert_eq!(ephemeral_for_prompt(None, Some("x")), "");
}

#[test]
fn auto_casual_short_message_is_fast() {
    let h = host(TurnThinkingDefault::Auto, FastPersistenceMode::Legacy);
    let plan = resolve_turn_thinking(&h, &None, &signals("你好", EventType::Ignore, false));
    assert_eq!(plan.mode, TurnThinkingMode::Fast);
    assert_eq!(plan.reasons, vec![TurnThinkingReason::AutoCasual]);
}

#[test]
fn auto_long_message_is_deep() {
    let h = host(TurnThinkingDefault::Auto, FastPersistenceMode::Legacy);
    let msg = "a".repeat(100);
    let plan = resolve_turn_thinking(&h, &None, &signals(&msg, EventType::Ignore, false));
    assert_eq!(plan.mode, TurnThinkingMode::Deep);
    assert_eq!(plan.reasons, vec![TurnThinkingReason::AutoLongMessage]);
}

#[test]
fn this_turn_quarrel_short_message_is_deep() {
    let h = host(TurnThinkingDefault::Auto, FastPersistenceMode::Legacy);
    let plan = resolve_turn_thinking(&h, &None, &signals("你烦死了", EventType::Quarrel, false));
    assert_eq!(plan.mode, TurnThinkingMode::Deep);
    assert!(plan.reasons.contains(&TurnThinkingReason::AutoThisTurnEvent));
}

#[test]
fn deep_latch_active_forces_deep() {
    let h = host(TurnThinkingDefault::Auto, FastPersistenceMode::Legacy);
    let plan = resolve_turn_thinking(&h, &None, &signals("嗯", EventType::Ignore, true));
    assert_eq!(plan.mode, TurnThinkingMode::Deep);
    assert_eq!(plan.reasons, vec![TurnThinkingReason::AutoDeepLatch]);
}

#[test]
fn forced_defaults_ignore_signals() {
    let h = host(TurnThinkingDefault::Fast, FastPersistenceMode::Legacy);
    let plan = resolve_turn_thinking(&h, &None, &signals("认真说", EventType::Quarrel, true));
    assert_eq!(plan.mode, TurnThinkingMode::Fast);
    assert_eq!(plan.reasons, vec![TurnThinkingReason::ForcedDefault]);
    let h = host(TurnThinkingDefault::Deep, FastPersistenceMode::Legacy);
    let plan = resolve_turn_thinking(&h, &None, &signals("hi", EventType::Ignore, false));
    assert_eq!(plan.mode, TurnThinkingMode::Deep);
}

#[test]
fn pack_and_group_requires_all_signals() {
    let pack = Some(RolePackTurnThinkingConfig {
        deep_when_or: vec![],
        deep_when_and: vec![TurnThinkingAndGroup {
            all: vec![TurnThinkingSignalRule::LongMessage { min_chars: Some(10) }, TurnThinkingSignalRule::HighSadness],
        }],
        latch: TurnThinkingLatchConfig { enter_on: vec![], exit_on: vec![] },
        ephemeral_archive: None,
    });
    let h = host(TurnThinkingDefault::Auto, FastPersistenceMode::Legacy);
    let plan = resolve_turn_thinking(&h, &pack, &signals("短句", EventType::Ignore, false));
    assert_eq!(plan.mode, TurnThinkingMode::Fast);
    let mut s = signals(&"a".repeat(20), EventType::Ignore, false);
    s.high_sadness = true;
    let plan = resolve_turn_thinking(&h, &pack, &s);
    assert_eq!(plan.mode, TurnThinkingMode::Deep);
    assert!(plan.reasons.contains(&TurnThinkingReason::AutoPackAndRule));
}

#[test]
fn host_defaults_cover_keywords_and_recent_quarrels() {
    let h = host(TurnThinkingDefault::Auto, FastPersistenceMode::Legacy);
    assert_eq!(host_default_or_rules(&h).len(), 5);
    let plan = resolve_turn_thinking(&h, &None, &signals("我们认真谈谈", EventType::Ignore, false));
    assert_eq!(plan.reasons, vec![TurnThinkingReason::AutoDeepKeyword]);
    let mut s = signals("嗯", EventType::Ignore, false);
    s.recent_events = vec![EventType::Joke, EventType::Quarrel];
    s.high_fear = true;
    let plan = resolve_turn_thinking(&h, &None, &s);
    assert_eq!(plan.reasons, vec![TurnThinkingReason::AutoEmotion, TurnThinkingReason::AutoEventChain]);
    let policy = TurnThinkingPolicy {
        or_rules: vec![TurnThinkingSignalRule::DeepLatchActive, TurnThinkingSignalRule::HighFear],
        and_groups: vec![TurnThinkingAndGroup { all: vec![] }],
        latch: TurnThinkingLatchConfig { enter_on: vec![], exit_on: vec![] },
        ephemeral: None,
    };
    let plan = evaluate_policy(&s, &policy, &h);
    assert_eq!(plan.reasons, vec![TurnThinkingReason::AutoHighFear]);
}

#[test]
fn fast_plan_skips_event_llm_even_when_host_allows() {
    let mut h = host(TurnThinkingDefault::Fast, FastPersistenceMode::Legacy);
    h.event_impact_llm = true;
    let plan = resolve_turn_thinking(&h, &None, &signals("hi", EventType::Ignore, false));
    assert!(!plan.use_event_impact_llm(&h));
    assert!(deep_plan().use_event_impact_llm(&h));
}

#[test]
fn strong_only_fast_ignore_skips_persistence() {
    let h = host(TurnThinkingDefault::Auto, FastPersistenceMode::StrongOnly);
    let plan = fast_plan();
    assert!(!plan.applies_full_persistence(&h, &EventType::Ignore));
    assert!(plan.skip_mutable_profile_evolution(&h, &EventType::Ignore));
}

#[test]
fn strong_only_fast_quarrel_persists() {
    let h = host(TurnThinkingDefault::Auto, FastPersistenceMode::StrongOnly);
    let plan = fast_plan();
    assert!(plan.applies_full_persistence(&h, &EventType::Quarrel));
    assert!(!plan.skip_mutable_profile_evolution(&h, &EventType::Quarrel));
}

#[test]
fn deep_ignore_still_persists() {
    let h = host(TurnThinkingDefault::Auto, FastPersistenceMode::StrongOnly);
    assert!(deep_plan().applies_full_persistence(&h, &EventType::Ignore));
}

#[test]
fn legacy_fast_ignore_still_persists() {
    let h = host(TurnThinkingDefault::Auto, FastPersistenceMode::Legacy);
    assert!(fast_plan().applies_full_persistence(&h, &EventType::Ignore));
}

#[test]
fn plan_limits_follow_mode() {
    let h = host(TurnThinkingDefault::Auto, FastPersistenceMode::Legacy);
    assert_eq!(fast_plan().knowledge_retrieve_limit(&h), 3);
    assert_eq!(deep_plan().knowledge_retrieve_limit(&h), 8);
    assert_eq!(fast_plan().memory_cap(&h), 5);
    assert_eq!(deep_plan().memory_cap(&h), 12);
    assert!(fast_plan().use_concise_prompt(&h));
    assert!(!deep_plan().use_concise_prompt(&h));
    assert!(fast_plan().skip_complex_emotion(&h));
    assert!(!deep_plan().skip_complex_emotion(&h));
}

#[test]
fn latch_and_situation_summary_after_a_turn() {
    let latch = TurnThinkingLatchConfig { enter_on: vec!["Quarrel".to_string()], exit_on: vec![" Apology ".to_string()] };
    assert_eq!(deep_latch_writes(&latch, EventType::Quarrel), vec![true]);
    assert_eq!(deep_latch_writes(&latch, EventType::Apology), vec![false]);
    assert!(deep_latch_writes(&latch, EventType::Joke).is_empty());
    let cfg = TurnThinkingEphemeralArchiveConfig {
        enabled: true,
        update_on_events: vec!["Confession".to_string()],
        ttl_turns: 3,
        max_chars: 30,
    };
    let (text, ttl) = next_ephemeral_state(&latch, &cfg, EventType::Quarrel, "x", 0, String::new());
    assert_eq!(text, "【局面】争吵后需认真回应，语气勿敷衍。");
    assert_eq!(ttl, 3);
    let (text, ttl) = next_ephemeral_state(&latch, &cfg, EventType::Apology, "x", 0, String::new());
    assert_eq!(text, "【局面】道歉后气氛缓和，可逐步恢复正常语气。");
    assert_eq!(ttl, 3);
    let (text, ttl) = next_ephemeral_state(&latch, &cfg, EventType::Confession, "  我喜欢你，一直都是  ", 1, "old".to_string());
    assert_eq!(text, "【告白】用户：我喜欢你，一");
    assert_eq!(ttl, 3);
    let (text, ttl) = next_ephemeral_state(&latch, &cfg, EventType::Joke, "x", 2, "old".to_string());
    assert_eq!((text.as_str(), ttl), ("old", 1));
    let (text, ttl) = next_ephemeral_state(&latch, &cfg, EventType::Joke, "x", 1, "old".to_string());
    assert_eq!((text.as_str(), ttl), ("", 0));
    assert_eq!(build_ephemeral_event_summary(EventType::Praise, "好", 10), "【表扬】用户：");
    assert_eq!(event_label(EventType::Ignore), "忽视");
}

#[test]
fn host_pack_or_merge_extends_or_rules() {
    let pack = Some(RolePackTurnThinkingConfig {
        deep_when_or: vec![TurnThinkingSignalRule::DeepLatchActive],
        deep_when_and: vec![],
        latch: TurnThinkingLatchConfig { enter_on: vec![], exit_on: vec![] },
        ephemeral_archive: None,
    });
    let h = host(TurnThinkingDefault::Auto, FastPersistenceMode::Legacy);
    let policy = effective_turn_thinking_policy(&h, pack);
    assert!(policy.or_rules.len() > host_default_or_rules(&h).len());
}

#[test]
fn latch_config_parsed_from_pack() {
    let pack = Some(RolePackTurnThinkingConfig {
        deep_when_or: vec![],
        deep_when_and: vec![],
        latch: TurnThinkingLatchConfig { enter_on: vec!["Quarrel".into()], exit_on: vec!["Apology".into()] },
        ephemeral_archive: None,
    });
    let policy = effective_turn_thinking_policy(&host(TurnThinkingDefault::Auto, FastPersistenceMode::Legacy), pack);
    assert_eq!(policy.latch.enter_on, vec!["Quarrel".to_string()]);
    assert_eq!(policy.latch.exit_on, vec!["Apology".to_string()]);
}

#[test]
fn effective_policy_routes_like_the_router() {
    let h = host(TurnThinkingDefault::Auto, FastPersistenceMode::Legacy);
    let make = || {
        Some(RolePackTurnThinkingConfig {
            deep_when_or: vec![TurnThinkingSignalRule::HighSadness],
            deep_when_and: vec![TurnThinkingAndGroup {
                all: vec![TurnThinkingSignalRule::LongMessage { min_chars: Some(2) }, TurnThinkingSignalRule::HighSadness],
            }],
            latch: TurnThinkingLatchConfig { enter_on: vec![], exit_on: vec![] },
            ephemeral_archive: None,
        })
    };
    let mut s = signals("认真说", EventType::Ignore, false);
    s.high_sadness = true;
    let routed = resolve_turn_thinking(&h, &make(), &s);
    let policy = effective_turn_thinking_policy(&h, make());
    let evaluated = evaluate_policy(&s, &policy, &h);
    assert_eq!(routed.mode, evaluated.mode);
    assert_eq!(routed.reasons, evaluated.reasons);
    assert_eq!(
        evaluated.reasons,
        vec![
            TurnThinkingReason::AutoEmotion,
            TurnThinkingReason::AutoDeepKeyword,
            TurnThinkingReason::AutoHighSadness,
            TurnThinkingReason::AutoPackAndRule,
        ]
    );
    let none_policy = effective_turn_thinking_policy(&h, None);
    assert_eq!(none_policy.or_rules.len(), 5);
    assert!(none_policy.ephemeral.is_none());
}
