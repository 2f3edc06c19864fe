use oclive_host::theater::config::{
    cast_rewrite_llm_timeout_secs, cast_rewrite_min_beats, patch_max_lines, patch_partner_reply_enabled,
    ripple_max_beats, scene_llm_timeout_secs,
};
use oclive_host::theater::dto::{TheaterCastRef, TheaterSceneRequest, TheaterScriptLine, TheaterTweak};
use oclive_host::theater::guardrails::{
    drama_guardrails_compact, drama_guardrails_full, COMPACT_HEADER, GUARDRAILS_HEADER, PATCH_TITLE,
};
use oclive_host::theater::patch::{
    beats_after_insert, build_patch_prompt, merge_patch_beats, parse_patch_prose, patch_fallback_beats,
    patch_scene_step, resolve_patch_context, ripple_ids_conflict, try_merge_patch, PatchSceneAction,
};

fn line(id: &str, cast: &str, name: &str, text: &str) -> TheaterScriptLine {
    TheaterScriptLine {
        id: id.to_string(),
        cast: cast.to_string(),
        name: name.to_string(),
        text: text.to_string(),
        stage_hint: None,
        emotion: None,
    }
}

fn sample_patch_req() -> TheaterSceneRequest {
    TheaterSceneRequest {
        cast_a: TheaterCastRef { role_id: "mumu".to_string(), name: "木木".to_string() },
        cast_b: TheaterCastRef { role_id: "feng".to_string(), name: "枫侵月".to_string() },
        scene_id: "home".to_string(),
        base_beats: vec![
            line("b1", "b", "枫侵月", "粥还要不要温一下？"),
            line("b2", "a", "木木", "哼。"),
            line("b3", "b", "枫侵月", "官方尾部。"),
        ],
        applied_tweaks: vec![TheaterTweak {
            kind: "chip".to_string(),
            chip_label: Some("喝茶".to_string()),
            drama_seed: "苦药变笑料".to_string(),
            insert_after_beat_id: "b1".to_string(),
            lead_cast: "a".to_string(),
        }],
        fallback_beats: vec![
            line("b1", "b", "枫侵月", "粥还要不要温一下？"),
            line("tea-1", "b", "枫侵月", "罐头补丁"),
            line("b2", "a", "木木", "哼。"),
            line("b3", "b", "枫侵月", "官方尾部。"),
        ],
        max_beats: None,
        mode: Some("patch".to_string()),
        patch_variant: None,
        pair_relation_id: None,
        pair_relation_hint: None,
        theater_scene: None,
        scene_brief: None,
        scene_setting_hint: None,
        script_outline: None,
    }
}

#[test]
fn guardrails_include_scene_hint_for_supermarket() {
    let block = drama_guardrails_full(Some("supermarket"));
    assert!(block.contains(GUARDRAILS_HEADER));
    assert!(block.contains("货架"));
}

#[test]
fn guardrails_default_to_breakfast_and_compact_header() {
    let blank = drama_guardrails_full(Some("   "));
    assert!(blank.starts_with('\n'));
    assert!(blank.contains("早晨节奏偏快"));
    assert_eq!(blank, drama_guardrails_full(None));
    assert_eq!(drama_guardrails_full(Some(" bedtime ")), drama_guardrails_full(Some("bedtime")));
    let compact = drama_guardrails_compact(Some("way_home"));
    assert!(compact.contains(COMPACT_HEADER));
    assert!(compact.contains("路灯"));
    assert!(!compact.contains(GUARDRAILS_HEADER));
}

#[test]
fn cast_rewrite_timeout_defaults_and_clamps() {
    assert_eq!(cast_rewrite_llm_timeout_secs(None), 45);
    assert_eq!(cast_rewrite_min_beats(None), 4);
}

#[test]
fn director_tunables_parse_and_clamp_overrides() {
    assert_eq!(ripple_max_beats(None), 12);
    assert_eq!(ripple_max_beats(Some(" 2 ")), 4);
    assert_eq!(ripple_max_beats(Some("100")), 64);
    assert_eq!(ripple_max_beats(Some("+20")), 20);
    assert_eq!(ripple_max_beats(Some("abc")), 12);
    assert_eq!(ripple_max_beats(Some("99999999999")), 12);
    assert_eq!(scene_llm_timeout_secs(None), 25);
    assert_eq!(scene_llm_timeout_secs(Some("1")), 5);
    assert_eq!(scene_llm_timeout_secs(Some("500")), 120);
    assert_eq!(cast_rewrite_llm_timeout_secs(Some("60")), 60);
    assert_eq!(cast_rewrite_llm_timeout_secs(Some("1000")), 180);
    assert_eq!(patch_max_lines(None), 4);
    assert_eq!(patch_max_lines(Some("1")), 2);
    assert_eq!(patch_max_lines(Some("9")), 8);
    assert_eq!(cast_rewrite_min_beats(Some("2")), 3);
    assert!(patch_partner_reply_enabled(None));
    assert!(patch_partner_reply_enabled(Some(" YES ")));
    assert!(!patch_partner_reply_enabled(Some("0")));
    assert!(!patch_partner_reply_enabled(Some("on")));
}

#[test]
fn resolve_patch_context_splits_prefix_and_tail() {
    let ctx = resolve_patch_context(&sample_patch_req()).expect("ctx");
    assert_eq!(ctx.prefix_beats.len(), 1);
    assert_eq!(ctx.prefix_beats[0].id, "b1");
    assert_eq!(ctx.canned_patch.len(), 1);
    assert_eq!(ctx.canned_patch[0].id, "tea-1");
    assert_eq!(ctx.skeleton_tail.len(), 2);
    assert_eq!(ctx.skeleton_tail[0].id, "b2");
    assert_eq!(ctx.chip_slug, "tea");
}

#[test]
fn resolve_patch_context_rejects_missing_anchor_and_tweak() {
    let mut req = sample_patch_req();
    req.applied_tweaks[0].insert_after_beat_id = "  ".to_string();
    assert!(resolve_patch_context(&req).is_none());
    let mut req = sample_patch_req();
    req.applied_tweaks[0].insert_after_beat_id = "zz".to_string();
    assert!(resolve_patch_context(&req).is_none());
    let mut req = sample_patch_req();
    req.applied_tweaks.clear();
    assert!(resolve_patch_context(&req).is_none());
}

#[test]
fn chip_slug_falls_back_to_custom_and_poke() {
    let mut req = sample_patch_req();
    req.fallback_beats[1].id = "plain".to_string();
    let ctx = resolve_patch_context(&req).expect("ctx");
    assert_eq!(ctx.chip_slug, "poke");
    req.applied_tweaks[0].kind = "custom".to_string();
    let ctx = resolve_patch_context(&req).expect("ctx");
    assert_eq!(ctx.chip_slug, "custom");
}

#[test]
fn parse_patch_prose_assigns_cast_and_stage_hint() {
    let req = sample_patch_req();
    let raw = "木木：这味道像惩罚！\n(整张脸皱成一团)\n枫侵月：乖，一口。";
    let lines = parse_patch_prose(raw, &req, "a", "tea", 4).expect("lines");
    assert_eq!(lines.len(), 2);
    assert_eq!(lines[0].cast, "a");
    assert_eq!(lines[0].id, "patch-tea-0");
    assert_eq!(lines[0].stage_hint.as_deref(), Some("整张脸皱成一团"));
    assert_eq!(lines[1].cast, "b");
}

#[test]
fn parse_patch_prose_limits_lines_and_uses_fallback_speaker() {
    let req = sample_patch_req();
    assert!(parse_patch_prose("   \n  ", &req, "a", "tea", 4).is_none());
    assert!(parse_patch_prose("(only a hint)", &req, "a", "tea", 4).is_none());
    let raw = "第一句\nnarrator: 第二句\n木木：\n第三句";
    let lines = parse_patch_prose(raw, &req, "b", "x", 2).expect("lines");
    assert_eq!(lines.len(), 2);
    assert_eq!(lines[0].name, "枫侵月");
    assert_eq!(lines[0].cast, "b");
    assert_eq!(lines[0].text, "第一句");
    assert_eq!(lines[1].name, "narrator");
    assert_eq!(lines[1].cast, "b");
    assert_eq!(lines[1].id, "patch-x-1");
}

#[test]
fn try_merge_patch_preserves_skeleton_tail() {
    let req = sample_patch_req();
    let ctx = resolve_patch_context(&req).expect("ctx");
    let raw = "木木：补丁台词。";
    let merged = try_merge_patch(&ctx, &req, raw, 4).expect("merged");
    assert_eq!(merged.len(), 4);
    assert_eq!(merged[0].id, "b1");
    assert_eq!(merged[1].id, "patch-tea-0");
    assert_eq!(merged[2].id, "b2");
    assert_eq!(merged[3].id, "b3");
    assert_eq!(merged[3].text, "官方尾部。");
}

#[test]
fn patch_ids_colliding_with_prefix_are_refused() {
    let prefix = vec![line("patch-tea-0", "a", "木木", "x")];
    let patch = vec![line("patch-tea-0", "a", "木木", "y")];
    assert!(ripple_ids_conflict(&prefix, &patch));
    assert!(!ripple_ids_conflict(&prefix, &vec![line("other", "a", "木木", "y")]));
    let merged = merge_patch_beats(&prefix, patch, &vec![line("t", "b", "枫侵月", "z")]);
    assert_eq!(merged.iter().map(|l| l.id.as_str()).collect::<Vec<_>>(), vec!["patch-tea-0", "patch-tea-0", "t"]);
}

#[test]
fn fallback_beats_splice_the_canned_patch() {
    let req = sample_patch_req();
    let ctx = resolve_patch_context(&req).expect("ctx");
    let beats = patch_fallback_beats(&ctx);
    let ids: Vec<&str> = beats.iter().map(|b| b.id.as_str()).collect();
    assert_eq!(ids, vec!["b1", "tea-1", "b2", "b3"]);
    let tail = beats_after_insert(&req.base_beats, &['b', '2']);
    assert_eq!(tail.len(), 1);
    assert!(beats_after_insert(&req.base_beats, &['x']).is_empty());
}

#[test]
fn build_patch_prompt_includes_lead_and_variant() {
    let req = sample_patch_req();
    let ctx = resolve_patch_context(&req).expect("ctx");
    let p = build_patch_prompt(&req, &ctx, 3, false, "傲娇", "温柔", 1, patch_partner_reply_enabled(None));
    assert!(p.contains("木木"));
    assert!(p.contains(PATCH_TITLE));
    assert!(p.contains(GUARDRAILS_HEADER));
    assert!(p.contains("第二版候选"));
    assert!(p.contains("苦药变笑料"));
    assert!(p.contains("性格反差"));
}

#[test]
fn build_patch_prompt_strict_without_partner_reply() {
    let req = sample_patch_req();
    let ctx = resolve_patch_context(&req).expect("ctx");
    let p = build_patch_prompt(&req, &ctx, 2, true, "", "", 0, false);
    assert!(p.starts_with(PATCH_TITLE));
    assert!(p.contains("1–2 句台词"));
    assert!(p.contains("【严格模式】"));
    assert!(!p.contains("性格反差"));
    assert!(!p.contains("第二版候选"));
    assert!(!p.contains("【人设摘要 · 必须贴合】"));
    assert!(p.contains("枫侵月：粥还要不要温一下？"));
    assert!(p.contains("剧情转折「喝茶」"));
}

#[test]
fn patch_scene_steps_merge_retry_once_then_fall_back() {
    let req = sample_patch_req();
    let ctx = resolve_patch_context(&req).expect("ctx");
    match patch_scene_step(&ctx, &req, false, Some("木木：补丁台词。"), 4) {
        PatchSceneAction::Finish(beats) => assert_eq!(beats[1].id, "patch-tea-0"),
        _ => panic!("expected a merged scene"),
    }
    assert!(matches!(
        patch_scene_step(&ctx, &req, false, Some("   "), 4),
        PatchSceneAction::RetryStrict
    ));
    match patch_scene_step(&ctx, &req, true, Some("   "), 4) {
        PatchSceneAction::Fallback(beats) => {
            let ids: Vec<&str> = beats.iter().map(|b| b.id.as_str()).collect();
            assert_eq!(ids, vec!["b1", "tea-1", "b2", "b3"]);
        }
        _ => panic!("expected the canned fork"),
    }
    assert!(matches!(
        patch_scene_step(&ctx, &req, false, None, 4),
        PatchSceneAction::Fallback(_)
    ));
}
