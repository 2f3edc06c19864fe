//! Shared drama guardrails for theater builtin prompt fallback.

use vstd::prelude::*;
use crate::text::{append, trim};

verus! {

pub const FULL_CORE: &'static str = "【戏剧性纪律】
· 反差：两人反应须鲜明对撞，禁止「好的」「嗯」式平淡接话；性格标签要在用词与态度上可见。
· 小输入大后果：poke 事件须改变节奏/情绪/关系张力，不是中性信息补充。
· 情绪起伏：至少一次可见转折（慌→窘→害羞；争→让→哄 等）。
· 接锚：须自然导向 skeleton 下一固定节拍，不断档、不另起炉灶。
· 禁止：旁白解说、机械复述 dramaSeed 原文、照抄罐头 fork 台词、OOC 万能反应。";

pub const COMPACT_CORE: &'static str = "【戏剧纪律（精简）】反差对撞、禁止平淡接话；小事件须改节奏/张力；至少一次情绪转折；禁止旁白与照抄罐头。";

pub const SUPERMARKET_HINT: &'static str = "\n【场景语气参考（勿照抄剧情）】\n强调动线与货架：推车、比价、试吃、收银排队；物件要具体（价签、空柜、购物袋），别写成泛化闲聊。\n";

pub const WAY_HOME_HINT: &'static str = "\n【场景语气参考（勿照抄剧情）】\n户外步行感：路灯、风、重物、导航；突发小事故须有一瞬停顿再反应，关心与吐槽要有性格区分。\n";

pub const BEDTIME_HINT: &'static str = "\n【场景语气参考（勿照抄剧情）】\n夜间氛围：压低音量、困意、窗外声；语气可渐软或渐怂，动作宜小（关窗、递杯、拉被子）。\n";

pub const BREAKFAST_HINT: &'static str = "\n【场景语气参考（勿照抄剧情）】\n早晨节奏偏快：碗筷声、书包、出门倒计时；拌嘴可带困意与互相嫌弃，但底色是照应与默契。\n";

/// Title line of the patch prompt.
pub const PATCH_TITLE: &'static str = "【剧场即兴 · 戏剧性补丁】";

/// Header of the full guardrails block.
pub const GUARDRAILS_HEADER: &'static str = "【戏剧性纪律】";

/// Header of the compact guardrails block.
pub const COMPACT_HEADER: &'static str = "【戏剧纪律（精简）】";

pub open spec fn opt_str(o: Option<&str>) -> Option<Seq<char>> {
    match o {
        Some(s) => Some(s@),
        None => None,
    }
}

/// The scene a request names: its trimmed name, or `breakfast` when absent
/// or blank.
pub open spec fn resolved_scene(scene: Option<Seq<char>>) -> Seq<char> {
    match scene {
        Some(s) => if trim(s).len() > 0 { trim(s) } else { "breakfast"@ },
        None => "breakfast"@,
    }
}

/// The tone hint of a scene; unknown scenes get the breakfast hint.
pub open spec fn tone_hint(scene: Seq<char>) -> Seq<char> {
    if scene == "supermarket"@ {
        SUPERMARKET_HINT@
    } else if scene == "way_home"@ {
        WAY_HOME_HINT@
    } else if scene == "bedtime"@ {
        BEDTIME_HINT@
    } else {
        BREAKFAST_HINT@
    }
}

fn scene_tone_hint(theater_scene: &str) -> (r: &'static str)
    ensures
        r@ == tone_hint(theater_scene@),
{
    if crate::text::str_eq(theater_scene, "supermarket") {
        SUPERMARKET_HINT
    } else if crate::text::str_eq(theater_scene, "way_home") {
        WAY_HOME_HINT
    } else if crate::text::str_eq(theater_scene, "bedtime") {
        BEDTIME_HINT
    } else {
        BREAKFAST_HINT
    }
}

fn resolve_theater_scene(theater_scene: Option<&str>) -> (r: String)
    ensures
        r@ == resolved_scene(opt_str(theater_scene)),
{
    match theater_scene {
        Some(s) => {
            let t = crate::text::trim_chars(s);
            if t.len() > 0 {
                return crate::text::string_of(&t);
            }
            crate::text::owned("breakfast")
        },
        None => crate::text::owned("breakfast"),
    }
}

/// Full guardrails block for patch / ripple modes.
pub fn drama_guardrails_full(theater_scene: Option<&str>) -> (r: String)
    ensures
        r@ == seq!['\n'] + FULL_CORE@ + tone_hint(resolved_scene(opt_str(theater_scene))),
{
    let scene = resolve_theater_scene(theater_scene);
    let mut out = crate::text::owned("\n");
    append(&mut out, FULL_CORE);
    append(&mut out, scene_tone_hint(scene.as_str()));
    proof {
        reveal_strlit("\n");
    }
    out
}

/// Compact guardrails for cast_* modes.
pub fn drama_guardrails_compact(theater_scene: Option<&str>) -> (r: String)
    ensures
        r@ == seq!['\n'] + COMPACT_CORE@ + tone_hint(resolved_scene(opt_str(theater_scene))),
{
    let scene = resolve_theater_scene(theater_scene);
    let mut out = crate::text::owned("\n");
    append(&mut out, COMPACT_CORE);
    append(&mut out, scene_tone_hint(scene.as_str()));
    proof {
        reveal_strlit("\n");
    }
    out
}

} // verus!
