//! Per-turn Fast/Deep thinking mode: the host default, the automatic router
//! over message, emotion and event signals, persistence policy, and the
//! post-turn latch and situation-summary update.

use vstd::prelude::*;
use crate::text::{contains, take_at_most, trim};
use crate::resource::model::strs;

verus! {

/// Dialogue event kinds.
#[derive(Debug, Clone, Copy, PartialEq, Eq, Structural)]
pub enum EventType {
    Quarrel,
    Apology,
    Praise,
    Complaint,
    Confession,
    Joke,
    Ignore,
}

/// Strong dialogue events still consolidate favor and long-term memory on
/// Fast with `strong_only` persistence.
pub open spec fn strong_event(event: EventType) -> bool {
    event == EventType::Quarrel || event == EventType::Apology || event == EventType::Confession || event
        == EventType::Praise
}

pub fn is_strong_persistence_event(event: EventType) -> (r: bool)
    ensures
        r == strong_event(event),
{
    match event {
        EventType::Quarrel | EventType::Apology | EventType::Confession | EventType::Praise => true,
        _ => false,
    }
}

#[derive(Debug, Clone, Copy, PartialEq, Eq, Structural)]
pub enum TurnThinkingMode {
    Fast,
    Deep,
}

#[derive(Debug, Clone, Copy, PartialEq, Eq, Structural)]
pub enum TurnThinkingReason {
    ForcedDefault,
    AutoCasual,
    AutoEmotion,
    AutoEventChain,
    AutoLongMessage,
    AutoDeepKeyword,
    AutoThisTurnEvent,
    AutoDeepLatch,
    AutoPackAndRule,
    AutoHighSadness,
    AutoHighAnger,
    AutoHighFear,
}

/// The host's turn-thinking default.
#[derive(Debug, Clone, Copy, PartialEq, Eq, Structural)]
pub enum TurnThinkingDefault {
    Fast,
    Deep,
    Auto,
}

/// How Fast turns persist favor and memory.
#[derive(Debug, Clone, Copy, PartialEq, Eq, Structural)]
pub enum FastPersistenceMode {
    Legacy,
    StrongOnly,
}

/// The host profile settings that turn thinking reads.
#[derive(Debug)]
pub struct HostProfile {
    pub event_impact_llm: bool,
    pub skip_complex_emotion: bool,
    /// Whether the prompt profile is the concise one.
    pub concise_prompt: bool,
    /// The memory retrieval limit of the host's retrieval settings.
    pub memory_retrieval_limit: usize,
    pub default_mode: TurnThinkingDefault,
    pub fast_skip_complex_emotion: bool,
    pub fast_knowledge_limit: usize,
    pub fast_memory_cap: usize,
    pub auto_deep_min_chars: usize,
    pub auto_deep_keywords: Vec<String>,
    /// The effective Fast persistence mode.
    pub fast_persistence: FastPersistenceMode,
}

#[derive(Debug)]
pub struct TurnThinkingPlan {
    pub mode: TurnThinkingMode,
    pub reasons: Vec<TurnThinkingReason>,
}

/// A turn keeps full persistence: Deep turns always, Fast turns under the
/// legacy mode or for strong events.
pub open spec fn full_persistence(mode: TurnThinkingMode, fast: FastPersistenceMode, event: EventType) -> bool {
    mode == TurnThinkingMode::Deep || fast == FastPersistenceMode::Legacy || strong_event(event)
}

impl TurnThinkingPlan {
    pub fn use_event_impact_llm(&self, host: &HostProfile) -> (r: bool)
        ensures
            r == (self.mode == TurnThinkingMode::Deep && host.event_impact_llm),
    {
        self.mode == TurnThinkingMode::Deep && host.event_impact_llm
    }

    pub fn skip_complex_emotion(&self, host: &HostProfile) -> (r: bool)
        ensures
            r == (host.skip_complex_emotion || (self.mode == TurnThinkingMode::Fast && host.fast_skip_complex_emotion)),
    {
        host.skip_complex_emotion || (self.mode == TurnThinkingMode::Fast && host.fast_skip_complex_emotion)
    }

    pub fn use_concise_prompt(&self, host: &HostProfile) -> (r: bool)
        ensures
            r == (self.mode == TurnThinkingMode::Fast || host.concise_prompt),
    {
        self.mode == TurnThinkingMode::Fast || host.concise_prompt
    }

    pub fn knowledge_retrieve_limit(&self, host: &HostProfile) -> (r: usize)
        ensures
            r == if self.mode == TurnThinkingMode::Fast { host.fast_knowledge_limit } else { 8 },
    {
        if self.mode == TurnThinkingMode::Fast {
            host.fast_knowledge_limit
        } else {
            8
        }
    }

    pub fn memory_cap(&self, host: &HostProfile) -> (r: usize)
        ensures
            r == if self.mode == TurnThinkingMode::Fast {
                if host.fast_memory_cap <= host.memory_retrieval_limit {
                    host.fast_memory_cap
                } else {
                    host.memory_retrieval_limit
                }
            } else {
                host.memory_retrieval_limit
            },
    {
        if self.mode == TurnThinkingMode::Fast {
            if host.fast_memory_cap <= host.memory_retrieval_limit {
                host.fast_memory_cap
            } else {
                host.memory_retrieval_limit
            }
        } else {
            host.memory_retrieval_limit
        }
    }

    pub fn applies_full_persistence(&self, host: &HostProfile, event: &EventType) -> (r: bool)
        ensures
            r == full_persistence(self.mode, host.fast_persistence, *event),
    {
        if self.mode == TurnThinkingMode::Deep {
            return true;
        }
        match host.fast_persistence {
            FastPersistenceMode::Legacy => true,
            FastPersistenceMode::StrongOnly => is_strong_persistence_event(*event),
        }
    }

    pub fn skip_mutable_profile_evolution(&self, host: &HostProfile, event: &EventType) -> (r: bool)
        ensures
            r == !full_persistence(self.mode, host.fast_persistence, *event),
    {
        !self.applies_full_persistence(host, event)
    }
}

/// One routing signal rule.
#[derive(Debug)]
pub enum TurnThinkingSignalRule {
    LongMessage { min_chars: Option<u32> },
    HighArousal,
    HighSadness,
    HighAnger,
    HighFear,
    ThisTurnEvent { events: Vec<String> },
    RecentEvent { events: Vec<String> },
    Keyword { keywords: Vec<String> },
    DeepLatchActive,
}

/// Rules that must all hold.
#[derive(Debug)]
pub struct TurnThinkingAndGroup {
    pub all: Vec<TurnThinkingSignalRule>,
}

/// Event names that enter and leave the deep latch.
#[derive(Debug)]
pub struct TurnThinkingLatchConfig {
    pub enter_on: Vec<String>,
    pub exit_on: Vec<String>,
}

/// The situation summary kept for a few turns.
#[derive(Debug)]
pub struct TurnThinkingEphemeralArchiveConfig {
    pub enabled: bool,
    pub update_on_events: Vec<String>,
    pub ttl_turns: u32,
    pub max_chars: usize,
}

/// A role pack's turn-thinking settings.
#[derive(Debug)]
pub struct RolePackTurnThinkingConfig {
    pub deep_when_or: Vec<TurnThinkingSignalRule>,
    pub deep_when_and: Vec<TurnThinkingAndGroup>,
    pub latch: TurnThinkingLatchConfig,
    pub ephemeral_archive: Option<TurnThinkingEphemeralArchiveConfig>,
}

/// What the router sees of one turn. The emotion thresholds (sadness and
/// anger at least 0.45, fear at least 0.4) are applied by the caller.
pub struct TurnThinkingSignals {
    pub user_message: String,
    pub high_sadness: bool,
    pub high_anger: bool,
    pub high_fear: bool,
    pub recent_events: Vec<EventType>,
    pub this_turn_event: EventType,
    pub deep_latch_active: bool,
}

/// The event an event name denotes (after trimming).
pub open spec fn event_named(name: Seq<char>) -> Option<EventType> {
    let t = trim(name);
    if t == "Quarrel"@ {
        Some(EventType::Quarrel)
    } else if t == "Apology"@ {
        Some(EventType::Apology)
    } else if t == "Praise"@ {
        Some(EventType::Praise)
    } else if t == "Complaint"@ {
        Some(EventType::Complaint)
    } else if t == "Confession"@ {
        Some(EventType::Confession)
    } else if t == "Joke"@ {
        Some(EventType::Joke)
    } else if t == "Ignore"@ {
        Some(EventType::Ignore)
    } else {
        None
    }
}

fn parse_event_name(name: &str) -> (r: Option<EventType>)
    ensures
        r == event_named(name@),
{
    let t = crate::text::trim_str(name);
    let s = t.as_str();
    if crate::text::str_eq(s, "Quarrel") {
        Some(EventType::Quarrel)
    } else if crate::text::str_eq(s, "Apology") {
        Some(EventType::Apology)
    } else if crate::text::str_eq(s, "Praise") {
        Some(EventType::Praise)
    } else if crate::text::str_eq(s, "Complaint") {
        Some(EventType::Complaint)
    } else if crate::text::str_eq(s, "Confession") {
        Some(EventType::Confession)
    } else if crate::text::str_eq(s, "Joke") {
        Some(EventType::Joke)
    } else if crate::text::str_eq(s, "Ignore") {
        Some(EventType::Ignore)
    } else {
        None
    }
}

/// Some name of the list denotes `event`.
pub open spec fn names_event(names: Seq<Seq<char>>, event: EventType) -> bool {
    exists|i: int| 0 <= i < names.len() && event_named(names[i]) == Some(event)
}

/// Some keyword occurs in the message.
pub open spec fn has_keyword(msg: Seq<char>, keywords: Seq<Seq<char>>) -> bool {
    exists|k: int| 0 <= k < keywords.len() && contains(msg, keywords[k])
}

fn event_list_matches(names: &Vec<String>, event: EventType) -> (r: bool)
    ensures
        r == names_event(strs(names@), event),
{
    let mut i: usize = 0;
    while i < names.len()
        invariant
            i <= names.len(),
            forall|j: int| 0 <= j < i ==> event_named(names@[j]@) != Some(event),
        decreases names.len() - i,
    {
        if parse_event_name(names[i].as_str()) == Some(event) {
            assert(strs(names@)[i as int] == names@[i as int]@);
            return true;
        }
        i = i + 1;
    }
    assert forall|j: int| 0 <= j < names@.len() implies event_named(strs(names@)[j]) != Some(event) by {
        assert(strs(names@)[j] == names@[j]@);
    }
    false
}

/// Some recent event is named in the list.
pub open spec fn recent_named(names: Seq<Seq<char>>, recent: Seq<EventType>) -> bool {
    exists|k: int| 0 <= k < recent.len() && names_event(names, recent[k])
}

/// Whether a rule holds for a turn.
pub open spec fn rule_holds(rule: TurnThinkingSignalRule, s: TurnThinkingSignals, host: HostProfile) -> bool {
    match rule {
        TurnThinkingSignalRule::LongMessage { min_chars } => {
            let min: nat = match min_chars {
                Some(v) => v as nat,
                None => host.auto_deep_min_chars as nat,
            };
            s.user_message@.len() >= min
        },
        TurnThinkingSignalRule::HighArousal => s.high_anger || s.high_sadness || s.high_fear,
        TurnThinkingSignalRule::HighSadness => s.high_sadness,
        TurnThinkingSignalRule::HighAnger => s.high_anger,
        TurnThinkingSignalRule::HighFear => s.high_fear,
        TurnThinkingSignalRule::ThisTurnEvent { events } => names_event(strs(events@), s.this_turn_event),
        TurnThinkingSignalRule::RecentEvent { events } => recent_named(strs(events@), s.recent_events@),
        TurnThinkingSignalRule::Keyword { keywords } => has_keyword(s.user_message@, strs(keywords@)),
        TurnThinkingSignalRule::DeepLatchActive => s.deep_latch_active,
    }
}

pub open spec fn rule_reason(rule: TurnThinkingSignalRule) -> TurnThinkingReason {
    match rule {
        TurnThinkingSignalRule::LongMessage { .. } => TurnThinkingReason::AutoLongMessage,
        TurnThinkingSignalRule::HighArousal => TurnThinkingReason::AutoEmotion,
        TurnThinkingSignalRule::HighSadness => TurnThinkingReason::AutoHighSadness,
        TurnThinkingSignalRule::HighAnger => TurnThinkingReason::AutoHighAnger,
        TurnThinkingSignalRule::HighFear => TurnThinkingReason::AutoHighFear,
        TurnThinkingSignalRule::ThisTurnEvent { .. } => TurnThinkingReason::AutoThisTurnEvent,
        TurnThinkingSignalRule::RecentEvent { .. } => TurnThinkingReason::AutoEventChain,
        TurnThinkingSignalRule::Keyword { .. } => TurnThinkingReason::AutoDeepKeyword,
        TurnThinkingSignalRule::DeepLatchActive => TurnThinkingReason::AutoDeepLatch,
    }
}

fn reason_for_rule(rule: &TurnThinkingSignalRule) -> (r: TurnThinkingReason)
    ensures
        r == rule_reason(*rule),
{
    match rule {
        TurnThinkingSignalRule::LongMessage { .. } => TurnThinkingReason::AutoLongMessage,
        TurnThinkingSignalRule::HighArousal => TurnThinkingReason::AutoEmotion,
        TurnThinkingSignalRule::HighSadness => TurnThinkingReason::AutoHighSadness,
        TurnThinkingSignalRule::HighAnger => TurnThinkingReason::AutoHighAnger,
        TurnThinkingSignalRule::HighFear => TurnThinkingReason::AutoHighFear,
        TurnThinkingSignalRule::ThisTurnEvent { .. } => TurnThinkingReason::AutoThisTurnEvent,
        TurnThinkingSignalRule::RecentEvent { .. } => TurnThinkingReason::AutoEventChain,
        TurnThinkingSignalRule::Keyword { .. } => TurnThinkingReason::AutoDeepKeyword,
        TurnThinkingSignalRule::DeepLatchActive => TurnThinkingReason::AutoDeepLatch,
    }
}

fn any_recent_matches(events: &Vec<String>, recent: &Vec<EventType>) -> (r: bool)
    ensures
        r == recent_named(strs(events@), recent@),
{
    let mut k: usize = 0;
    while k < recent.len()
        invariant
            k <= recent.len(),
            forall|j: int| 0 <= j < k ==> !names_event(strs(events@), recent@[j]),
        decreases recent.len() - k,
    {
        if event_list_matches(events, recent[k]) {
            return true;
        }
        k = k + 1;
    }
    false
}

fn any_keyword(keywords: &Vec<String>, msg: &[char]) -> (r: bool)
    ensures
        r == has_keyword(msg@, strs(keywords@)),
{
    let mut k: usize = 0;
    while k < keywords.len()
        invariant
            k <= keywords.len(),
            forall|j: int| 0 <= j < k ==> !contains(msg@, keywords@[j]@),
        decreases keywords.len() - k,
    {
        let kw = crate::text::chars_of(keywords[k].as_str());
        if crate::text::contains_vec(msg, &kw) {
            assert(strs(keywords@)[k as int] == keywords@[k as int]@);
            return true;
        }
        k = k + 1;
    }
    assert forall|j: int| 0 <= j < keywords@.len() implies !contains(msg@, strs(keywords@)[j]) by {
        assert(strs(keywords@)[j] == keywords@[j]@);
    }
    false
}

fn evaluate_or_rule(rule: &TurnThinkingSignalRule, s: &TurnThinkingSignals, host: &HostProfile) -> (r: bool)
    ensures
        r == rule_holds(*rule, *s, *host),
{
    match rule {
        TurnThinkingSignalRule::LongMessage { min_chars } => {
            let n = s.user_message.as_str().unicode_len();
            match min_chars {
                Some(v) => n as u64 >= *v as u64,
                None => n >= host.auto_deep_min_chars,
            }
        },
        TurnThinkingSignalRule::HighArousal => s.high_anger || s.high_sadness || s.high_fear,
        TurnThinkingSignalRule::HighSadness => s.high_sadness,
        TurnThinkingSignalRule::HighAnger => s.high_anger,
        TurnThinkingSignalRule::HighFear => s.high_fear,
        TurnThinkingSignalRule::ThisTurnEvent { events } => event_list_matches(events, s.this_turn_event),
        TurnThinkingSignalRule::RecentEvent { events } => any_recent_matches(events, &s.recent_events),
        TurnThinkingSignalRule::Keyword { keywords } => {
            let msg = crate::text::chars_of(s.user_message.as_str());
            any_keyword(keywords, &msg)
        },
        TurnThinkingSignalRule::DeepLatchActive => s.deep_latch_active,
    }
}

/// Reasons of the OR rules that hold, in rule order.
pub open spec fn or_reasons(
    rules: Seq<TurnThinkingSignalRule>,
    s: TurnThinkingSignals,
    host: HostProfile,
) -> Seq<TurnThinkingReason>
    decreases rules.len(),
{
    if rules.len() == 0 {
        Seq::empty()
    } else {
        let prev = or_reasons(rules.drop_last(), s, host);
        if rule_holds(rules.last(), s, host) {
            prev.push(rule_reason(rules.last()))
        } else {
            prev
        }
    }
}

/// A non-empty AND group whose rules all hold.
pub open spec fn group_holds(g: TurnThinkingAndGroup, s: TurnThinkingSignals, host: HostProfile) -> bool {
    g.all@.len() > 0 && forall|k: int| 0 <= k < g.all@.len() ==> rule_holds(g.all@[k], s, host)
}

/// One `AutoPackAndRule` reason per AND group that holds.
pub open spec fn and_reasons(
    groups: Seq<TurnThinkingAndGroup>,
    s: TurnThinkingSignals,
    host: HostProfile,
) -> Seq<TurnThinkingReason>
    decreases groups.len(),
{
    if groups.len() == 0 {
        Seq::empty()
    } else {
        let prev = and_reasons(groups.drop_last(), s, host);
        if group_holds(groups.last(), s, host) {
            prev.push(TurnThinkingReason::AutoPackAndRule)
        } else {
            prev
        }
    }
}

/// Effective routing policy: host default OR rules then the pack's OR
/// rules; the pack's AND groups.
pub struct TurnThinkingPolicy {
    pub or_rules: Vec<TurnThinkingSignalRule>,
    pub and_groups: Vec<TurnThinkingAndGroup>,
    pub latch: TurnThinkingLatchConfig,
    pub ephemeral: Option<TurnThinkingEphemeralArchiveConfig>,
}

/// The automatic plan: Deep with every reason found, else Fast and casual.
pub open spec fn auto_plan(reasons: Seq<TurnThinkingReason>) -> (TurnThinkingMode, Seq<TurnThinkingReason>) {
    if reasons.len() == 0 {
        (TurnThinkingMode::Fast, seq![TurnThinkingReason::AutoCasual])
    } else {
        (TurnThinkingMode::Deep, reasons)
    }
}

fn rules_all_hold(rules: &Vec<TurnThinkingSignalRule>, s: &TurnThinkingSignals, host: &HostProfile) -> (r: bool)
    ensures
        r == forall|k: int| 0 <= k < rules@.len() ==> rule_holds(rules@[k], *s, *host),
{
    let mut k: usize = 0;
    while k < rules.len()
        invariant
            k <= rules.len(),
            forall|j: int| 0 <= j < k ==> rule_holds(rules@[j], *s, *host),
        decreases rules.len() - k,
    {
        if !evaluate_or_rule(&rules[k], s, host) {
            return false;
        }
        k = k + 1;
    }
    true
}

fn push_or_reasons(
    reasons: &mut Vec<TurnThinkingReason>,
    rules: &Vec<TurnThinkingSignalRule>,
    s: &TurnThinkingSignals,
    host: &HostProfile,
)
    ensures
        final(reasons)@ == old(reasons)@ + or_reasons(rules@, *s, *host),
{
    let ghost start = reasons@;
    let mut i: usize = 0;
    assert(start + or_reasons(rules@.take(0), *s, *host) =~= start);
    while i < rules.len()
        invariant
            i <= rules.len(),
            reasons@ == start + or_reasons(rules@.take(i as int), *s, *host),
        decreases rules.len() - i,
    {
        assert(rules@.take(i + 1).drop_last() =~= rules@.take(i as int));
        if evaluate_or_rule(&rules[i], s, host) {
            reasons.push(reason_for_rule(&rules[i]));
        }
        i = i + 1;
    }
    assert(rules@.take(i as int) =~= rules@);
}

fn push_and_reasons(
    reasons: &mut Vec<TurnThinkingReason>,
    groups: &Vec<TurnThinkingAndGroup>,
    s: &TurnThinkingSignals,
    host: &HostProfile,
)
    ensures
        final(reasons)@ == old(reasons)@ + and_reasons(groups@, *s, *host),
{
    let ghost start = reasons@;
    let mut g: usize = 0;
    assert(start + and_reasons(groups@.take(0), *s, *host) =~= start);
    while g < groups.len()
        invariant
            g <= groups.len(),
            reasons@ == start + and_reasons(groups@.take(g as int), *s, *host),
        decreases groups.len() - g,
    {
        assert(groups@.take(g + 1).drop_last() =~= groups@.take(g as int));
        let grp = &groups[g];
        if grp.all.len() > 0 && rules_all_hold(&grp.all, s, host) {
            reasons.push(TurnThinkingReason::AutoPackAndRule);
        }
        g = g + 1;
    }
    assert(groups@.take(g as int) =~= groups@);
}

fn plan_from_reasons(reasons: Vec<TurnThinkingReason>) -> (r: TurnThinkingPlan)
    ensures
        (r.mode, r.reasons@) == auto_plan(reasons@),
{
    if reasons.len() == 0 {
        let mut v: Vec<TurnThinkingReason> = Vec::new();
        v.push(TurnThinkingReason::AutoCasual);
        assert(v@ =~= seq![TurnThinkingReason::AutoCasual]);
        return TurnThinkingPlan { mode: TurnThinkingMode::Fast, reasons: v };
    }
    TurnThinkingPlan { mode: TurnThinkingMode::Deep, reasons }
}

/// Routes one turn by a policy.
pub fn evaluate_policy(s: &TurnThinkingSignals, policy: &TurnThinkingPolicy, host: &HostProfile) -> (r: TurnThinkingPlan)
    ensures
        (r.mode, r.reasons@) == auto_plan(
            or_reasons(policy.or_rules@, *s, *host) + and_reasons(policy.and_groups@, *s, *host),
        ),
{
    let mut reasons: Vec<TurnThinkingReason> = Vec::new();
    push_or_reasons(&mut reasons, &policy.or_rules, s, host);
    push_and_reasons(&mut reasons, &policy.and_groups, s, host);
    assert(reasons@ =~= or_reasons(policy.or_rules@, *s, *host) + and_reasons(policy.and_groups@, *s, *host));
    plan_from_reasons(reasons)
}

/// The host's default OR rules: a long message (the host's minimum), high
/// arousal, a recent quarrel, a host keyword, a quarrel or confession this
/// turn.
pub open spec fn host_default_rules_ok(r: Seq<TurnThinkingSignalRule>, host: HostProfile) -> bool {
    &&& r.len() == 5
    &&& r[0] matches TurnThinkingSignalRule::LongMessage { min_chars } && min_chars == Some(
        host.auto_deep_min_chars as u32,
    )
    &&& r[1] is HighArousal
    &&& r[2] matches TurnThinkingSignalRule::RecentEvent { events } && strs(events@) == seq!["Quarrel"@]
    &&& r[3] matches TurnThinkingSignalRule::Keyword { keywords } && strs(keywords@) == strs(host.auto_deep_keywords@)
    &&& r[4] matches TurnThinkingSignalRule::ThisTurnEvent { events } && strs(events@) == seq![
        "Quarrel"@,
        "Confession"@,
    ]
}

pub fn host_default_or_rules(host: &HostProfile) -> (r: Vec<TurnThinkingSignalRule>)
    ensures
        host_default_rules_ok(r@, *host),
{
    let mut r: Vec<TurnThinkingSignalRule> = Vec::new();
    r.push(TurnThinkingSignalRule::LongMessage { min_chars: Some(host.auto_deep_min_chars as u32) });
    r.push(TurnThinkingSignalRule::HighArousal);
    let mut quarrel: Vec<String> = Vec::new();
    quarrel.push(crate::text::owned("Quarrel"));
    assert(strs(quarrel@) =~= seq!["Quarrel"@]);
    r.push(TurnThinkingSignalRule::RecentEvent { events: quarrel });
    r.push(TurnThinkingSignalRule::Keyword { keywords: crate::resource::model::copy_strings(&host.auto_deep_keywords) });
    let mut this_turn: Vec<String> = Vec::new();
    this_turn.push(crate::text::owned("Quarrel"));
    this_turn.push(crate::text::owned("Confession"));
    assert(strs(this_turn@) =~= seq!["Quarrel"@, "Confession"@]);
    r.push(TurnThinkingSignalRule::ThisTurnEvent { events: this_turn });
    r
}

/// The reasons the host default rules give for a turn.
pub open spec fn default_reasons(s: TurnThinkingSignals, host: HostProfile) -> Seq<TurnThinkingReason> {
    let r0: Seq<TurnThinkingReason> = if s.user_message@.len() >= (host.auto_deep_min_chars as u32) as nat {
        seq![TurnThinkingReason::AutoLongMessage]
    } else {
        Seq::empty()
    };
    let r1 = if s.high_anger || s.high_sadness || s.high_fear { r0.push(TurnThinkingReason::AutoEmotion) } else { r0 };
    let r2 = if recent_named(seq!["Quarrel"@], s.recent_events@) {
        r1.push(TurnThinkingReason::AutoEventChain)
    } else {
        r1
    };
    let r3 = if has_keyword(s.user_message@, strs(host.auto_deep_keywords@)) {
        r2.push(TurnThinkingReason::AutoDeepKeyword)
    } else {
        r2
    };
    if names_event(seq!["Quarrel"@, "Confession"@], s.this_turn_event) {
        r3.push(TurnThinkingReason::AutoThisTurnEvent)
    } else {
        r3
    }
}

proof fn lemma_default_reasons(r: Seq<TurnThinkingSignalRule>, s: TurnThinkingSignals, host: HostProfile)
    requires
        host_default_rules_ok(r, host),
    ensures
        or_reasons(r, s, host) == default_reasons(s, host),
{
    assert(r.drop_last().drop_last().drop_last().drop_last().drop_last() =~= Seq::<TurnThinkingSignalRule>::empty());
    reveal_with_fuel(or_reasons, 6);
}

/// The policy a role routes by: the host's default OR rules followed by
/// the pack's, the pack's AND groups, latch and situation summary.
pub fn effective_turn_thinking_policy(host: &HostProfile, pack: Option<RolePackTurnThinkingConfig>) -> (r:
    TurnThinkingPolicy)
    ensures
        r.or_rules@.len() >= 5,
        host_default_rules_ok(r.or_rules@.take(5), *host),
        match pack {
            Some(c) => {
                &&& r.or_rules@.skip(5) == c.deep_when_or@
                &&& r.and_groups@ == c.deep_when_and@
                &&& r.latch == c.latch
                &&& r.ephemeral == c.ephemeral_archive
            },
            None => {
                &&& r.or_rules@.len() == 5
                &&& r.and_groups@.len() == 0
                &&& r.latch.enter_on@.len() == 0
                &&& r.latch.exit_on@.len() == 0
                &&& r.ephemeral is None
            },
        },
{
    let mut or_rules = host_default_or_rules(host);
    let ghost defaults = or_rules@;
    match pack {
        Some(c) => {
            let RolePackTurnThinkingConfig { deep_when_or, deep_when_and, latch, ephemeral_archive } = c;
            let mut extra = deep_when_or;
            or_rules.append(&mut extra);
            assert(or_rules@.take(5) =~= defaults);
            assert(or_rules@.skip(5) =~= c.deep_when_or@);
            TurnThinkingPolicy { or_rules, and_groups: deep_when_and, latch, ephemeral: ephemeral_archive }
        },
        None => {
            assert(or_rules@.take(5) =~= defaults);
            TurnThinkingPolicy {
                or_rules,
                and_groups: Vec::new(),
                latch: TurnThinkingLatchConfig { enter_on: Vec::new(), exit_on: Vec::new() },
                ephemeral: None,
            }
        },
    }
}

proof fn lemma_or_reasons_concat(
    a: Seq<TurnThinkingSignalRule>,
    b: Seq<TurnThinkingSignalRule>,
    s: TurnThinkingSignals,
    host: HostProfile,
)
    ensures
        or_reasons(a + b, s, host) == or_reasons(a, s, host) + or_reasons(b, s, host),
    decreases b.len(),
{
    if b.len() == 0 {
        assert(a + b =~= a);
        assert(or_reasons(a, s, host) + Seq::<TurnThinkingReason>::empty() =~= or_reasons(a, s, host));
    } else {
        lemma_or_reasons_concat(a, b.drop_last(), s, host);
        assert((a + b).drop_last() =~= a + b.drop_last());
        assert((a + b).last() == b.last());
        let prev = or_reasons(a, s, host) + or_reasons(b.drop_last(), s, host);
        assert(prev.push(rule_reason(b.last())) =~= or_reasons(a, s, host) + or_reasons(b.drop_last(), s, host).push(
            rule_reason(b.last()),
        ));
    }
}

/// Routing a turn by the effective policy (when the host routes
/// automatically and the deep latch is off) gives the router's plan.
pub proof fn law_effective_policy_routes_like_the_router(
    host: HostProfile,
    pack_or: Seq<TurnThinkingSignalRule>,
    pack_and: Seq<TurnThinkingAndGroup>,
    s: TurnThinkingSignals,
    policy_or: Seq<TurnThinkingSignalRule>,
    policy_and: Seq<TurnThinkingAndGroup>,
)
    requires
        host.default_mode == TurnThinkingDefault::Auto,
        !s.deep_latch_active,
        policy_or.len() >= 5,
        host_default_rules_ok(policy_or.take(5), host),
        policy_or.skip(5) == pack_or,
        policy_and == pack_and,
    ensures
        auto_plan(or_reasons(policy_or, s, host) + and_reasons(policy_and, s, host)) == turn_plan(
            host,
            pack_or,
            pack_and,
            s,
        ),
{
    assert(policy_or =~= policy_or.take(5) + policy_or.skip(5));
    lemma_or_reasons_concat(policy_or.take(5), policy_or.skip(5), s, host);
    lemma_default_reasons(policy_or.take(5), s, host);
}

/// The plan of one turn: the host default when forced; under auto, Deep
/// while the latch is active, else the policy of host default rules and the
/// pack's rules.
pub open spec fn turn_plan(
    host: HostProfile,
    pack_or: Seq<TurnThinkingSignalRule>,
    pack_and: Seq<TurnThinkingAndGroup>,
    s: TurnThinkingSignals,
) -> (TurnThinkingMode, Seq<TurnThinkingReason>) {
    match host.default_mode {
        TurnThinkingDefault::Fast => (TurnThinkingMode::Fast, seq![TurnThinkingReason::ForcedDefault]),
        TurnThinkingDefault::Deep => (TurnThinkingMode::Deep, seq![TurnThinkingReason::ForcedDefault]),
        TurnThinkingDefault::Auto => if s.deep_latch_active {
            (TurnThinkingMode::Deep, seq![TurnThinkingReason::AutoDeepLatch])
        } else {
            auto_plan(default_reasons(s, host) + or_reasons(pack_or, s, host) + and_reasons(pack_and, s, host))
        },
    }
}

/// Routes one turn: the host default when forced, else the automatic
/// router over the host default rules and the role pack's rules.
pub fn resolve_turn_thinking(
    host: &HostProfile,
    pack: &Option<RolePackTurnThinkingConfig>,
    signals: &TurnThinkingSignals,
) -> (r: TurnThinkingPlan)
    ensures
        (r.mode, r.reasons@) == match pack {
            Some(c) => turn_plan(*host, c.deep_when_or@, c.deep_when_and@, *signals),
            None => turn_plan(*host, Seq::empty(), Seq::empty(), *signals),
        },
{
    match host.default_mode {
        TurnThinkingDefault::Fast => {
            let mut v: Vec<TurnThinkingReason> = Vec::new();
            v.push(TurnThinkingReason::ForcedDefault);
            assert(v@ =~= seq![TurnThinkingReason::ForcedDefault]);
            TurnThinkingPlan { mode: TurnThinkingMode::Fast, reasons: v }
        },
        TurnThinkingDefault::Deep => {
            let mut v: Vec<TurnThinkingReason> = Vec::new();
            v.push(TurnThinkingReason::ForcedDefault);
            assert(v@ =~= seq![TurnThinkingReason::ForcedDefault]);
            TurnThinkingPlan { mode: TurnThinkingMode::Deep, reasons: v }
        },
        TurnThinkingDefault::Auto => {
            if signals.deep_latch_active {
                let mut v: Vec<TurnThinkingReason> = Vec::new();
                v.push(TurnThinkingReason::AutoDeepLatch);
                assert(v@ =~= seq![TurnThinkingReason::AutoDeepLatch]);
                return TurnThinkingPlan { mode: TurnThinkingMode::Deep, reasons: v };
            }
            let defaults = host_default_or_rules(host);
            let mut reasons: Vec<TurnThinkingReason> = Vec::new();
            push_or_reasons(&mut reasons, &defaults, signals, host);
            proof {
                lemma_default_reasons(defaults@, *signals, *host);
            }
            match pack {
                Some(c) => {
                    push_or_reasons(&mut reasons, &c.deep_when_or, signals, host);
                    push_and_reasons(&mut reasons, &c.deep_when_and, signals, host);
                    assert(reasons@ =~= default_reasons(*signals, *host) + or_reasons(c.deep_when_or@, *signals, *host)
                        + and_reasons(c.deep_when_and@, *signals, *host));
                },
                None => {
                    assert(reasons@ =~= default_reasons(*signals, *host) + or_reasons(Seq::empty(), *signals, *host)
                        + and_reasons(Seq::empty(), *signals, *host));
                },
            }
            plan_from_reasons(reasons)
        },
    }
}

/// Copies `text` out of the last stored situation summary when its TTL is
/// still positive; empty otherwise.
pub open spec fn ephemeral_text(ttl: Option<u32>, text: Option<Seq<char>>) -> Seq<char> {
    match ttl {
        Some(t) => if t > 0 {
            match text {
                Some(s) => trim(s),
                None => Seq::empty(),
            }
        } else {
            Seq::empty()
        },
        None => Seq::empty(),
    }
}

/// The situation summary to put in the prompt.
pub fn ephemeral_for_prompt(snapshot_ttl: Option<u32>, snapshot_text: Option<&str>) -> (r: String)
    ensures
        r@ == ephemeral_text(snapshot_ttl, crate::theater::guardrails::opt_str(snapshot_text)),
{
    match snapshot_ttl {
        Some(t) => {
            if t > 0 {
                match snapshot_text {
                    Some(s) => crate::text::trim_str(s),
                    None => String::new(),
                }
            } else {
                String::new()
            }
        },
        None => String::new(),
    }
}

pub open spec fn label_of(event: EventType) -> Seq<char> {
    match event {
        EventType::Quarrel => "争吵"@,
        EventType::Apology => "道歉"@,
        EventType::Praise => "表扬"@,
        EventType::Complaint => "抱怨"@,
        EventType::Confession => "告白"@,
        EventType::Joke => "玩笑"@,
        EventType::Ignore => "忽视"@,
    }
}

/// The display label of an event.
pub fn event_label(event: EventType) -> (r: &'static str)
    ensures
        r@ == label_of(event),
{
    match event {
        EventType::Quarrel => "争吵",
        EventType::Apology => "道歉",
        EventType::Praise => "表扬",
        EventType::Complaint => "抱怨",
        EventType::Confession => "告白",
        EventType::Joke => "玩笑",
        EventType::Ignore => "忽视",
    }
}

/// `【label】用户：` and the trimmed message cut to `max_chars - 24`
/// characters (none when `max_chars` is at most 24).
pub open spec fn event_summary(event: EventType, msg: Seq<char>, max_chars: nat) -> Seq<char> {
    let keep: nat = if max_chars >= 24 { (max_chars - 24) as nat } else { 0 };
    "【"@ + label_of(event) + "】用户："@ + take_at_most(trim(msg), keep)
}

pub fn build_ephemeral_event_summary(event: EventType, user_message: &str, max_chars: usize) -> (r: String)
    ensures
        r@ == event_summary(event, user_message@, max_chars as nat),
{
    let t = crate::text::trim_chars(user_message);
    let snippet = crate::text::take_vec(&t, max_chars.saturating_sub(24));
    let mut out = crate::text::owned("【");
    crate::text::append(&mut out, event_label(event));
    crate::text::append(&mut out, "】用户：");
    crate::text::append_chars(&mut out, &snippet);
    out
}

/// Deep-latch writes after a turn: on when the event enters the latch,
/// then off when it leaves it.
pub open spec fn latch_writes_for(enter: Seq<Seq<char>>, exit: Seq<Seq<char>>, event: EventType) -> Seq<bool> {
    let w0: Seq<bool> = if names_event(enter, event) { seq![true] } else { Seq::empty() };
    if names_event(exit, event) { w0.push(false) } else { w0 }
}

pub fn deep_latch_writes(latch: &TurnThinkingLatchConfig, event: EventType) -> (r: Vec<bool>)
    ensures
        r@ == latch_writes_for(strs(latch.enter_on@), strs(latch.exit_on@), event),
{
    let mut r: Vec<bool> = Vec::new();
    if event_list_matches(&latch.enter_on, event) {
        r.push(true);
    }
    if event_list_matches(&latch.exit_on, event) {
        r.push(false);
    }
    assert(r@ =~= latch_writes_for(strs(latch.enter_on@), strs(latch.exit_on@), event));
    r
}

/// The stored situation summary after a turn: the old one ages by a turn
/// and is dropped at zero; an update event writes a fresh summary, a latch
/// enter or exit event writes a fixed situation line, each with a fresh TTL.
pub open spec fn next_ephemeral(
    latch: (Seq<Seq<char>>, Seq<Seq<char>>),
    update_on: Seq<Seq<char>>,
    ttl_turns: u32,
    max_chars: nat,
    event: EventType,
    msg: Seq<char>,
    ttl: u32,
    text: Seq<char>,
) -> (Seq<char>, u32) {
    let aged: u32 = if ttl > 0 { (ttl - 1) as u32 } else { 0 };
    let kept = if aged == 0 { Seq::empty() } else { text };
    if names_event(update_on, event) {
        (event_summary(event, msg, max_chars), ttl_turns)
    } else if names_event(latch.0, event) {
        ("【局面】"@ + label_of(event) + "后需认真回应，语气勿敷衍。"@, ttl_turns)
    } else if names_event(latch.1, event) {
        ("【局面】"@ + label_of(event) + "后气氛缓和，可逐步恢复正常语气。"@, ttl_turns)
    } else {
        (kept, aged)
    }
}

/// The situation summary and TTL to store after a turn, from the stored
/// ones (used when the pack enables the ephemeral archive).
pub fn next_ephemeral_state(
    latch: &TurnThinkingLatchConfig,
    cfg: &TurnThinkingEphemeralArchiveConfig,
    event: EventType,
    user_message: &str,
    ttl: u32,
    text: String,
) -> (r: (String, u32))
    ensures
        (r.0@, r.1) == next_ephemeral(
            (strs(latch.enter_on@), strs(latch.exit_on@)),
            strs(cfg.update_on_events@),
            cfg.ttl_turns,
            cfg.max_chars as nat,
            event,
            user_message@,
            ttl,
            text@,
        ),
{
    let aged: u32 = if ttl > 0 { ttl - 1 } else { 0 };
    if event_list_matches(&cfg.update_on_events, event) {
        return (build_ephemeral_event_summary(event, user_message, cfg.max_chars), cfg.ttl_turns);
    }
    if event_list_matches(&latch.enter_on, event) {
        let mut s = crate::text::owned("【局面】");
        crate::text::append(&mut s, event_label(event));
        crate::text::append(&mut s, "后需认真回应，语气勿敷衍。");
        return (s, cfg.ttl_turns);
    }
    if event_list_matches(&latch.exit_on, event) {
        let mut s = crate::text::owned("【局面】");
        crate::text::append(&mut s, event_label(event));
        crate::text::append(&mut s, "后气氛缓和，可逐步恢复正常语气。");
        return (s, cfg.ttl_turns);
    }
    if aged == 0 {
        (String::new(), aged)
    } else {
        (text, aged)
    }
}

/// A recent-event rule holds exactly when some recent event, at any
/// position, is one that a name of the rule's list (trimmed) denotes.
pub proof fn law_recent_event_rule_looks_at_every_recent_event(
    events: Vec<String>,
    s: TurnThinkingSignals,
    host: HostProfile,
)
    ensures
        rule_holds(TurnThinkingSignalRule::RecentEvent { events }, s, host) <==> exists|k: int, i: int|
            #![trigger s.recent_events@[k], events@[i]]
            0 <= k < s.recent_events@.len() && 0 <= i < events@.len() && event_named(events@[i]@) == Some(
                s.recent_events@[k],
            ),
{
    if rule_holds(TurnThinkingSignalRule::RecentEvent { events }, s, host) {
        let k = choose|k: int|
            0 <= k < s.recent_events@.len() && names_event(strs(events@), s.recent_events@[k]);
        let i = choose|i: int|
            0 <= i < strs(events@).len() && event_named(strs(events@)[i]) == Some(s.recent_events@[k]);
        assert(strs(events@)[i] == events@[i]@);
    }
    if exists|k: int, i: int|
        #![trigger s.recent_events@[k], events@[i]]
        0 <= k < s.recent_events@.len() && 0 <= i < events@.len() && event_named(events@[i]@) == Some(
            s.recent_events@[k],
        ) {
        let (k, i) = choose|k: int, i: int|
            #![trigger s.recent_events@[k], events@[i]]
            0 <= k < s.recent_events@.len() && 0 <= i < events@.len() && event_named(events@[i]@) == Some(
                s.recent_events@[k],
            );
        assert(strs(events@)[i] == events@[i]@);
        assert(names_event(strs(events@), s.recent_events@[k]));
    }
}

/// Under automatic routing with the deep latch off, a quarrel anywhere among
/// the recent events makes the turn deep, with the event-chain reason,
/// whatever the role pack adds.
pub proof fn law_recent_quarrel_makes_the_turn_deep(
    host: HostProfile,
    pack_or: Seq<TurnThinkingSignalRule>,
    pack_and: Seq<TurnThinkingAndGroup>,
    s: TurnThinkingSignals,
    k: int,
)
    requires
        host.default_mode == TurnThinkingDefault::Auto,
        !s.deep_latch_active,
        0 <= k < s.recent_events@.len(),
        s.recent_events@[k] == EventType::Quarrel,
    ensures
        turn_plan(host, pack_or, pack_and, s).0 == TurnThinkingMode::Deep,
        turn_plan(host, pack_or, pack_and, s).1.contains(TurnThinkingReason::AutoEventChain),
{
    reveal_strlit("Quarrel");
    crate::text::lemma_trim_fixed("Quarrel"@);
    assert(event_named("Quarrel"@) == Some(EventType::Quarrel));
    assert(seq!["Quarrel"@][0] == "Quarrel"@);
    assert(names_event(seq!["Quarrel"@], s.recent_events@[k]));
    assert(recent_named(seq!["Quarrel"@], s.recent_events@));
    let d = default_reasons(s, host);
    assert(d.contains(TurnThinkingReason::AutoEventChain)) by {
        let r0: Seq<TurnThinkingReason> = if s.user_message@.len() >= (host.auto_deep_min_chars as u32) as nat {
            seq![TurnThinkingReason::AutoLongMessage]
        } else {
            Seq::empty()
        };
        let r1 = if s.high_anger || s.high_sadness || s.high_fear { r0.push(TurnThinkingReason::AutoEmotion) } else { r0 };
        let r2 = r1.push(TurnThinkingReason::AutoEventChain);
        assert(r2[r1.len() as int] == TurnThinkingReason::AutoEventChain);
        let r3 = if has_keyword(s.user_message@, strs(host.auto_deep_keywords@)) {
            r2.push(TurnThinkingReason::AutoDeepKeyword)
        } else {
            r2
        };
        assert(r3[r1.len() as int] == TurnThinkingReason::AutoEventChain);
        if names_event(seq!["Quarrel"@, "Confession"@], s.this_turn_event) {
            assert(r3.push(TurnThinkingReason::AutoThisTurnEvent)[r1.len() as int] == TurnThinkingReason::AutoEventChain);
        }
    }
    let all = d + or_reasons(pack_or, s, host) + and_reasons(pack_and, s, host);
    let w = choose|w: int| 0 <= w < d.len() && d[w] == TurnThinkingReason::AutoEventChain;
    assert(all[w] == d[w]);
}

} // verus!
