//! Plugin backend selection of the six dialogue slots, and the startup
//! checks on it.

use vstd::prelude::*;
use crate::resource::model::opt_view;
use crate::text::trim;

verus! {

#[derive(Debug, Clone, Copy, PartialEq, Eq, Structural)]
pub enum MemoryBackend {
    Builtin,
    Remote,
    Local,
    Directory,
    Disabled,
}

#[derive(Debug, Clone, Copy, PartialEq, Eq, Structural)]
pub enum EmotionBackend {
    Builtin,
    Remote,
    Directory,
    Disabled,
}

#[derive(Debug, Clone, Copy, PartialEq, Eq, Structural)]
pub enum EventBackend {
    Builtin,
    Remote,
    Directory,
    Disabled,
}

#[derive(Debug, Clone, Copy, PartialEq, Eq, Structural)]
pub enum PromptBackend {
    Builtin,
    Remote,
    Directory,
    Disabled,
}

#[derive(Debug, Clone, Copy, PartialEq, Eq, Structural)]
pub enum LlmBackend {
    Ollama,
    Remote,
    Directory,
    Disabled,
}

#[derive(Debug, Clone, Copy, PartialEq, Eq, Structural)]
pub enum AgentBackend {
    Builtin,
    Remote,
    Directory,
    Disabled,
}

/// Directory plugin ids of the slots that use a directory plugin.
#[derive(Debug)]
pub struct DirectoryPluginSlots {
    pub memory: Option<String>,
    pub emotion: Option<String>,
    pub event: Option<String>,
    pub prompt: Option<String>,
    pub llm: Option<String>,
    pub agent: Option<String>,
}

/// Backend of each dialogue slot.
#[derive(Debug)]
pub struct PluginBackends {
    pub memory: MemoryBackend,
    pub emotion: EmotionBackend,
    pub event: EventBackend,
    pub prompt: PromptBackend,
    pub llm: LlmBackend,
    pub agent: AgentBackend,
    pub directory_plugins: DirectoryPluginSlots,
}

/// A plugin id that is present and not blank.
pub open spec fn id_set(id: Option<Seq<char>>) -> bool {
    match id {
        Some(s) => trim(s).len() > 0,
        None => false,
    }
}

/// The first slot, in slot order, that uses a directory plugin without an id.
pub open spec fn missing_directory_slot(pb: PluginBackends) -> Option<Seq<char>> {
    let d = pb.directory_plugins;
    if pb.memory == MemoryBackend::Directory && !id_set(opt_view(d.memory)) {
        Some("memory"@)
    } else if pb.emotion == EmotionBackend::Directory && !id_set(opt_view(d.emotion)) {
        Some("emotion"@)
    } else if pb.event == EventBackend::Directory && !id_set(opt_view(d.event)) {
        Some("event"@)
    } else if pb.prompt == PromptBackend::Directory && !id_set(opt_view(d.prompt)) {
        Some("prompt"@)
    } else if pb.llm == LlmBackend::Directory && !id_set(opt_view(d.llm)) {
        Some("llm"@)
    } else if pb.agent == AgentBackend::Directory && !id_set(opt_view(d.agent)) {
        Some("agent"@)
    } else {
        None
    }
}

pub open spec fn missing_slot_message(slot: Seq<char>) -> Seq<char> {
    "plugin_backends: `"@ + slot + "` 使用 directory 时必须配置 `directory_plugins."@ + slot + "` 为非空插件 id"@
}

fn non_empty_slot(id: &Option<String>, slot: &str) -> (r: Result<(), String>)
    ensures
        match r {
            Ok(()) => id_set(opt_view(*id)),
            Err(m) => !id_set(opt_view(*id)) && m@ == missing_slot_message(slot@),
        },
{
    let ok = match id {
        Some(s) => crate::text::trim_chars(s.as_str()).len() > 0,
        None => false,
    };
    if ok {
        Ok(())
    } else {
        let mut m = crate::text::owned("plugin_backends: `");
        crate::text::append(&mut m, slot);
        crate::text::append(&mut m, "` 使用 directory 时必须配置 `directory_plugins.");
        crate::text::append(&mut m, slot);
        crate::text::append(&mut m, "` 为非空插件 id");
        Err(m)
    }
}

/// Slots set to `directory` must name a non-blank plugin id; the first
/// slot without one is reported.
pub fn validate_plugin_backends_slots(pb: &PluginBackends) -> (r: Result<(), String>)
    ensures
        match missing_directory_slot(*pb) {
            None => r is Ok,
            Some(slot) => r matches Err(m) && m@ == missing_slot_message(slot),
        },
{
    let d = &pb.directory_plugins;
    if pb.memory == MemoryBackend::Directory {
        non_empty_slot(&d.memory, "memory")?;
    }
    if pb.emotion == EmotionBackend::Directory {
        non_empty_slot(&d.emotion, "emotion")?;
    }
    if pb.event == EventBackend::Directory {
        non_empty_slot(&d.event, "event")?;
    }
    if pb.prompt == PromptBackend::Directory {
        non_empty_slot(&d.prompt, "prompt")?;
    }
    if pb.llm == LlmBackend::Directory {
        non_empty_slot(&d.llm, "llm")?;
    }
    if pb.agent == AgentBackend::Directory {
        non_empty_slot(&d.agent, "agent")?;
    }
    Ok(())
}

/// Co-present dialogue requires prompt assembly and LLM generation: `llm`
/// and then `prompt` must not be `none`.
pub fn validate_co_present_dialogue_backends(pb: &PluginBackends) -> (r: Result<(), String>)
    ensures
        pb.llm == LlmBackend::Disabled ==> (r matches Err(m) && m@
            == "plugin_backends.llm=none is not allowed on the co-present dialogue path"@),
        pb.llm != LlmBackend::Disabled && pb.prompt == PromptBackend::Disabled ==> (r matches Err(m) && m@
            == "plugin_backends.prompt=none is not allowed on the co-present dialogue path"@),
        pb.llm != LlmBackend::Disabled && pb.prompt != PromptBackend::Disabled ==> r is Ok,
{
    if pb.llm == LlmBackend::Disabled {
        return Err(crate::text::owned("plugin_backends.llm=none is not allowed on the co-present dialogue path"));
    }
    if pb.prompt == PromptBackend::Disabled {
        return Err(crate::text::owned("plugin_backends.prompt=none is not allowed on the co-present dialogue path"));
    }
    Ok(())
}

/// Which remote endpoints are configured (non-blank environment values).
pub struct RemoteEndpoints {
    pub plugin_url_set: bool,
    pub llm_url_set: bool,
    pub agent_url_set: bool,
}

pub const REMOTE_PLUGIN_WARNING: &'static str = "plugin_backends 含 remote（memory/emotion/event/prompt），但未配置 OCLIVE_REMOTE_PLUGIN_URL；将使用占位实现，对话质量受限";
pub const REMOTE_LLM_WARNING: &'static str = "plugin_backends.llm=remote，但未配置 OCLIVE_REMOTE_LLM_URL；将使用占位 LLM 实现";
pub const REMOTE_AGENT_WARNING: &'static str = "plugin_backends.agent=remote，但未配置 OCLIVE_REMOTE_AGENT_URL；将使用占位 Agent 实现";

/// Non-fatal warnings: remote backends without endpoints degrade to
/// placeholders.
pub open spec fn placeholder_warnings(pb: PluginBackends, env: RemoteEndpoints) -> Seq<Seq<char>> {
    let plugin_remote = pb.memory == MemoryBackend::Remote || pb.emotion == EmotionBackend::Remote || pb.event
        == EventBackend::Remote || pb.prompt == PromptBackend::Remote;
    let w0: Seq<Seq<char>> = if plugin_remote && !env.plugin_url_set { seq![REMOTE_PLUGIN_WARNING@] } else { Seq::empty() };
    let w1 = if pb.llm == LlmBackend::Remote && !env.llm_url_set { w0.push(REMOTE_LLM_WARNING@) } else { w0 };
    if pb.agent == AgentBackend::Remote && !env.agent_url_set { w1.push(REMOTE_AGENT_WARNING@) } else { w1 }
}

pub fn collect_remote_backend_placeholder_warnings(pb: &PluginBackends, env: &RemoteEndpoints) -> (r: Vec<String>)
    ensures
        crate::text::views(r@) == placeholder_warnings(*pb, *env),
{
    let mut out: Vec<String> = Vec::new();
    let plugin_remote = pb.memory == MemoryBackend::Remote || pb.emotion == EmotionBackend::Remote || pb.event
        == EventBackend::Remote || pb.prompt == PromptBackend::Remote;
    let ghost w = Seq::<Seq<char>>::empty();
    assert(crate::text::views(out@) =~= w);
    if plugin_remote && !env.plugin_url_set {
        out.push(crate::text::owned(REMOTE_PLUGIN_WARNING));
    }
    if pb.llm == LlmBackend::Remote && !env.llm_url_set {
        out.push(crate::text::owned(REMOTE_LLM_WARNING));
    }
    if pb.agent == AgentBackend::Remote && !env.agent_url_set {
        out.push(crate::text::owned(REMOTE_AGENT_WARNING));
    }
    assert(crate::text::views(out@) =~= placeholder_warnings(*pb, *env));
    out
}

/// Startup warnings recorded per role.
#[derive(Debug)]
pub struct RoleWarnings {
    pub role_id: String,
    pub warnings: Vec<String>,
}

/// Every recorded warning once, in order of first appearance.
pub fn aggregated_warnings(per_role: &Vec<RoleWarnings>) -> (r: Vec<String>)
    ensures
        forall|i: int, j: int| 0 <= i < j < r@.len() ==> r@[i]@ != r@[j]@,
        forall|w: Seq<char>|
            crate::text::views(r@).contains(w) <==> exists|a: int, b: int|
                0 <= a < per_role@.len() && 0 <= b < per_role@[a].warnings@.len() && per_role@[a].warnings@[b]@ == w,
{
    let mut out: Vec<String> = Vec::new();
    let mut a: usize = 0;
    while a < per_role.len()
        invariant
            a <= per_role.len(),
            forall|i: int, j: int| 0 <= i < j < out@.len() ==> out@[i]@ != out@[j]@,
            forall|w: Seq<char>|
                #[trigger] crate::text::views(out@).contains(w) <==> exists|x: int, y: int|
                    0 <= x < a && 0 <= y < per_role@[x].warnings@.len() && per_role@[x].warnings@[y]@ == w,
        decreases per_role.len() - a,
    {
        let ws = &per_role[a].warnings;
        let mut b: usize = 0;
        while b < ws.len()
            invariant
                a < per_role.len(),
                ws == &per_role@[a as int].warnings,
                b <= ws.len(),
                forall|i: int, j: int| 0 <= i < j < out@.len() ==> out@[i]@ != out@[j]@,
                forall|w: Seq<char>|
                    #[trigger] crate::text::views(out@).contains(w) <==> ((exists|x: int, y: int|
                        0 <= x < a && 0 <= y < per_role@[x].warnings@.len() && per_role@[x].warnings@[y]@ == w)
                        || exists|y: int| 0 <= y < b && ws@[y]@ == w),
            decreases ws.len() - b,
        {
            let ghost before = crate::text::views(out@);
            let wc = crate::text::chars_of(ws[b].as_str());
            let mut pushed = false;
            if !crate::plugins::contains_str(&out, &wc) {
                out.push(ws[b].clone());
                pushed = true;
                proof {
                    assert(crate::text::views(out@) =~= before.push(wc@));
                    assert forall|i: int, j: int| 0 <= i < j < out@.len() implies out@[i]@ != out@[j]@ by {
                        if j == out@.len() - 1 {
                            assert(before[i] == out@[i]@);
                        }
                    }
                }
            }
            proof {
                if !pushed {
                    assert(crate::text::views(out@) =~= before);
                }
                assert forall|w: Seq<char>| before.contains(w) implies crate::text::views(out@).contains(w) by {
                    let k = choose|k: int| 0 <= k < before.len() && before[k] == w;
                    assert(crate::text::views(out@)[k] == w);
                }
                assert forall|w: Seq<char>| ((exists|x: int, y: int|
                    0 <= x < a && 0 <= y < per_role@[x].warnings@.len() && per_role@[x].warnings@[y]@ == w)
                    || exists|y: int| 0 <= y < b + 1 && ws@[y]@ == w) implies crate::text::views(out@).contains(w) by {
                    if exists|y: int| 0 <= y < b + 1 && ws@[y]@ == w {
                        let y = choose|y: int| 0 <= y < b + 1 && ws@[y]@ == w;
                        if y == b {
                            if pushed {
                                assert(crate::text::views(out@)[out@.len() - 1] == w);
                            } else {
                                assert(before.contains(w));
                            }
                        } else {
                            assert(before.contains(w));
                        }
                    } else {
                        assert(before.contains(w));
                    }
                }
                assert forall|w: Seq<char>| crate::text::views(out@).contains(w) implies ((exists|x: int, y: int|
                    0 <= x < a && 0 <= y < per_role@[x].warnings@.len() && per_role@[x].warnings@[y]@ == w)
                    || exists|y: int| 0 <= y < b + 1 && ws@[y]@ == w) by {
                    let k = choose|k: int| 0 <= k < crate::text::views(out@).len() && crate::text::views(out@)[k] == w;
                    if pushed && k == before.len() {
                        assert(ws@[b as int]@ == w);
                    } else {
                        assert(before[k] == w);
                        assert(before.contains(w));
                    }
                }
            }
            b = b + 1;
        }
        proof {
            assert forall|w: Seq<char>| #[trigger] crate::text::views(out@).contains(w) <==> exists|x: int, y: int|
                0 <= x < a + 1 && 0 <= y < per_role@[x].warnings@.len() && per_role@[x].warnings@[y]@ == w by {
                if exists|x: int, y: int|
                    0 <= x < a + 1 && 0 <= y < per_role@[x].warnings@.len() && per_role@[x].warnings@[y]@ == w {
                    let (x, y) = choose|x: int, y: int|
                        0 <= x < a + 1 && 0 <= y < per_role@[x].warnings@.len() && per_role@[x].warnings@[y]@ == w;
                    if x == a {
                        assert(exists|y: int| 0 <= y < ws@.len() && ws@[y]@ == w);
                    }
                }
            }
        }
        a = a + 1;
    }
    out
}


/// The backend a session override asks for, read as each slot type's
/// backend (none where the wire name is not one of that type's).
#[derive(Debug, Clone, Copy)]
pub struct BackendParses {
    pub memory: Option<MemoryBackend>,
    pub emotion: Option<EmotionBackend>,
    pub event: Option<EventBackend>,
    pub prompt: Option<PromptBackend>,
    pub llm: Option<LlmBackend>,
    pub agent: Option<AgentBackend>,
}

/// One session slot override: the slot type of its registry entry (none
/// when the role's slot registry has no entry for its key), its raw
/// backend wire name, that name's parses, and its local memory provider.
#[derive(Debug)]
pub struct SessionSlotOverride {
    pub slot_type: Option<String>,
    pub backend: Option<String>,
    pub parses: BackendParses,
    pub local_memory_provider_id: Option<String>,
}

/// The six-slot override shown for a session.
#[derive(Debug)]
pub struct PluginBackendsOverride {
    pub memory: Option<MemoryBackend>,
    pub emotion: Option<EmotionBackend>,
    pub event: Option<EventBackend>,
    pub prompt: Option<PromptBackend>,
    pub llm: Option<LlmBackend>,
    pub agent: Option<AgentBackend>,
    pub local_memory_provider_id: Option<String>,
}

/// A `PluginBackendsOverride` as plain values.
pub struct OverrideView {
    pub memory: Option<MemoryBackend>,
    pub emotion: Option<EmotionBackend>,
    pub event: Option<EventBackend>,
    pub prompt: Option<PromptBackend>,
    pub llm: Option<LlmBackend>,
    pub agent: Option<AgentBackend>,
    pub local_memory_provider_id: Option<Seq<char>>,
}

impl View for PluginBackendsOverride {
    type V = OverrideView;

    open spec fn view(&self) -> OverrideView {
        OverrideView {
            memory: self.memory,
            emotion: self.emotion,
            event: self.event,
            prompt: self.prompt,
            llm: self.llm,
            agent: self.agent,
            local_memory_provider_id: opt_view(self.local_memory_provider_id),
        }
    }
}

pub open spec fn empty_override() -> OverrideView {
    OverrideView {
        memory: None,
        emotion: None,
        event: None,
        prompt: None,
        llm: None,
        agent: None,
        local_memory_provider_id: None,
    }
}

/// One override folded in: a blank backend skips the override; a backend
/// sets the slot its entry's type names (to its parse for that type); a
/// memory entry's provider id, trimmed, replaces the provider (a blank one
/// clears it). Overrides without a registry entry are skipped.
pub open spec fn override_step(out: OverrideView, o: SessionSlotOverride) -> OverrideView {
    match o.slot_type {
        None => out,
        Some(t) => {
            let blank = match o.backend {
                Some(b) => trim(b@).len() == 0,
                None => false,
            };
            if blank {
                out
            } else {
                let tv = t@;
                let out1 = if o.backend is None {
                    out
                } else if tv == "memory"@ {
                    OverrideView { memory: o.parses.memory, ..out }
                } else if tv == "emotion"@ {
                    OverrideView { emotion: o.parses.emotion, ..out }
                } else if tv == "event"@ {
                    OverrideView { event: o.parses.event, ..out }
                } else if tv == "prompt"@ {
                    OverrideView { prompt: o.parses.prompt, ..out }
                } else if tv == "llm"@ {
                    OverrideView { llm: o.parses.llm, ..out }
                } else if tv == "agent"@ {
                    OverrideView { agent: o.parses.agent, ..out }
                } else {
                    out
                };
                if tv == "memory"@ {
                    match o.local_memory_provider_id {
                        Some(id) => OverrideView {
                            local_memory_provider_id: if trim(id@).len() == 0 {
                                None
                            } else {
                                Some(trim(id@))
                            },
                            ..out1
                        },
                        None => out1,
                    }
                } else {
                    out1
                }
            }
        },
    }
}

/// The overrides folded in, in order.
pub open spec fn override_fold(s: Seq<SessionSlotOverride>) -> OverrideView
    decreases s.len(),
{
    if s.len() == 0 {
        empty_override()
    } else {
        override_step(override_fold(s.drop_last()), s.last())
    }
}

fn step_override(out: &mut PluginBackendsOverride, o: &SessionSlotOverride)
    ensures
        final(out)@ == override_step(old(out)@, *o),
{
    proof {
        reveal_strlit("memory");
        reveal_strlit("emotion");
        reveal_strlit("event");
        reveal_strlit("prompt");
        reveal_strlit("llm");
        reveal_strlit("agent");
    }
    let t = match &o.slot_type {
        None => return,
        Some(t) => t.as_str(),
    };
    let blank = match &o.backend {
        Some(b) => crate::text::trim_chars(b.as_str()).len() == 0,
        None => false,
    };
    if blank {
        return;
    }
    if o.backend.is_some() {
        if crate::text::str_eq(t, "memory") {
            out.memory = o.parses.memory;
        } else if crate::text::str_eq(t, "emotion") {
            out.emotion = o.parses.emotion;
        } else if crate::text::str_eq(t, "event") {
            out.event = o.parses.event;
        } else if crate::text::str_eq(t, "prompt") {
            out.prompt = o.parses.prompt;
        } else if crate::text::str_eq(t, "llm") {
            out.llm = o.parses.llm;
        } else if crate::text::str_eq(t, "agent") {
            out.agent = o.parses.agent;
        }
    }
    if crate::text::str_eq(t, "memory") {
        match &o.local_memory_provider_id {
            Some(id) => {
                let tid = crate::text::trim_chars(id.as_str());
                out.local_memory_provider_id = if tid.len() == 0 {
                    None
                } else {
                    Some(crate::text::string_of(&tid))
                };
            },
            None => {},
        }
    }
}

/// The session's slot overrides folded into a six-slot override, in the
/// order given; none when the role has no slot registry or nothing was set.
pub fn plugin_backends_override_from_slot_session(has_slot_registry: bool, overrides: &Vec<SessionSlotOverride>) -> (r:
    Option<PluginBackendsOverride>)
    ensures
        !has_slot_registry ==> r is None,
        has_slot_registry ==> match r {
            Some(o) => o@ == override_fold(overrides@) && override_fold(overrides@) != empty_override(),
            None => override_fold(overrides@) == empty_override(),
        },
{
    if !has_slot_registry {
        return None;
    }
    let mut out = PluginBackendsOverride {
        memory: None,
        emotion: None,
        event: None,
        prompt: None,
        llm: None,
        agent: None,
        local_memory_provider_id: None,
    };
    let mut i: usize = 0;
    while i < overrides.len()
        invariant
            i <= overrides@.len(),
            out@ == override_fold(overrides@.take(i as int)),
        decreases overrides.len() - i,
    {
        assert(overrides@.take(i + 1).drop_last() =~= overrides@.take(i as int));
        step_override(&mut out, &overrides[i]);
        i = i + 1;
    }
    assert(overrides@.take(i as int) =~= overrides@);
    if out.memory.is_none() && out.emotion.is_none() && out.event.is_none() && out.prompt.is_none() && out.llm.is_none()
        && out.agent.is_none() && out.local_memory_provider_id.is_none() {
        None
    } else {
        Some(out)
    }
}

/// How long a failed startup check is remembered before it is retried.
pub const FAILURE_RETRY_TTL_MS: u64 = 120_000;

/// A remembered failed startup check of a role.
#[derive(Debug)]
pub struct HealthFailure {
    pub role_id: String,
    pub message: String,
    pub at_ms: u64,
}

/// Startup check outcomes per role: successes are kept for good, failures
/// are retried after `FAILURE_RETRY_TTL_MS`, and each role's non-fatal
/// warnings are kept for the aggregate.
#[derive(Debug)]
pub struct StartupHealthCache {
    pub successes: Vec<String>,
    pub failures: Vec<HealthFailure>,
    pub per_role_warnings: Vec<RoleWarnings>,
}

/// The remembered failure of role `id`.
pub open spec fn failure_of(f: Seq<HealthFailure>, id: Seq<char>) -> Option<(Seq<char>, u64)> {
    if exists|i: int| 0 <= i < f.len() && #[trigger] f[i].role_id@ == id {
        let i = choose|i: int| 0 <= i < f.len() && #[trigger] f[i].role_id@ == id;
        Some((f[i].message@, f[i].at_ms))
    } else {
        None
    }
}

/// The recorded warnings of role `id`.
pub open spec fn warnings_of(w: Seq<RoleWarnings>, id: Seq<char>) -> Option<Seq<Seq<char>>> {
    if exists|i: int| 0 <= i < w.len() && #[trigger] w[i].role_id@ == id {
        let i = choose|i: int| 0 <= i < w.len() && #[trigger] w[i].role_id@ == id;
        Some(crate::text::views(w[i].warnings@))
    } else {
        None
    }
}

/// Role `id` passed its startup check.
pub open spec fn succeeded(s: Seq<String>, id: Seq<char>) -> bool {
    crate::text::views(s).contains(id)
}

impl StartupHealthCache {
    /// Each role has at most one remembered failure and one warning list.
    pub open spec fn wf(&self) -> bool {
        &&& forall|a: int, b: int|
            0 <= a < b < self.failures@.len() ==> self.failures@[a].role_id@ != self.failures@[b].role_id@
        &&& forall|a: int, b: int|
            0 <= a < b < self.per_role_warnings@.len() ==> self.per_role_warnings@[a].role_id@
                != self.per_role_warnings@[b].role_id@
    }

    pub fn new() -> (c: Self)
        ensures
            c.wf(),
            c.successes@.len() == 0,
            c.failures@.len() == 0,
            c.per_role_warnings@.len() == 0,
    {
        StartupHealthCache { successes: Vec::new(), failures: Vec::new(), per_role_warnings: Vec::new() }
    }

    /// The remembered outcome of role `role_id` at `now_ms`: a success for
    /// good, a failure while younger than `FAILURE_RETRY_TTL_MS`, else none
    /// (the check runs again).
    pub fn cached_outcome(&self, role_id: &str, now_ms: u64) -> (r: Option<Result<(), String>>)
        requires
            self.wf(),
        ensures
            succeeded(self.successes@, role_id@) ==> r == Some(Ok::<(), String>(())),
            !succeeded(self.successes@, role_id@) ==> match failure_of(self.failures@, role_id@) {
                Some((m, at)) => if (if now_ms >= at { now_ms - at } else { 0 }) < FAILURE_RETRY_TTL_MS {
                    r matches Some(Err(e)) && e@ == m
                } else {
                    r is None
                },
                None => r is None,
            },
    {
        let id = crate::text::chars_of(role_id);
        if crate::plugins::contains_str(&self.successes, &id) {
            return Some(Ok(()));
        }
        let mut i: usize = 0;
        while i < self.failures.len()
            invariant
                i <= self.failures@.len(),
                id@ == role_id@,
                self.wf(),
                !succeeded(self.successes@, role_id@),
                forall|j: int| 0 <= j < i ==> #[trigger] self.failures@[j].role_id@ != role_id@,
            decreases self.failures.len() - i,
        {
            let f = &self.failures[i];
            if crate::text::str_eq(f.role_id.as_str(), role_id) {
                proof {
                    let c = choose|c: int| 0 <= c < self.failures@.len() && #[trigger] self.failures@[c].role_id@ == role_id@;
                    if c != i {
                        if c < i {
                            assert(self.failures@[c].role_id@ != role_id@);
                        } else {
                            assert(self.failures@[i as int].role_id@ != self.failures@[c].role_id@);
                        }
                    }
                }
                let elapsed = if now_ms >= f.at_ms { now_ms - f.at_ms } else { 0 };
                if elapsed < FAILURE_RETRY_TTL_MS {
                    return Some(Err(f.message.clone()));
                }
                return None;
            }
            i = i + 1;
        }
        None
    }

    /// Records the outcome of a startup check of `role_id` at `now_ms`:
    /// the role's old failure is dropped; a success is kept for good, a
    /// failure remembered with its time; the role's warnings replace its
    /// old ones (an empty list drops them).
    pub fn record(&mut self, role_id: &str, outcome: Result<(), String>, warnings: Vec<String>, now_ms: u64)
        requires
            old(self).wf(),
        ensures
            final(self).wf(),
            forall|id: Seq<char>|
                #[trigger] succeeded(final(self).successes@, id) == (succeeded(old(self).successes@, id) || (id
                    == role_id@ && outcome is Ok)),
            forall|id: Seq<char>|
                #[trigger] failure_of(final(self).failures@, id) == if id == role_id@ {
                    match outcome {
                        Ok(_) => None,
                        Err(m) => Some((m@, now_ms)),
                    }
                } else {
                    failure_of(old(self).failures@, id)
                },
            forall|id: Seq<char>|
                #[trigger] warnings_of(final(self).per_role_warnings@, id) == if id == role_id@ {
                    if warnings@.len() == 0 {
                        None
                    } else {
                        Some(crate::text::views(warnings@))
                    }
                } else {
                    warnings_of(old(self).per_role_warnings@, id)
                },
    {
        let mut failures = Vec::new();
        std::mem::swap(&mut failures, &mut self.failures);
        let mut kept = drop_failure(failures, role_id);
        let mut lists = Vec::new();
        std::mem::swap(&mut lists, &mut self.per_role_warnings);
        let mut kept_lists = drop_warnings(lists, role_id);
        let ghost fk = kept@;
        let ghost wk = kept_lists@;
        if warnings.len() > 0 {
            kept_lists.push(RoleWarnings { role_id: crate::text::owned(role_id), warnings });
        }
        let ghost sv = self.successes@;
        let ghost go = outcome;
        let ghost wl = kept_lists@;
        proof {
            if warnings@.len() > 0 {
                assert(wl.drop_last() =~= wk);
            } else {
                assert(wl == wk);
            }
        }
        match outcome {
            Ok(()) => {
                self.successes.push(crate::text::owned(role_id));
            },
            Err(m) => {
                kept.push(HealthFailure { role_id: crate::text::owned(role_id), message: m, at_ms: now_ms });
            },
        }
        self.failures = kept;
        self.per_role_warnings = kept_lists;
        proof {
            assert forall|id: Seq<char>|
                #[trigger] succeeded(self.successes@, id) == (succeeded(sv, id) || (id == role_id@ && outcome is Ok)) by {
                if outcome is Ok {
                    assert(crate::text::views(self.successes@) =~= crate::text::views(sv).push(role_id@));
                    if crate::text::views(sv).contains(id) {
                        let k = choose|k: int| 0 <= k < crate::text::views(sv).len() && crate::text::views(sv)[k] == id;
                        assert(crate::text::views(self.successes@)[k] == id);
                    }
                    if id == role_id@ {
                        assert(crate::text::views(self.successes@)[sv.len() as int] == id);
                    }
                } else {
                    assert(self.successes@ == sv);
                }
            }
            if go is Err {
                assert(self.failures@.drop_last() =~= fk);
            }
            lemma_push_failure(fk, role_id@, go, now_ms, self.failures@);
            lemma_push_warnings(wk, role_id@, warnings@, self.per_role_warnings@);
        }
    }

    /// The warnings recorded across roles, each once.
    pub fn aggregated_warnings(&self) -> (r: Vec<String>)
        ensures
            forall|i: int, j: int| 0 <= i < j < r@.len() ==> r@[i]@ != r@[j]@,
            forall|w: Seq<char>|
                crate::text::views(r@).contains(w) <==> exists|a: int, b: int|
                    0 <= a < self.per_role_warnings@.len() && 0 <= b < self.per_role_warnings@[a].warnings@.len()
                        && self.per_role_warnings@[a].warnings@[b]@ == w,
    {
        aggregated_warnings(&self.per_role_warnings)
    }
}

/// Failures without role `id`'s.
fn drop_failure(f: Vec<HealthFailure>, id: &str) -> (r: Vec<HealthFailure>)
    requires
        forall|a: int, b: int| 0 <= a < b < f@.len() ==> f@[a].role_id@ != f@[b].role_id@,
    ensures
        forall|a: int, b: int| 0 <= a < b < r@.len() ==> r@[a].role_id@ != r@[b].role_id@,
        forall|k: int| 0 <= k < r@.len() ==> #[trigger] r@[k].role_id@ != id@,
        forall|x: Seq<char>| x != id@ ==> #[trigger] failure_of(r@, x) == failure_of(f@, x),
{
    let mut f = f;
    let ghost orig = f@;
    let mut r: Vec<HealthFailure> = Vec::new();
    let ghost mut src: Seq<int> = Seq::empty();
    while f.len() > 0
        invariant
            f@ == orig.take(f@.len() as int),
            f@.len() <= orig.len(),
            forall|a: int, b: int| 0 <= a < b < orig.len() ==> orig[a].role_id@ != orig[b].role_id@,
            r@.len() == src.len(),
            forall|k: int| 0 <= k < r@.len() ==> f@.len() <= #[trigger] src[k] < orig.len() && r@[k] == orig[src[k]],
            forall|k: int| 0 <= k < r@.len() ==> #[trigger] r@[k].role_id@ != id@,
            forall|a: int, b: int| 0 <= a < b < r@.len() ==> src[a] != src[b],
            forall|j: int| f@.len() <= j < orig.len() && #[trigger] orig[j].role_id@ != id@ ==> exists|k: int|
                0 <= k < r@.len() && src[k] == j,
        decreases f.len(),
    {
        let ghost before = f@;
        let item = f.pop().unwrap();
        let ghost j = f@.len() as int;
        assert(before[j] == item);
        assert(f@ =~= orig.take(j));
        if !crate::text::str_eq(item.role_id.as_str(), id) {
            let ghost rs = r@;
            r.push(item);
            proof {
                let ns = src.push(j);
                assert forall|q: int| j <= q < orig.len() && #[trigger] orig[q].role_id@ != id@ implies exists|k: int|
                    0 <= k < r@.len() && ns[k] == q by {
                    if q == j {
                        assert(ns[rs.len() as int] == j);
                    } else {
                        let k = choose|k: int| 0 <= k < rs.len() && src[k] == q;
                        assert(ns[k] == q);
                    }
                }
                src = ns;
            }
        }
    }
    proof {
        assert forall|a: int, b: int| 0 <= a < b < r@.len() implies r@[a].role_id@ != r@[b].role_id@ by {
            assert(src[a] != src[b]);
            if src[a] < src[b] {
                assert(orig[src[a]].role_id@ != orig[src[b]].role_id@);
            } else {
                assert(orig[src[b]].role_id@ != orig[src[a]].role_id@);
            }
        }
        assert forall|x: Seq<char>| x != id@ implies #[trigger] failure_of(r@, x) == failure_of(orig, x) by {
            if exists|i: int| 0 <= i < orig.len() && #[trigger] orig[i].role_id@ == x {
                let i = choose|i: int| 0 <= i < orig.len() && #[trigger] orig[i].role_id@ == x;
                let k = choose|k: int| 0 <= k < r@.len() && src[k] == i;
                assert(r@[k].role_id@ == x);
                let k2 = choose|k2: int| 0 <= k2 < r@.len() && #[trigger] r@[k2].role_id@ == x;
                if src[k2] != i {
                    if src[k2] < i {
                        assert(orig[src[k2]].role_id@ != orig[i].role_id@);
                    } else {
                        assert(orig[i].role_id@ != orig[src[k2]].role_id@);
                    }
                }
            } else {
                if exists|k: int| 0 <= k < r@.len() && #[trigger] r@[k].role_id@ == x {
                    let k = choose|k: int| 0 <= k < r@.len() && #[trigger] r@[k].role_id@ == x;
                    assert(orig[src[k]].role_id@ == x);
                }
            }
        }
    }
    r
}

/// Warning lists without role `id`'s.
fn drop_warnings(f: Vec<RoleWarnings>, id: &str) -> (r: Vec<RoleWarnings>)
    requires
        forall|a: int, b: int| 0 <= a < b < f@.len() ==> f@[a].role_id@ != f@[b].role_id@,
    ensures
        forall|a: int, b: int| 0 <= a < b < r@.len() ==> r@[a].role_id@ != r@[b].role_id@,
        forall|k: int| 0 <= k < r@.len() ==> #[trigger] r@[k].role_id@ != id@,
        forall|x: Seq<char>| x != id@ ==> #[trigger] warnings_of(r@, x) == warnings_of(f@, x),
{
    let mut f = f;
    let ghost orig = f@;
    let mut r: Vec<RoleWarnings> = Vec::new();
    let ghost mut src: Seq<int> = Seq::empty();
    while f.len() > 0
        invariant
            f@ == orig.take(f@.len() as int),
            f@.len() <= orig.len(),
            forall|a: int, b: int| 0 <= a < b < orig.len() ==> orig[a].role_id@ != orig[b].role_id@,
            r@.len() == src.len(),
            forall|k: int| 0 <= k < r@.len() ==> f@.len() <= #[trigger] src[k] < orig.len() && r@[k] == orig[src[k]],
            forall|k: int| 0 <= k < r@.len() ==> #[trigger] r@[k].role_id@ != id@,
            forall|a: int, b: int| 0 <= a < b < r@.len() ==> src[a] != src[b],
            forall|j: int| f@.len() <= j < orig.len() && #[trigger] orig[j].role_id@ != id@ ==> exists|k: int|
                0 <= k < r@.len() && src[k] == j,
        decreases f.len(),
    {
        let ghost before = f@;
        let item = f.pop().unwrap();
        let ghost j = f@.len() as int;
        assert(before[j] == item);
        assert(f@ =~= orig.take(j));
        if !crate::text::str_eq(item.role_id.as_str(), id) {
            let ghost rs = r@;
            r.push(item);
            proof {
                let ns = src.push(j);
                assert forall|q: int| j <= q < orig.len() && #[trigger] orig[q].role_id@ != id@ implies exists|k: int|
                    0 <= k < r@.len() && ns[k] == q by {
                    if q == j {
                        assert(ns[rs.len() as int] == j);
                    } else {
                        let k = choose|k: int| 0 <= k < rs.len() && src[k] == q;
                        assert(ns[k] == q);
                    }
                }
                src = ns;
            }
        }
    }
    proof {
        assert forall|a: int, b: int| 0 <= a < b < r@.len() implies r@[a].role_id@ != r@[b].role_id@ by {
            assert(src[a] != src[b]);
            if src[a] < src[b] {
                assert(orig[src[a]].role_id@ != orig[src[b]].role_id@);
            } else {
                assert(orig[src[b]].role_id@ != orig[src[a]].role_id@);
            }
        }
        assert forall|x: Seq<char>| x != id@ implies #[trigger] warnings_of(r@, x) == warnings_of(orig, x) by {
            if exists|i: int| 0 <= i < orig.len() && #[trigger] orig[i].role_id@ == x {
                let i = choose|i: int| 0 <= i < orig.len() && #[trigger] orig[i].role_id@ == x;
                let k = choose|k: int| 0 <= k < r@.len() && src[k] == i;
                assert(r@[k].role_id@ == x);
                let k2 = choose|k2: int| 0 <= k2 < r@.len() && #[trigger] r@[k2].role_id@ == x;
                if src[k2] != i {
                    if src[k2] < i {
                        assert(orig[src[k2]].role_id@ != orig[i].role_id@);
                    } else {
                        assert(orig[i].role_id@ != orig[src[k2]].role_id@);
                    }
                }
            } else {
                if exists|k: int| 0 <= k < r@.len() && #[trigger] r@[k].role_id@ == x {
                    let k = choose|k: int| 0 <= k < r@.len() && #[trigger] r@[k].role_id@ == x;
                    assert(orig[src[k]].role_id@ == x);
                }
            }
        }
    }
    r
}


/// After the old entry of `id` was dropped, adding the failure (if any)
/// leaves every other role's failure as it was.
proof fn lemma_push_failure(
    fk: Seq<HealthFailure>,
    id: Seq<char>,
    outcome: Result<(), String>,
    now_ms: u64,
    fin: Seq<HealthFailure>,
)
    requires
        forall|a: int, b: int| 0 <= a < b < fk.len() ==> fk[a].role_id@ != fk[b].role_id@,
        forall|k: int| 0 <= k < fk.len() ==> #[trigger] fk[k].role_id@ != id,
        outcome is Ok ==> fin == fk,
        outcome matches Err(m) ==> fin.len() == fk.len() + 1 && fin.drop_last() == fk && fin.last().role_id@ == id
            && fin.last().message@ == m@ && fin.last().at_ms == now_ms,
    ensures
        forall|a: int, b: int| 0 <= a < b < fin.len() ==> fin[a].role_id@ != fin[b].role_id@,
        forall|x: Seq<char>|
            #[trigger] failure_of(fin, x) == if x == id {
                match outcome {
                    Ok(_) => None,
                    Err(m) => Some((m@, now_ms)),
                }
            } else {
                failure_of(fk, x)
            },
{
    if outcome is Err {
        assert forall|k: int| 0 <= k < fk.len() implies fin[k] == fk[k] by {
            assert(fin.drop_last()[k] == fin[k]);
        }
    }
    assert forall|x: Seq<char>|
        #[trigger] failure_of(fin, x) == if x == id {
            match outcome {
                Ok(_) => None,
                Err(m) => Some((m@, now_ms)),
            }
        } else {
            failure_of(fk, x)
        } by {
        if outcome is Err {
            if exists|i: int| 0 <= i < fin.len() && #[trigger] fin[i].role_id@ == x {
                let i = choose|i: int| 0 <= i < fin.len() && #[trigger] fin[i].role_id@ == x;
                if x == id {
                    if i < fk.len() {
                        assert(fk[i].role_id@ != id);
                    }
                } else {
                    assert(i < fk.len());
                    assert(fk[i].role_id@ == x);
                    let j = choose|j: int| 0 <= j < fk.len() && #[trigger] fk[j].role_id@ == x;
                    if i != j {
                        if i < j {
                            assert(fk[i].role_id@ != fk[j].role_id@);
                        } else {
                            assert(fk[j].role_id@ != fk[i].role_id@);
                        }
                    }
                }
            } else {
                if x == id {
                    assert(fin[fk.len() as int].role_id@ == x);
                } else if exists|j: int| 0 <= j < fk.len() && #[trigger] fk[j].role_id@ == x {
                    let j = choose|j: int| 0 <= j < fk.len() && #[trigger] fk[j].role_id@ == x;
                    assert(fin[j].role_id@ == x);
                }
            }
        }
    }
}

/// After the old list of `id` was dropped, adding the new nonempty list
/// leaves every other role's list as it was.
proof fn lemma_push_warnings(wk: Seq<RoleWarnings>, id: Seq<char>, warnings: Seq<String>, fin: Seq<RoleWarnings>)
    requires
        forall|a: int, b: int| 0 <= a < b < wk.len() ==> wk[a].role_id@ != wk[b].role_id@,
        forall|k: int| 0 <= k < wk.len() ==> #[trigger] wk[k].role_id@ != id,
        warnings.len() == 0 ==> fin == wk,
        warnings.len() > 0 ==> fin.len() == wk.len() + 1 && fin.drop_last() == wk && fin.last().role_id@ == id
            && fin.last().warnings@ == warnings,
    ensures
        forall|a: int, b: int| 0 <= a < b < fin.len() ==> fin[a].role_id@ != fin[b].role_id@,
        forall|x: Seq<char>|
            #[trigger] warnings_of(fin, x) == if x == id {
                if warnings.len() == 0 {
                    None
                } else {
                    Some(crate::text::views(warnings))
                }
            } else {
                warnings_of(wk, x)
            },
{
    if warnings.len() > 0 {
        assert forall|k: int| 0 <= k < wk.len() implies fin[k] == wk[k] by {
            assert(fin.drop_last()[k] == fin[k]);
        }
    }
    assert forall|x: Seq<char>|
        #[trigger] warnings_of(fin, x) == if x == id {
            if warnings.len() == 0 {
                None
            } else {
                Some(crate::text::views(warnings))
            }
        } else {
            warnings_of(wk, x)
        } by {
        if warnings.len() > 0 {
            if exists|i: int| 0 <= i < fin.len() && #[trigger] fin[i].role_id@ == x {
                let i = choose|i: int| 0 <= i < fin.len() && #[trigger] fin[i].role_id@ == x;
                if x == id {
                    if i < wk.len() {
                        assert(wk[i].role_id@ != id);
                    }
                } else {
                    assert(i < wk.len());
                    assert(wk[i].role_id@ == x);
                    let j = choose|j: int| 0 <= j < wk.len() && #[trigger] wk[j].role_id@ == x;
                    if i != j {
                        if i < j {
                            assert(wk[i].role_id@ != wk[j].role_id@);
                        } else {
                            assert(wk[j].role_id@ != wk[i].role_id@);
                        }
                    }
                }
            } else {
                if x == id {
                    assert(fin[wk.len() as int].role_id@ == x);
                } else if exists|j: int| 0 <= j < wk.len() && #[trigger] wk[j].role_id@ == x {
                    let j = choose|j: int| 0 <= j < wk.len() && #[trigger] wk[j].role_id@ == x;
                    assert(fin[j].role_id@ == x);
                }
            }
        }
    }
}

/// `id` names a plugin: it is given and has a character that is not
/// whitespace.
pub open spec fn names_plugin(id: Option<String>) -> bool {
    exists|s: String| id == Some(s) && exists|k: int| 0 <= k < s@.len() && !crate::text::is_ws(#[trigger] s@[k])
}

proof fn lemma_names_plugin(id: Option<String>)
    ensures
        names_plugin(id) <==> id_set(opt_view(id)),
{
    if let Some(s) = id {
        crate::text::lemma_trim_start_shape(s@);
        crate::text::lemma_trim_end_shape(crate::text::trim_start(s@));
        lemma_trim_nonempty_iff(s@);
        if id_set(opt_view(id)) {
            let k = choose|k: int| 0 <= k < s@.len() && !crate::text::is_ws(s@[k]);
            assert(id == Some(s));
        }
    }
}

/// A text trims to something nonempty exactly when some character of it
/// is not whitespace.
proof fn lemma_trim_nonempty_iff(s: Seq<char>)
    ensures
        trim(s).len() > 0 <==> exists|k: int| 0 <= k < s.len() && !crate::text::is_ws(#[trigger] s[k]),
    decreases s.len(),
{
    if s.len() > 0 {
        if crate::text::is_ws(s[0]) {
            lemma_trim_nonempty_iff(s.drop_first());
            assert(trim(s) == trim(s.drop_first()));
            if exists|k: int| 0 <= k < s.len() && !crate::text::is_ws(#[trigger] s[k]) {
                let k = choose|k: int| 0 <= k < s.len() && !crate::text::is_ws(#[trigger] s[k]);
                assert(s.drop_first()[k - 1] == s[k]);
            }
            if exists|k: int| 0 <= k < s.drop_first().len() && !crate::text::is_ws(#[trigger] s.drop_first()[k]) {
                let k = choose|k: int| 0 <= k < s.drop_first().len() && !crate::text::is_ws(#[trigger] s.drop_first()[k]);
                assert(s[k + 1] == s.drop_first()[k]);
            }
        } else {
            crate::text::lemma_trim_end_shape(s);
            lemma_trim_end_keeps_first(s);
        }
    }
}

/// `trim_end` keeps a text whose first character is not whitespace
/// nonempty.
proof fn lemma_trim_end_keeps_first(s: Seq<char>)
    requires
        s.len() > 0,
        !crate::text::is_ws(s[0]),
    ensures
        crate::text::trim_end(s).len() > 0,
    decreases s.len(),
{
    if s.len() > 1 && crate::text::is_ws(s.last()) {
        lemma_trim_end_keeps_first(s.drop_last());
    }
}

/// Startup validation accepts the plugin backends exactly when every
/// slot set to `directory` (memory, emotion, event, prompt, llm, agent)
/// names a plugin; when it refuses, the slot it reports is set to
/// `directory` and names none.
pub proof fn law_directory_slots_need_plugin_ids(pb: PluginBackends)
    ensures
        missing_directory_slot(pb) is None <==> {
            let d = pb.directory_plugins;
            &&& pb.memory == MemoryBackend::Directory ==> names_plugin(d.memory)
            &&& pb.emotion == EmotionBackend::Directory ==> names_plugin(d.emotion)
            &&& pb.event == EventBackend::Directory ==> names_plugin(d.event)
            &&& pb.prompt == PromptBackend::Directory ==> names_plugin(d.prompt)
            &&& pb.llm == LlmBackend::Directory ==> names_plugin(d.llm)
            &&& pb.agent == AgentBackend::Directory ==> names_plugin(d.agent)
        },
        missing_directory_slot(pb) matches Some(slot) ==> {
            let d = pb.directory_plugins;
            ||| slot == "memory"@ && pb.memory == MemoryBackend::Directory && !names_plugin(d.memory)
            ||| slot == "emotion"@ && pb.emotion == EmotionBackend::Directory && !names_plugin(d.emotion)
            ||| slot == "event"@ && pb.event == EventBackend::Directory && !names_plugin(d.event)
            ||| slot == "prompt"@ && pb.prompt == PromptBackend::Directory && !names_plugin(d.prompt)
            ||| slot == "llm"@ && pb.llm == LlmBackend::Directory && !names_plugin(d.llm)
            ||| slot == "agent"@ && pb.agent == AgentBackend::Directory && !names_plugin(d.agent)
        },
{
    let d = pb.directory_plugins;
    lemma_names_plugin(d.memory);
    lemma_names_plugin(d.emotion);
    lemma_names_plugin(d.event);
    lemma_names_plugin(d.prompt);
    lemma_names_plugin(d.llm);
    lemma_names_plugin(d.agent);
}

} // verus!
