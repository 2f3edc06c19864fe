//! Which LLM settings the process environment gets: the provider, the
//! environment variables and the backend, decided from the stored settings.
//! Reading the settings and writing the environment is the host's part.

use vstd::prelude::*;
use crate::resource::model::opt_view;
use crate::text::{ascii_lower_seq, trim};

verus! {

/// A stored setting, trimmed, when it is not blank.
pub open spec fn setting_value(o: Option<Seq<char>>) -> Option<Seq<char>> {
    match o {
        Some(v) => if trim(v).len() > 0 { Some(trim(v)) } else { None },
        None => None,
    }
}

pub open spec fn opt_str(o: Option<&str>) -> Option<Seq<char>> {
    match o {
        Some(s) => Some(s@),
        None => None,
    }
}

fn setting_of(o: Option<&str>) -> (r: Option<String>)
    ensures
        opt_view(r) == setting_value(opt_str(o)),
{
    match o {
        Some(v) => {
            let t = crate::text::trim_chars(v);
            if t.len() > 0 {
                Some(crate::text::string_of(&t))
            } else {
                None
            }
        },
        None => None,
    }
}

/// The stored value when set, else the environment's, else `default`.
pub open spec fn setting_or(db: Option<Seq<char>>, env: Option<Seq<char>>, default: Seq<char>) -> Seq<char> {
    match setting_value(db) {
        Some(v) => v,
        None => match env {
            Some(e) => e,
            None => default,
        },
    }
}

fn choose_setting(db: Option<&str>, env: Option<&str>, default: &str) -> (r: String)
    ensures
        r@ == setting_or(opt_str(db), opt_str(env), default@),
{
    match setting_of(db) {
        Some(v) => v,
        None => match env {
            Some(e) => crate::text::owned(e),
            None => crate::text::owned(default),
        },
    }
}

/// The global default Ollama model: the stored setting, else
/// `OLLAMA_MODEL` from the environment, else `qwen2.5:7b`.
pub fn global_ollama_model_choice(stored: Option<&str>, env_model: Option<&str>) -> (r: String)
    ensures
        r@ == setting_or(opt_str(stored), opt_str(env_model), "qwen2.5:7b"@),
{
    choose_setting(stored, env_model, "qwen2.5:7b")
}

/// The Ollama base URL: the stored setting, else `OLLAMA_BASE_URL` from the
/// environment, else the local default.
pub fn ollama_base_choice(stored: Option<&str>, env_base: Option<&str>) -> (r: String)
    ensures
        r@ == setting_or(opt_str(stored), opt_str(env_base), "http://localhost:11434"@),
{
    choose_setting(stored, env_base, "http://localhost:11434")
}

/// A cloud API token is configured: given with the request, or stored.
pub open spec fn token_configured(request: Option<Seq<char>>, stored: Option<Seq<char>>) -> bool {
    setting_value(request) is Some || setting_value(stored) is Some
}

pub fn cloud_api_token_configured(request_token: Option<&str>, stored_token: Option<&str>) -> (r: bool)
    ensures
        r == token_configured(opt_str(request_token), opt_str(stored_token)),
{
    setting_of(request_token).is_some() || setting_of(stored_token).is_some()
}

/// The stored remote token when it is not blank; otherwise the host reads
/// its token file.
pub fn remote_token_from_store(stored: Option<String>) -> (r: Option<String>)
    ensures
        r == (if setting_value(opt_view(stored)) is Some { stored } else { None }),
{
    let usable = match &stored {
        Some(s) => crate::text::trim_chars(s.as_str()).len() > 0,
        None => false,
    };
    if usable { stored } else { None }
}

/// The stored LLM settings the environment is derived from.
pub struct LlmSettings {
    pub ollama_base: Option<String>,
    pub remote_url: Option<String>,
    pub remote_token: Option<String>,
    pub cloud_style: Option<String>,
    pub provider: Option<String>,
    pub local_model_path: Option<String>,
    pub local_lora_adapter_path: Option<String>,
}

/// The stored provider, trimmed and lowercased (empty when unset).
pub open spec fn stored_provider(s: LlmSettings) -> Seq<char> {
    match opt_view(s.provider) {
        Some(p) => ascii_lower_seq(trim(p)),
        None => Seq::empty(),
    }
}

pub open spec fn remote_url_of(s: LlmSettings) -> Seq<char> {
    match opt_view(s.remote_url) {
        Some(u) => trim(u),
        None => Seq::empty(),
    }
}

/// Whether the provider is decided by a configured token: none is stored
/// and a remote URL is.
pub open spec fn needs_token_check(s: LlmSettings) -> bool {
    stored_provider(s).len() == 0 && remote_url_of(s).len() > 0
}

/// The provider in effect: `cloud` when none is stored, a remote URL is
/// and a token is configured; else the stored one.
pub open spec fn effective_provider(s: LlmSettings, token: bool) -> Seq<char> {
    if needs_token_check(s) && token {
        "cloud"@
    } else {
        stored_provider(s)
    }
}

/// `OCLIVE_LLM_BACKEND`: remote for a cloud provider with a URL, ollama
/// for a local one.
pub open spec fn backend_for(provider: Seq<char>, remote_url: Seq<char>) -> Option<Seq<char>> {
    if provider == "cloud"@ && remote_url.len() > 0 {
        Some("remote"@)
    } else if provider == "local"@ {
        Some("ollama"@)
    } else {
        None
    }
}

/// The environment variables to set (a value) or remove (none), in order.
pub open spec fn env_assignments(s: LlmSettings, token: bool) -> Seq<(Seq<char>, Option<Seq<char>>)> {
    let provider = effective_provider(s, token);
    seq![
        ("OLLAMA_BASE_URL"@, setting_value(opt_view(s.ollama_base))),
        ("OCLIVE_REMOTE_LLM_URL"@, if stored_provider(s) == "local"@ {
            None
        } else {
            setting_value(opt_view(s.remote_url))
        }),
        ("OCLIVE_REMOTE_LLM_TOKEN"@, setting_value(opt_view(s.remote_token))),
        ("OCLIVE_LLM_CLOUD_API_STYLE"@, setting_value(opt_view(s.cloud_style))),
        ("OCLIVE_LOCAL_LLM_MODEL_PATH"@, setting_value(opt_view(s.local_model_path))),
        ("OCLIVE_LOCAL_LLM_LORA_PATH"@, setting_value(opt_view(s.local_lora_adapter_path))),
        ("OCLIVE_LLM_BACKEND"@, backend_for(provider, remote_url_of(s))),
    ]
}

/// What applying the settings does.
pub struct LlmEnvPlan {
    pub provider: String,
    pub persist_cloud_provider: bool,
    pub assignments: Vec<(String, Option<String>)>,
}

pub open spec fn assignment_views(v: Seq<(String, Option<String>)>) -> Seq<(Seq<char>, Option<Seq<char>>)> {
    v.map_values(|p: (String, Option<String>)| (p.0@, opt_view(p.1)))
}

pub fn provider_needs_token_check(settings: &LlmSettings) -> (r: bool)
    ensures
        r == needs_token_check(*settings),
{
    let p = provider_of(settings);
    let u = remote_url_exec(settings);
    p.len() == 0 && u.len() > 0
}

fn provider_of(settings: &LlmSettings) -> (r: Vec<char>)
    ensures
        r@ == stored_provider(*settings),
{
    match &settings.provider {
        Some(p) => crate::text::ascii_lower_vec(&crate::text::trim_chars(p.as_str())),
        None => Vec::new(),
    }
}

fn remote_url_exec(settings: &LlmSettings) -> (r: Vec<char>)
    ensures
        r@ == remote_url_of(*settings),
{
    match &settings.remote_url {
        Some(u) => crate::text::trim_chars(u.as_str()),
        None => Vec::new(),
    }
}

fn assign(v: &mut Vec<(String, Option<String>)>, key: &str, value: Option<String>)
    ensures
        assignment_views(final(v)@) == assignment_views(old(v)@).push((key@, opt_view(value))),
{
    let ghost before = assignment_views(v@);
    v.push((crate::text::owned(key), value));
    assert(assignment_views(v@) =~= before.push((key@, opt_view(value))));
}

fn opt_setting(o: &Option<String>) -> (r: Option<String>)
    ensures
        opt_view(r) == setting_value(opt_view(*o)),
{
    match o {
        Some(s) => setting_of(Some(s.as_str())),
        None => None,
    }
}

/// The provider, whether `cloud` must be stored as the provider, and the
/// environment to apply; `token_configured` is consulted only when the
/// provider hinges on it.
pub fn llm_env_plan(settings: &LlmSettings, token_configured: bool) -> (r: LlmEnvPlan)
    ensures
        r.provider@ == effective_provider(*settings, token_configured),
        r.persist_cloud_provider == (needs_token_check(*settings) && token_configured),
        assignment_views(r.assignments@) == env_assignments(*settings, token_configured),
{
    let stored = provider_of(settings);
    let url = remote_url_exec(settings);
    let auto_cloud = stored.len() == 0 && url.len() > 0 && token_configured;
    let provider: Vec<char> = if auto_cloud {
        crate::text::chars_of("cloud")
    } else {
        let copy = crate::text::slice_vec(&stored, 0, stored.len());
        assert(copy@ =~= stored@);
        copy
    };
    let cloud = crate::text::chars_of("cloud");
    let local = crate::text::chars_of("local");
    let backend = if crate::text::seq_eq(&provider, &cloud) && url.len() > 0 {
        Some(crate::text::owned("remote"))
    } else if crate::text::seq_eq(&provider, &local) {
        Some(crate::text::owned("ollama"))
    } else {
        None
    };
    let mut v: Vec<(String, Option<String>)> = Vec::new();
    assign(&mut v, "OLLAMA_BASE_URL", opt_setting(&settings.ollama_base));
    let remote = if crate::text::seq_eq(&stored, &local) { None } else { opt_setting(&settings.remote_url) };
    assign(&mut v, "OCLIVE_REMOTE_LLM_URL", remote);
    assign(&mut v, "OCLIVE_REMOTE_LLM_TOKEN", opt_setting(&settings.remote_token));
    assign(&mut v, "OCLIVE_LLM_CLOUD_API_STYLE", opt_setting(&settings.cloud_style));
    assign(&mut v, "OCLIVE_LOCAL_LLM_MODEL_PATH", opt_setting(&settings.local_model_path));
    assign(&mut v, "OCLIVE_LOCAL_LLM_LORA_PATH", opt_setting(&settings.local_lora_adapter_path));
    assign(&mut v, "OCLIVE_LLM_BACKEND", backend);
    proof {
        reveal_strlit("remote");
        reveal_strlit("ollama");
    }
    assert(assignment_views(v@) =~= env_assignments(*settings, token_configured));
    LlmEnvPlan {
        provider: crate::text::string_of(&provider),
        persist_cloud_provider: auto_cloud,
        assignments: v,
    }
}

/// The markers after applying a settings snapshot read at `start_version`:
/// that version is applied, and the settings stay dirty when a newer
/// version arrived meanwhile.
pub fn complete_user_llm_env_apply(current_version: u64, start_version: u64) -> (r: (u64, bool))
    ensures
        r.0 == start_version,
        r.1 == (current_version != start_version),
{
    (start_version, current_version != start_version)
}

/// Applying is needed unless the settings are clean and the applied
/// version is the current one.
pub fn user_llm_env_apply_needed(dirty: bool, applied_version: u64, current_version: u64) -> (r: bool)
    ensures
        r == (dirty || applied_version != current_version),
{
    dirty || applied_version != current_version
}

/// The value `llm_env_plan` gives `OCLIVE_LLM_BACKEND`: the last
/// assignment, for that key.
pub open spec fn backend_assignment(s: LlmSettings, token: bool) -> Option<Seq<char>> {
    env_assignments(s, token)[6].1
}

/// Whenever the provider in effect is `cloud` and a remote URL is set
/// (not blank), the backend is `remote`: whether `cloud` was stored (in
/// any case, with surrounding spaces) or inferred from a configured token
/// when no provider is stored. A `local` provider selects `ollama`.
pub proof fn law_cloud_with_url_selects_remote_backend(s: LlmSettings, token: bool)
    ensures
        env_assignments(s, token)[6].0 == "OCLIVE_LLM_BACKEND"@,
        url_given(s) && stored_cloud(s) ==> backend_assignment(s, token) == Some("remote"@),
        url_given(s) && nothing_stored(s) && token ==> backend_assignment(s, token) == Some("remote"@)
            && effective_provider(s, token) == "cloud"@,
        url_given(s) && effective_provider(s, token) == "cloud"@ ==> backend_assignment(s, token) == Some("remote"@),
        effective_provider(s, token) == "local"@ ==> backend_assignment(s, token) == Some("ollama"@),
{
    reveal_strlit("cloud");
    reveal_strlit("local");
    assert("cloud"@ != "local"@) by {
        assert("cloud"@[0] != "local"@[0]);
    }
    if let Some(p) = s.provider {
        assert(ascii_lower_seq(trim(p@)).len() == trim(p@).len());
    }
}

/// A remote URL is set and not blank.
pub open spec fn url_given(s: LlmSettings) -> bool {
    match s.remote_url {
        Some(u) => trim(u@).len() > 0,
        None => false,
    }
}

/// `cloud` is stored as the provider (in any case, with surrounding spaces).
pub open spec fn stored_cloud(s: LlmSettings) -> bool {
    match s.provider {
        Some(p) => ascii_lower_seq(trim(p@)) == "cloud"@,
        None => false,
    }
}

/// No provider is stored, or only a blank one.
pub open spec fn nothing_stored(s: LlmSettings) -> bool {
    match s.provider {
        Some(p) => trim(p@).len() == 0,
        None => true,
    }
}

} // verus!
