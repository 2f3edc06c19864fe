# oclive_host

The host-side logic of the oclive role-play kernel, written in Verus: the
executable code is Rust and each public function carries a `requires` /
`ensures` contract that Verus proves.

## Layout

- `src/resource/` — the resource coordinator: capacity headroom, lease
  bookkeeping, admission with its state revision, candidate plans and
  their ids, the step-by-step run of a plan with its rollback, and the laws that tie these together (`laws.rs`,
  `plan_laws.rs`).
- `src/theater/` — scene guardrails, configuration flags and the
  patch-scene step function.
- `src/plugins.rs`, `src/backends.rs`, `src/capabilities.rs` — directory
  plugins (settings, ready line, bridge events, UI slot declarations and
  selection, asset paths, the scan roots and scan summary, the bootstrap), backend selection checks, session
  slot overrides, the startup health cache, and the capability registry.
- `src/local_models.rs`, `src/gguf.rs`, `src/lora.rs` — local model
  names and listings, GGUF header reading, LoRA adapter manifests and
  packages.
- `src/openai.rs`, `src/llm_env.rs`, `src/storage.rs`, `src/text.rs` and
  the remaining modules — endpoint normalisation and streaming, model
  environment settings, stored rows and search snippets (with their UTF-8
  byte offsets), and the string library the contracts are stated over.
- `app/` — plain Rust around the library: environment and file reads,
  HTTP clients, and the serde copies of the library's types.
- `tests/` — tests that run the compiled library.

Calls into outside crates (semver, serde_json, sha2, chrono, url via
reqwest) and a few std path and string functions stand behind small
trusted wrappers whose doc comments say what is assumed of them.
