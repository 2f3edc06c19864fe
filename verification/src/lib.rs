//! Verified host-side logic of the oclive kernel: resource admission and
//! lease bookkeeping, theater patch scenes, turn-thinking routing, plugin
//! and storage helpers.

pub mod resource;
pub mod text;
pub mod theater;
pub mod turn_thinking;
pub mod openai;
pub mod storage;
pub mod identity;
pub mod api;
pub mod flags;
pub mod visual;
pub mod llm_env;
pub mod local_models;
pub mod gguf;
pub mod capabilities;
pub mod plugins;
pub mod backends;
pub mod lora;
