//! Theater scenes: drama guardrail prompt blocks, director tunables and the
//! poke patch mode (prefix + prose patch + immutable skeleton tail).

pub mod guardrails;
pub mod config;
pub mod dto;
pub mod patch;
