//! Theater scene director tunables. Each takes the raw value of its
//! override variable (absent when unset) and applies default and bounds.

use vstd::prelude::*;
use crate::text::{ascii_lower_seq, parse_unsigned, trim};
use crate::theater::guardrails::opt_str;

verus! {

pub const DEFAULT_RIPPLE_MAX_BEATS: u32 = 12;
pub const DEFAULT_SCENE_LLM_TIMEOUT_SECS: u64 = 25;
/// Cast rewrite runs two LLM attempts; small models need more time per attempt than ripple poke.
pub const DEFAULT_CAST_REWRITE_LLM_TIMEOUT_SECS: u64 = 45;
pub const DEFAULT_CAST_REWRITE_MIN_BEATS: u32 = 4;
pub const DEFAULT_PATCH_MAX_LINES: u32 = 4;

/// The trimmed override parsed as an unsigned number at most `max`, else
/// `default`.
pub open spec fn parsed_or(raw: Option<Seq<char>>, max: nat, default: nat) -> nat {
    match raw {
        Some(s) => match parse_unsigned(trim(s), max) {
            Some(n) => n,
            None => default,
        },
        None => default,
    }
}

pub open spec fn clamped(v: nat, lo: nat, hi: nat) -> nat {
    if v < lo {
        lo
    } else if v > hi {
        hi
    } else {
        v
    }
}

/// A boolean override: `1`, `true` or `yes` in any ASCII case, after
/// trimming; anything else is false; absent gives `default`.
pub open spec fn flag_or(raw: Option<Seq<char>>, default: bool) -> bool {
    match raw {
        Some(s) => {
            let t = ascii_lower_seq(trim(s));
            t == "1"@ || t == "true"@ || t == "yes"@
        },
        None => default,
    }
}

fn parse_u32_or(raw: Option<&str>, default: u32) -> (r: u32)
    ensures
        r == parsed_or(opt_str(raw), u32::MAX as nat, default as nat),
{
    match raw {
        Some(s) => {
            let t = crate::text::trim_chars(s);
            match crate::text::parse_u32_chars(&t) {
                Some(n) => n,
                None => default,
            }
        },
        None => default,
    }
}

fn parse_u64_or(raw: Option<&str>, default: u64) -> (r: u64)
    ensures
        r == parsed_or(opt_str(raw), u64::MAX as nat, default as nat),
{
    match raw {
        Some(s) => {
            let t = crate::text::trim_chars(s);
            match crate::text::parse_u64_chars(&t) {
                Some(n) => n,
                None => default,
            }
        },
        None => default,
    }
}

/// A boolean override read as `1`, `true` or `yes`.
pub fn flag_value(raw: Option<&str>, default: bool) -> (r: bool)
    ensures
        r == flag_or(opt_str(raw), default),
{
    match raw {
        Some(s) => {
            let t = crate::text::ascii_lower_vec(&crate::text::trim_chars(s));
            let one = crate::text::chars_of("1");
            let yes = crate::text::chars_of("yes");
            let tr = crate::text::chars_of("true");
            crate::text::seq_eq(&t, &one) || crate::text::seq_eq(&t, &tr) || crate::text::seq_eq(&t, &yes)
        },
        None => default,
    }
}

fn clamp_u32(v: u32, lo: u32, hi: u32) -> (r: u32)
    requires
        lo <= hi,
    ensures
        r == clamped(v as nat, lo as nat, hi as nat),
{
    if v < lo {
        lo
    } else if v > hi {
        hi
    } else {
        v
    }
}

fn clamp_u64(v: u64, lo: u64, hi: u64) -> (r: u64)
    requires
        lo <= hi,
    ensures
        r == clamped(v as nat, lo as nat, hi as nat),
{
    if v < lo {
        lo
    } else if v > hi {
        hi
    } else {
        v
    }
}

/// Max beats the LLM may output for the ripple zone
/// (`OCLIVE_THEATER_RIPPLE_MAX_BEATS`, default 12, within 4..=64).
pub fn ripple_max_beats(raw: Option<&str>) -> (r: u32)
    ensures
        r == clamped(parsed_or(opt_str(raw), u32::MAX as nat, 12), 4, 64),
{
    clamp_u32(parse_u32_or(raw, DEFAULT_RIPPLE_MAX_BEATS), 4, 64)
}

/// Per-attempt LLM timeout for scene director
/// (`OCLIVE_THEATER_SCENE_TIMEOUT_SECS`, default 25, within 5..=120).
pub fn scene_llm_timeout_secs(raw: Option<&str>) -> (r: u64)
    ensures
        r == clamped(parsed_or(opt_str(raw), u64::MAX as nat, 25), 5, 120),
{
    clamp_u64(parse_u64_or(raw, DEFAULT_SCENE_LLM_TIMEOUT_SECS), 5, 120)
}

/// Per-attempt LLM timeout for cast rewrite
/// (`OCLIVE_THEATER_CAST_REWRITE_TIMEOUT_SECS`, default 45, within 10..=180).
pub fn cast_rewrite_llm_timeout_secs(raw: Option<&str>) -> (r: u64)
    ensures
        r == clamped(parsed_or(opt_str(raw), u64::MAX as nat, 45), 10, 180),
{
    clamp_u64(parse_u64_or(raw, DEFAULT_CAST_REWRITE_LLM_TIMEOUT_SECS), 10, 180)
}

/// Max lines in a poke patch segment (`OCLIVE_THEATER_PATCH_MAX_LINES`,
/// default 4, within 2..=8).
pub fn patch_max_lines(raw: Option<&str>) -> (r: u32)
    ensures
        r == clamped(parsed_or(opt_str(raw), u32::MAX as nat, 4), 2, 8),
{
    clamp_u32(parse_u32_or(raw, DEFAULT_PATCH_MAX_LINES), 2, 8)
}

/// Whether patch mode may append one partner reaction line
/// (`OCLIVE_THEATER_PATCH_PARTNER_REPLY`, default true).
pub fn patch_partner_reply_enabled(raw: Option<&str>) -> (r: bool)
    ensures
        r == flag_or(opt_str(raw), true),
{
    flag_value(raw, true)
}

/// Minimum beats accepted from cast-rewrite LLM output
/// (`OCLIVE_THEATER_CAST_REWRITE_MIN_BEATS`, default 4, within 3..=8).
pub fn cast_rewrite_min_beats(raw: Option<&str>) -> (r: u32)
    ensures
        r == clamped(parsed_or(opt_str(raw), u32::MAX as nat, 4), 3, 8),
{
    clamp_u32(parse_u32_or(raw, DEFAULT_CAST_REWRITE_MIN_BEATS), 3, 8)
}

} // verus!
