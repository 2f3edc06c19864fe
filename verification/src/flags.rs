//! Boolean switches read from the environment, and distro gating. Each
//! takes the raw value (absent when unset).

use vstd::prelude::*;
use crate::text::{ascii_lower_seq, eq_ignore_ascii_case, trim};

verus! {

/// `1`, `true`, `yes` or `on` (ASCII case-insensitive, trimmed).
pub open spec fn truthy(v: Seq<char>) -> bool {
    let t = trim(v);
    t == "1"@ || eq_ignore_ascii_case(t, "true"@) || eq_ignore_ascii_case(t, "yes"@) || eq_ignore_ascii_case(
        t,
        "on"@,
    )
}

/// A switch is on when set to a truthy value; unset or any other value is off.
pub fn env_flag_enabled(raw: Option<&str>) -> (r: bool)
    ensures
        r == match raw {
            Some(v) => truthy(v@),
            None => false,
        },
{
    match raw {
        Some(v) => {
            let t = crate::text::trim_chars(v);
            let one = crate::text::chars_of("1");
            let tr = crate::text::chars_of("true");
            let yes = crate::text::chars_of("yes");
            let on = crate::text::chars_of("on");
            crate::text::seq_eq(&t, &one) || crate::text::eq_ignore_case_vec(&t, &tr)
                || crate::text::eq_ignore_case_vec(&t, &yes) || crate::text::eq_ignore_case_vec(&t, &on)
        },
        None => false,
    }
}

/// Whether role listing includes dev-only packs (`OCLIVE_LIST_DEV_ROLES`).
pub fn list_dev_roles_enabled(raw: Option<&str>) -> (r: bool)
    ensures
        r == match raw {
            Some(v) => truthy(v@),
            None => false,
        },
{
    env_flag_enabled(raw)
}

/// A skip switch (`OCLIVE_SKIP_STARTUP_HEALTH`,
/// `OCLIVE_SKIP_LLM_STARTUP_PROBE`) is on when set to exactly `1` or to
/// `true` in any ASCII case, without trimming.
pub fn skip_switch_enabled(raw: Option<&str>) -> (r: bool)
    ensures
        r == match raw {
            Some(v) => v@ == "1"@ || eq_ignore_ascii_case(v@, "true"@),
            None => false,
        },
{
    match raw {
        Some(v) => {
            let cs = crate::text::chars_of(v);
            crate::text::seq_eq(&cs, &crate::text::chars_of("1")) || crate::text::eq_ignore_case_vec(
                &cs,
                &crate::text::chars_of("true"),
            )
        },
        None => false,
    }
}

/// A distro visual mode other than blank or `off` (ASCII case-insensitive).
pub open spec fn visual_allowed(mode: Seq<char>) -> bool {
    let t = ascii_lower_seq(trim(mode));
    !(t.len() == 0 || t == "off"@)
}

/// Distro profile gating: `off` suppresses directives even when the pack
/// enables visual presentation.
pub fn distro_allows_visual_presentation(mode: &str) -> (r: bool)
    ensures
        r == visual_allowed(mode@),
{
    let t = crate::text::ascii_lower_vec(&crate::text::trim_chars(mode));
    let off = crate::text::chars_of("off");
    !(t.len() == 0 || crate::text::seq_eq(&t, &off))
}

} // verus!
