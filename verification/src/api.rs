//! Local HTTP API configuration checks.

use vstd::prelude::*;
use crate::text::trim;

verus! {

/// The API server is safe to start: it has a non-blank bearer token, or
/// unauthenticated access was allowed explicitly.
pub open spec fn api_auth_ok(token: Option<Seq<char>>, allow_unauthenticated: bool) -> bool {
    match token {
        Some(t) => trim(t).len() > 0 || allow_unauthenticated,
        None => allow_unauthenticated,
    }
}

/// Fails closed: a missing or blank token is refused unless unauthenticated
/// access was allowed.
pub fn validate_api_auth_configuration(token: Option<&str>, allow_unauthenticated: bool) -> (r: Result<(), String>)
    ensures
        r is Ok <==> api_auth_ok(crate::theater::guardrails::opt_str(token), allow_unauthenticated),
{
    let has_token = match token {
        Some(t) => crate::text::trim_chars(t).len() > 0,
        None => false,
    };
    if has_token || allow_unauthenticated {
        Ok(())
    } else {
        Err(crate::text::owned("api server requires a bearer token or explicit unauthenticated mode"))
    }
}

} // verus!
