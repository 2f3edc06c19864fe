//! The active user identity of a turn: which identity id wins, and which
//! relation it maps to.

use vstd::prelude::*;
use crate::resource::model::opt_view;

verus! {

/// Resolved identity for prompt injection and relation/favor routing.
#[derive(Debug)]
pub struct ResolvedUserIdentity {
    pub identity_id: String,
    pub template_body: String,
    pub relation_key: String,
    pub relation_hint: String,
    pub adult_eligible: bool,
}

/// One entry of a role's user identity index.
#[derive(Debug)]
pub struct UserIdentityIndexEntry {
    pub display_name: String,
    pub template_file: String,
    pub maps_to_relation_id: Option<String>,
    pub adult_eligible: bool,
}

/// The relation an identity maps to: its declared relation when non-empty,
/// else the identity id itself.
pub open spec fn relation_key_of(maps_to: Option<Seq<char>>, identity_id: Seq<char>) -> Seq<char> {
    match maps_to {
        Some(r) => if r.len() > 0 { r } else { identity_id },
        None => identity_id,
    }
}

impl UserIdentityIndexEntry {
    /// The relation key of this entry for `identity_id`.
    pub fn relation_key<'a>(&'a self, identity_id: &'a str) -> (r: &'a str)
        ensures
            r@ == relation_key_of(opt_view(self.maps_to_relation_id), identity_id@),
    {
        match &self.maps_to_relation_id {
            Some(r) => {
                if r.as_str().unicode_len() > 0 {
                    r.as_str()
                } else {
                    identity_id
                }
            },
            None => identity_id,
        }
    }
}

/// The identity id a turn uses: the stored pick; when the role uses no
/// manifest default and nothing is stored, the host default (non-empty);
/// else the catalog default.
pub open spec fn chosen_identity(
    db_id: Option<Seq<char>>,
    use_manifest_default: bool,
    host_default: Option<Seq<char>>,
    catalog_default: Option<Seq<char>>,
) -> Option<Seq<char>> {
    let host = if !use_manifest_default && db_id is None {
        match host_default {
            Some(h) => if h.len() > 0 { Some(h) } else { None },
            None => None,
        }
    } else {
        None
    };
    if db_id is Some {
        db_id
    } else if host is Some {
        host
    } else {
        catalog_default
    }
}

/// Picks the identity id of a turn from the stored state and the defaults.
pub fn choose_identity_id(
    db_id: Option<String>,
    use_manifest_default: bool,
    host_default: Option<&str>,
    catalog_default: Option<&str>,
) -> (r: Option<String>)
    ensures
        opt_view(r) == chosen_identity(
            opt_view(db_id),
            use_manifest_default,
            crate::theater::guardrails::opt_str(host_default),
            crate::theater::guardrails::opt_str(catalog_default),
        ),
{
    if db_id.is_some() {
        return db_id;
    }
    if !use_manifest_default {
        match host_default {
            Some(h) => {
                if h.unicode_len() > 0 {
                    return Some(crate::text::owned(h));
                }
            },
            None => {},
        }
    }
    match catalog_default {
        Some(c) => Some(crate::text::owned(c)),
        None => None,
    }
}

} // verus!
