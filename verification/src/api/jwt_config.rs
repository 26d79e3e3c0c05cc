//! The claims of the first API server's session token.
use vstd::prelude::*;

verus! {

/// The claims of a session token: the user's subject id, their quota type
/// and the expiry, in seconds since the Unix epoch.
pub struct Claims {
    pub sub: String,
    pub quota_type: String,
    pub exp: i64,
}

/// The claims of a new session token issued at `now`, valid for seven days.
pub fn claims_for(sub: &str, quota_type: &str, now: i64) -> (c: Claims)
    requires
        now <= i64::MAX - 604800,
    ensures
        c.sub@ == sub@,
        c.quota_type@ == quota_type@,
        c.exp == now + 604800,
{
    Claims { sub: sub.to_owned(), quota_type: quota_type.to_owned(), exp: now + 7 * 24 * 60 * 60 }
}

} // verus!
