//! The session check of the first API server.
use crate::api::jwt_config::Claims;
use crate::services::app_errors::AppError;
use vstd::prelude::*;

verus! {

/// The claims of a decoded session token checked at `now`: refused with the
/// decoding error's text, or as expired when `now` is past the expiry.
pub fn check_session(decoded: Result<Claims, String>, now: i64) -> (r: Result<Claims, AppError>)
    ensures
        match decoded {
            Err(e) => r matches Err(AppError::Unauthorised(Some(m))) && m@ == e@,
            Ok(c) => if now > c.exp {
                r matches Err(AppError::Unauthorised(Some(m))) && m@ == "Token expired"@
            } else {
                r == Ok::<Claims, AppError>(c)
            },
        },
{
    match decoded {
        Ok(claim) => {
            if now > claim.exp {
                Err(AppError::Unauthorised(Some("Token expired".to_owned())))
            } else {
                Ok(claim)
            }
        },
        Err(err) => Err(AppError::Unauthorised(Some(err))),
    }
}

} // verus!
