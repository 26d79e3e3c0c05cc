//! The decisions of the handler that links a Google Drive account.
use crate::services::app_errors::AppError;
use crate::services::entities::{CloudAccount, Provider};
use vstd::prelude::*;

verus! {

/// A string field of a JSON reply, as read: absent, present but no string,
/// or the string.
pub type JsonField = Option<Option<String>>;

fn text(s: &str) -> (r: Option<String>)
    ensures
        r matches Some(t) && t@ == s@,
{
    Some(s.to_owned())
}

/// The access token of Google's token reply.
pub fn access_token_field(field: JsonField) -> (r: Result<String, AppError>)
    ensures
        match field {
            None => r matches Err(AppError::Forbidden(Some(m))) && m@ == "No token receiverd from google"@,
            Some(None) => r matches Err(AppError::Internal(Some(m))) && m@ == "Error parsing access token"@,
            Some(Some(t)) => r matches Ok(s) && s@ == t@,
        },
{
    match field {
        None => Err(AppError::Forbidden(text("No token receiverd from google"))),
        Some(None) => Err(AppError::Internal(text("Error parsing access token"))),
        Some(Some(t)) => Ok(t),
    }
}

/// The account's subject id (`sub`) from Google's user info.
pub fn sub_field(field: JsonField) -> (r: Result<String, AppError>)
    ensures
        match field {
            None => r matches Err(AppError::Forbidden(Some(m))) && m@ == "Couldn't retrieve openid from google"@,
            Some(None) => r matches Err(AppError::Internal(Some(m))) && m@ == "Error Parsing sub"@,
            Some(Some(t)) => r matches Ok(s) && s@ == t@,
        },
{
    match field {
        None => Err(AppError::Forbidden(text("Couldn't retrieve openid from google"))),
        Some(None) => Err(AppError::Internal(text("Error Parsing sub"))),
        Some(Some(t)) => Ok(t),
    }
}

/// The account's email from Google's user info.
pub fn email_field(field: JsonField) -> (r: Result<String, AppError>)
    ensures
        match field {
            None => r matches Err(AppError::Unauthorised(Some(m))) && m@ == "Couldn't retrieve email from google"@,
            Some(None) => r matches Err(AppError::Internal(Some(m))) && m@ == "Error parsing email"@,
            Some(Some(t)) => r matches Ok(s) && s@ == t@,
        },
{
    match field {
        None => Err(AppError::Unauthorised(text("Couldn't retrieve email from google"))),
        Some(None) => Err(AppError::Internal(text("Error parsing email"))),
        Some(Some(t)) => Ok(t),
    }
}

/// The account's picture from Google's user info, where it is a string.
pub fn picture_field(field: JsonField) -> (r: Option<String>)
    ensures
        r == match field {
            Some(Some(t)) => Some(t),
            _ => None::<String>,
        },
{
    match field {
        Some(Some(t)) => Some(t),
        _ => None,
    }
}

/// The refresh token of Google's token reply, which it may leave out.
pub fn refresh_token_field(field: JsonField) -> (r: Result<Option<String>, AppError>)
    ensures
        match field {
            None => r matches Ok(None),
            Some(None) => r matches Err(AppError::Internal(Some(m))) && m@ == "Error parsing refresh token"@,
            Some(Some(t)) => r matches Ok(Some(s)) && s@ == t@,
        },
{
    match field {
        None => Ok(None),
        Some(None) => Err(AppError::Internal(text("Error parsing refresh token"))),
        Some(Some(t)) => Ok(Some(t)),
    }
}

/// The Gmail address of the user who links an account, from the lookup of
/// the user (`None` where no user has the session's id).
pub fn link_owner(gmail: Option<String>) -> (r: Result<String, AppError>)
    ensures
        match gmail {
            Some(g) => r matches Ok(s) && s@ == g@,
            None => r matches Err(AppError::Forbidden(Some(m))) && m@ == "User account not found"@,
        },
{
    match gmail {
        Some(g) => Ok(g),
        None => Err(AppError::Forbidden(text("User account not found"))),
    }
}

/// What Google told of a linked account, its tokens already encrypted.
pub struct LinkedDrive {
    pub sub: String,
    pub email: String,
    pub image: Option<String>,
    pub access_token: Vec<u8>,
    pub refresh_token: Option<Vec<u8>>,
    pub expires_in: i64,
}

/// The row of the linked account to write: the existing row with the sub
/// updated in place, or a new row with id `new_id`. The account is the
/// user's primary one when its email is the user's Gmail address; a
/// refresh token replaces the stored one only where Google sent one.
pub fn link_account(
    existing: Option<CloudAccount>,
    new_id: u128,
    user_id: u128,
    user_gmail: &String,
    drive: LinkedDrive,
) -> (r: CloudAccount)
    ensures
        r.email == drive.email,
        r.access_token == drive.access_token,
        r.expires_in == Some(drive.expires_in),
        r.is_primary == (drive.email@ == user_gmail@),
        r.provider == Provider::Google,
        r.user_id == user_id,
        r.image == drive.image,
        match existing {
            Some(acc) => {
                &&& r.id == acc.id
                &&& r.sub == acc.sub
                &&& r.token_expired == acc.token_expired
                &&& r.refresh_token == match drive.refresh_token {
                    Some(t) => Some(t),
                    None => acc.refresh_token,
                }
            },
            None => {
                &&& r.id == new_id
                &&& r.sub == Some(drive.sub)
                &&& !r.token_expired
                &&& r.refresh_token == drive.refresh_token
            },
        },
{
    let is_primary = drive.email == *user_gmail;
    match existing {
        Some(acc) => CloudAccount {
            id: acc.id,
            email: drive.email,
            access_token: drive.access_token,
            refresh_token: match drive.refresh_token {
                Some(t) => Some(t),
                None => acc.refresh_token,
            },
            expires_in: Some(drive.expires_in),
            is_primary,
            provider: Provider::Google,
            user_id,
            sub: acc.sub,
            image: drive.image,
            token_expired: acc.token_expired,
        },
        None => CloudAccount {
            id: new_id,
            email: drive.email,
            access_token: drive.access_token,
            refresh_token: drive.refresh_token,
            expires_in: Some(drive.expires_in),
            is_primary,
            provider: Provider::Google,
            user_id,
            sub: Some(drive.sub),
            image: drive.image,
            token_expired: false,
        },
    }
}

} // verus!
