//! The decisions of the handlers that list the root of a Google Drive, a
//! folder of it, and the shared drives of an account.
use crate::common::encrypt::{decrypt, decryption, Decrypted, NONCE_LEN};
use crate::common::uuid_text::{parse_uuid, uuid_parse};
use crate::services::app_errors::AppError;
use crate::services::entities::CloudAccount;
use vstd::prelude::*;

verus! {

/// The path parameters of the folder listing.
pub struct GoogleParams {
    pub drive_id: String,
    pub folder_id: String,
}

fn error_with(kind: u8, m: &str) -> (e: AppError)
    requires
        kind < 6,
    ensures
        kind == 0 ==> e is Unauthorised,
        kind == 1 ==> e is NotFound,
        kind == 2 ==> e is Internal,
        kind == 3 ==> e is Forbidden,
        kind == 4 ==> e is UnprocessableEntry,
        kind == 5 ==> e is BadGateway,
        message_is(e, m@),
{
    let s = Some(m.to_owned());
    match kind {
        0 => AppError::Unauthorised(s),
        1 => AppError::NotFound(s),
        2 => AppError::Internal(s),
        3 => AppError::Forbidden(s),
        4 => AppError::UnprocessableEntry(s),
        _ => AppError::BadGateway(s),
    }
}

/// Whether the error carries the message `m`.
pub open spec fn message_is(e: AppError, m: Seq<char>) -> bool {
    match e {
        AppError::Unauthorised(Some(s)) => s@ == m,
        AppError::NotFound(Some(s)) => s@ == m,
        AppError::Internal(Some(s)) => s@ == m,
        AppError::Forbidden(Some(s)) => s@ == m,
        AppError::UnprocessableEntry(Some(s)) => s@ == m,
        AppError::BadGateway(Some(s)) => s@ == m,
        _ => false,
    }
}

/// The id of the drive whose root is asked for, from its parsed form
/// (`None` where the text is no UUID), or the refusal.
pub fn drive_id_from(parsed: Option<u128>) -> (r: Result<u128, AppError>)
    ensures
        match parsed {
            Some(u) => r == Ok::<u128, AppError>(u),
            None => r matches Err(e) && e is UnprocessableEntry && message_is(e, "Error during parsing cloud id"@),
        },
{
    match parsed {
        Some(id) => Ok(id),
        None => Err(error_with(4, "Error during parsing cloud id")),
    }
}

/// The id of the drive whose root is asked for, or the refusal where it is
/// no UUID.
pub fn root_drive_id(text: &str) -> (r: Result<u128, AppError>)
    ensures
        match uuid_parse(text@) {
            Some(u) => r == Ok::<u128, AppError>(u),
            None => r matches Err(e) && e is UnprocessableEntry && message_is(e, "Error during parsing cloud id"@),
        },
{
    drive_id_from(parse_uuid(text))
}

/// The account of a root listing, from its lookup (the outer `None` where the
/// lookup failed).
pub fn root_account(lookup: Option<Option<CloudAccount>>) -> (r: Result<CloudAccount, AppError>)
    ensures
        match lookup {
            None => r matches Err(e) && e is Internal && message_is(e, "Error connecting to database"@),
            Some(None) => r matches Err(e) && e is NotFound && message_is(e, "No Account with the id found"@),
            Some(Some(a)) => r == Ok::<CloudAccount, AppError>(a),
        },
{
    match lookup {
        None => Err(error_with(2, "Error connecting to database")),
        Some(None) => Err(error_with(1, "No Account with the id found")),
        Some(Some(acc)) => Ok(acc),
    }
}

/// The account of a folder listing, from its lookup (the outer `None` where
/// the lookup failed).
pub fn folder_account(lookup: Option<Option<CloudAccount>>) -> (r: Result<CloudAccount, AppError>)
    ensures
        match lookup {
            None => r matches Err(e) && e is Internal && message_is(e, "Error connecting to database"@),
            Some(None) => r matches Err(e) && e is NotFound && message_is(e, "Could not find such account"@),
            Some(Some(a)) => r == Ok::<CloudAccount, AppError>(a),
        },
{
    match lookup {
        None => Err(error_with(2, "Error connecting to database")),
        Some(None) => Err(error_with(1, "Could not find such account")),
        Some(Some(acc)) => Ok(acc),
    }
}

/// The decrypted access token of the account of a listing, or the refusal
/// that asks to add the account again (the handler then marks its token as
/// revoked).
pub fn listing_token(acc: &CloudAccount, key: &[u8; 32]) -> (r: Result<String, AppError>)
    requires
        acc.access_token@.len() >= NONCE_LEN,
    ensures
        match decryption(key@, acc.access_token@) {
            Decrypted::Plaintext(p) => r matches Ok(s) && s@ == p,
            _ => r matches Err(e) && e is Unauthorised && message_is(
                e,
                "Error decrypting token please add the account again"@,
            ),
        },
{
    match decrypt(acc.access_token.clone(), key) {
        Ok(token) => Ok(token),
        Err(_) => Err(error_with(0, "Error decrypting token please add the account again")),
    }
}

/// The id of the root folder from Google's reply, where it names one; the
/// reply's field must be a string when present.
pub fn root_folder_id(field: Option<Option<String>>) -> (r: Result<String, AppError>)
    requires
        !(field matches Some(None)),
    ensures
        match field {
            Some(Some(id)) => r matches Ok(s) && s@ == id@,
            _ => r matches Err(e) && e is NotFound && message_is(e, "Couldn't find the drive root"@),
        },
{
    match field {
        Some(Some(id)) => Ok(id),
        _ => Err(error_with(1, "Couldn't find the drive root")),
    }
}

/// The account whose shared drives are asked for, from its lookup (the outer
/// `None` where the lookup failed), and its decrypted access token.
pub fn shared_drives_token(lookup: Option<Option<CloudAccount>>, key: &[u8; 32]) -> (r: Result<String, AppError>)
    requires
        lookup matches Some(Some(a)) ==> a.access_token@.len() >= NONCE_LEN,
    ensures
        match lookup {
            None => r matches Err(e) && e is Internal && message_is(e, "Couldn't cionnect to database"@),
            Some(None) => r matches Err(e) && e is Forbidden && message_is(e, "No such account found"@),
            Some(Some(a)) => match decryption(key@, a.access_token@) {
                Decrypted::Plaintext(p) => r matches Ok(s) && s@ == p,
                _ => r matches Err(e) && e is Forbidden && message_is(
                    e,
                    "Couldn't decrypt the token try refreshing or re adding the account"@,
                ),
            },
        },
{
    match lookup {
        None => Err(error_with(2, "Couldn't cionnect to database")),
        Some(None) => Err(error_with(3, "No such account found")),
        Some(Some(acc)) => match decrypt(acc.access_token, key) {
            Ok(token) => Ok(token),
            Err(_) => Err(error_with(3, "Couldn't decrypt the token try refreshing or re adding the account")),
        },
    }
}

} // verus!
