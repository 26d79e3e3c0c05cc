//! The decisions of the handler that queues a copy between two linked Google
//! Drive accounts.
use crate::common::text::{concat3, debug_string, debug_text, decimal_i64, parse_i64, same_text};
use crate::common::encrypt::{decrypt, decryption, Decrypted, NONCE_LEN};
use crate::common::uuid_text::{parse_uuid, uuid_parse};
use crate::services::app_errors::AppError;
use crate::services::entities::CloudAccount;
use vstd::prelude::*;

verus! {

/// The body of a copy request.
pub struct CopyInputs {
    pub from_drive: String,
    pub from_file_id: String,
    pub to_drive: String,
    pub to_folder_id: String,
}

/// What Google tells of the item to copy.
pub struct FileDetail {
    pub mime_type: String,
    pub size: Option<String>,
}

fn internal(m: &str) -> (e: AppError)
    ensures
        e matches AppError::Internal(Some(s)) && s@ == m@,
{
    AppError::Internal(Some(m.to_owned()))
}

fn not_found(m: &str) -> (e: AppError)
    ensures
        e matches AppError::NotFound(Some(s)) && s@ == m@,
{
    AppError::NotFound(Some(m.to_owned()))
}

/// The ids of the source and destination accounts from their parsed forms
/// (`None` where the text is no UUID), or the error that names the one (or
/// both) that are missing.
pub fn transfer_ids_from(from: Option<u128>, to: Option<u128>) -> (r: Result<(u128, u128), AppError>)
    ensures
        match (from, to) {
            (Some(f), Some(t)) => r == Ok::<(u128, u128), AppError>((f, t)),
            (None, None) => r matches Err(AppError::Internal(Some(m))) && m@
                == "Couldn't parse Ids of any drive"@,
            (None, Some(_)) => r matches Err(AppError::Internal(Some(m))) && m@
                == "Couldn't parse Id of from drive"@,
            (Some(_), None) => r matches Err(AppError::Internal(Some(m))) && m@
                == "Couldn't parse Id of to drive"@,
        },
{
    match (from, to) {
        (None, None) => Err(internal("Couldn't parse Ids of any drive")),
        (None, Some(_)) => Err(internal("Couldn't parse Id of from drive")),
        (Some(_), None) => Err(internal("Couldn't parse Id of to drive")),
        (Some(from_id), Some(to_id)) => Ok((from_id, to_id)),
    }
}

/// The ids of the source and destination accounts, or the error that names
/// the one (or both) that are no UUID.
pub fn transfer_ids(inputs: &CopyInputs) -> (r: Result<(u128, u128), AppError>)
    ensures
        match (uuid_parse(inputs.from_drive@), uuid_parse(inputs.to_drive@)) {
            (Some(f), Some(t)) => r == Ok::<(u128, u128), AppError>((f, t)),
            (None, None) => r matches Err(AppError::Internal(Some(m))) && m@
                == "Couldn't parse Ids of any drive"@,
            (None, Some(_)) => r matches Err(AppError::Internal(Some(m))) && m@
                == "Couldn't parse Id of from drive"@,
            (Some(_), None) => r matches Err(AppError::Internal(Some(m))) && m@
                == "Couldn't parse Id of to drive"@,
        },
{
    transfer_ids_from(parse_uuid(inputs.from_drive.as_str()), parse_uuid(inputs.to_drive.as_str()))
}

/// The message that asks to refresh an account before a copy.
pub open spec fn refresh_message(which: Seq<char>, email: Seq<char>, verb: Seq<char>) -> Seq<char> {
    "Your "@ + which + " account "@ + debug_text(email) + " needs to be refreshed to "@ + verb
        + " this action"@
}

fn refresh_msg(which: &str, email: &String, verb: &str) -> (r: String)
    ensures
        r@ == refresh_message(which@, email@, verb@),
{
    let e = debug_string(email);
    let head = concat3("Your ", which, " account ");
    let tail = concat3(" needs to be refreshed to ", verb, " this action");
    let r = concat3(head.as_str(), e.as_str(), tail.as_str());
    proof {
        assert(r@ =~= refresh_message(which@, email@, verb@));
    }
    r
}

/// The two accounts of a copy, from the lookups of each under the user (the
/// outer `None` where the lookup failed, the inner one where no account
/// matched), or the error that answers the request. Both accounts must
/// have a token that is not known to be revoked.
pub fn transfer_accounts(
    from: Option<Option<CloudAccount>>,
    to: Option<Option<CloudAccount>>,
) -> (r: Result<(CloudAccount, CloudAccount), AppError>)
    ensures
        match (from, to) {
            (None, None) => r matches Err(AppError::Internal(Some(m))) && m@
                == "Error fetching both the transfer accounts"@,
            (None, Some(_)) => r matches Err(AppError::Internal(Some(m))) && m@
                == "Error fetching source account"@,
            (Some(_), None) => r matches Err(AppError::Internal(Some(m))) && m@
                == "Error fetching destination account"@,
            (Some(None), Some(None)) => r matches Err(AppError::NotFound(Some(m))) && m@
                == "Both accounts were not found under your access"@,
            (Some(None), Some(Some(_))) => r matches Err(AppError::NotFound(Some(m))) && m@
                == "Source account not found under your access"@,
            (Some(Some(_)), Some(None)) => r matches Err(AppError::NotFound(Some(m))) && m@
                == "Destination account not found under your access"@,
            (Some(Some(s)), Some(Some(d))) => if s.token_expired {
                r matches Err(AppError::UnprocessableEntry(Some(m))) && m@ == refresh_message(
                    "Source"@,
                    s.email@,
                    "perform"@,
                )
            } else if d.token_expired {
                r matches Err(AppError::UnprocessableEntry(Some(m))) && m@ == refresh_message(
                    "destination"@,
                    d.email@,
                    "perfrom"@,
                )
            } else {
                r == Ok::<(CloudAccount, CloudAccount), AppError>((s, d))
            },
        },
{
    match (from, to) {
        (None, None) => Err(internal("Error fetching both the transfer accounts")),
        (None, Some(_)) => Err(internal("Error fetching source account")),
        (Some(_), None) => Err(internal("Error fetching destination account")),
        (Some(None), Some(None)) => Err(not_found("Both accounts were not found under your access")),
        (Some(None), Some(Some(_))) => Err(not_found("Source account not found under your access")),
        (Some(Some(_)), Some(None)) => Err(
            not_found("Destination account not found under your access"),
        ),
        (Some(Some(source)), Some(Some(destination))) => {
            if source.token_expired {
                return Err(
                    AppError::UnprocessableEntry(
                        Some(refresh_msg("Source", &source.email, "perform")),
                    ),
                );
            }
            if destination.token_expired {
                return Err(
                    AppError::UnprocessableEntry(
                        Some(refresh_msg("destination", &destination.email, "perfrom")),
                    ),
                );
            }
            Ok((source, destination))
        },
    }
}

/// The decrypted access token of the source account of a copy, or the error
/// that asks to refresh the account (the handler then marks its token as
/// revoked).
pub fn source_token(source: &CloudAccount, key: &[u8; 32]) -> (r: Result<String, AppError>)
    requires
        source.access_token@.len() >= NONCE_LEN,
    ensures
        match decryption(key@, source.access_token@) {
            Decrypted::Plaintext(p) => r matches Ok(s) && s@ == p,
            _ => r matches Err(AppError::Internal(Some(m))) && m@
                == "Error decrypting access token please refresh your account"@,
        },
{
    match decrypt(source.access_token.clone(), key) {
        Ok(token) => Ok(token),
        Err(_) => Err(internal("Error decrypting access token please refresh your account")),
    }
}

/// The MIME type of a Google Drive folder.
pub open spec fn folder_mime() -> Seq<char> {
    "application/vnd.google-apps.folder"@
}

/// A copy job to queue.
pub struct NewJob {
    pub id: u128,
    pub from_drive: u128,
    pub from_file_id: String,
    pub is_folder: bool,
    pub to_drive: u128,
    pub to_folder_id: String,
    pub user_id: u128,
    pub size: Option<i64>,
}

/// The job that copies the item of `inputs` from the `source` account to the
/// `destination` one for user `user_id`: a folder when Google's MIME type is
/// that of folders; its size where Google gave one that reads as a decimal
/// `i64`.
pub fn new_job(
    id: u128,
    user_id: u128,
    source: &CloudAccount,
    destination: &CloudAccount,
    inputs: &CopyInputs,
    detail: &FileDetail,
) -> (r: NewJob)
    ensures
        r.id == id,
        r.from_drive == source.id,
        r.from_file_id@ == inputs.from_file_id@,
        r.is_folder == (detail.mime_type@ == folder_mime()),
        r.to_drive == destination.id,
        r.to_folder_id@ == inputs.to_folder_id@,
        r.user_id == user_id,
        r.size == match detail.size {
            Some(s) => decimal_i64(s@),
            None => None::<i64>,
        },
{
    let is_folder = same_text(&detail.mime_type, "application/vnd.google-apps.folder");
    let size = match &detail.size {
        Some(s) => parse_i64(s.as_str()),
        None => None,
    };
    NewJob {
        id,
        from_drive: source.id,
        from_file_id: inputs.from_file_id.clone(),
        is_folder,
        to_drive: destination.id,
        to_folder_id: inputs.to_folder_id.clone(),
        user_id,
        size,
    }
}

/// The Drive API query that the handler asks about the item to copy: the
/// items that list it as their parent, with their MIME type and size.
pub fn file_detail_url(file_id: &str) -> (r: String)
    ensures
        r@ == "https://www.googleapis.com/drive/v3/files?q='"@ + file_id@
            + "' in parents and trashed=false&fields=mimeType,size&supportsAllDrives=true&includeItemsFromAllDrives=true&spaces=drive"@,
{
    concat3(
        "https://www.googleapis.com/drive/v3/files?q='",
        file_id,
        "' in parents and trashed=false&fields=mimeType,size&supportsAllDrives=true&includeItemsFromAllDrives=true&spaces=drive",
    )
}

} // verus!
