use unicloud::services::auth::redirect_or;
use unicloud::services::copy_google::transfer_ids_from;
use unicloud::services::google_get_folders::drive_id_from;
use unicloud::services::jwt_config::claims_from;
use unicloud::services::add_google_drive::link_owner;
use unicloud::common::encrypt::encrypt;
use unicloud::common::export_envs::Envs;
use unicloud::services::add_google_drive::{
    access_token_field, email_field, link_account, picture_field, refresh_token_field, sub_field, LinkedDrive,
};
use unicloud::services::app_errors::AppError;
use unicloud::services::auth::{
    access_token_expiry, claims_or_reject, drive_auth_redirect, get_cookie, home_url, token_from_cookie,
};
use unicloud::services::copy_google::{
    file_detail_url, new_job, source_token, transfer_accounts, transfer_ids, CopyInputs, FileDetail,
};
use unicloud::services::entities::{CloudAccount, Provider};
use unicloud::services::get_cloud_accounts::{account_report, split_reports, StorageQuota};
use unicloud::services::google_get_folders::{
    folder_account, listing_token, root_account, root_drive_id, root_folder_id, shared_drives_token,
};
use unicloud::services::google_search_folder::{all_files_url, search_folder_url, Pager};
use unicloud::services::jwt_config::{claims_for, strip_whitespace, Claims, TOKEN_LIFETIME};

const KEY: [u8; 32] = [0x11u8; 32];
const UUID_A: &str = "67e55044-10b1-426f-9247-bb680e5fe0c8";
const UUID_A_VALUE: u128 = 0x67e5504410b1426f9247bb680e5fe0c8;
const UUID_B: &str = "a1a2a3a4-b1b2-c1c2-d1d2-d3d4d5d6d7d8";
const UUID_B_VALUE: u128 = 0xa1a2a3a4b1b2c1c2d1d2d3d4d5d6d7d8;

fn account(id: u128, email: &str, token_expired: bool) -> CloudAccount {
    CloudAccount {
        id,
        email: email.to_string(),
        access_token: encrypt("access", &KEY).ok().unwrap(),
        refresh_token: None,
        expires_in: Some(100),
        is_primary: false,
        provider: Provider::Google,
        user_id: 9,
        sub: Some("sub-1".to_string()),
        image: Some("pic".to_string()),
        token_expired,
    }
}

fn envs() -> Envs {
    Envs {
        database_url: "postgres://db".to_string(),
        redis_url: "redis://cache".to_string(),
        google_client_id: "cid".to_string(),
        google_client_secret: "csecret".to_string(),
        google_client_redirect_url: "http://localhost:8000/auth/google/callback".to_string(),
        backend_url: "http://localhost:8000".to_string(),
        jwt_secret: "jwt".to_string(),
        frontend_url: "http://localhost:3000".to_string(),
        environment: "DEVELOPMENT".to_string(),
        google_drive_client_id: "drive id".to_string(),
        google_drive_client_secret: "dsecret".to_string(),
        google_drive_redirect_url: "http://localhost:8000/auth/drive/callback".to_string(),
        encryption_key: KEY,
    }
}

fn message(e: AppError) -> (u16, String) {
    e.into_parts()
}

#[test]
fn into_parts_gives_status_and_default_messages() {
    assert_eq!(AppError::Unauthorised(None).into_parts(), (401, "Unauthorised".to_string()));
    assert_eq!(AppError::NotFound(None).into_parts(), (404, "Not Found".to_string()));
    assert_eq!(AppError::Internal(None).into_parts(), (500, "Internal Server Error".to_string()));
    assert_eq!(AppError::Forbidden(None).into_parts(), (403, "Forbidden".to_string()));
    assert_eq!(AppError::UnprocessableEntry(None).into_parts(), (422, "Unprocessable Entry".to_string()));
    assert_eq!(AppError::BadGateway(None).into_parts(), (502, "Bad Gateway".to_string()));
}

#[test]
fn into_parts_keeps_an_own_message() {
    assert_eq!(AppError::Forbidden(Some("no".to_string())).into_parts(), (403, "no".to_string()));
    assert_eq!(AppError::BadGateway(Some("g".to_string())).into_parts(), (502, "g".to_string()));
}

#[test]
fn drive_auth_redirect_form_encodes_the_query() {
    let url = drive_auth_redirect(&envs());
    assert_eq!(
        url,
        "https://accounts.google.com/o/oauth2/v2/auth?client_id=drive+id&redirect_uri=http%3A%2F%2Flocalhost%3A8000%2Fauth%2Fdrive%2Fcallback&response_type=code&scope=openid+email+https%3A%2F%2Fwww.googleapis.com%2Fauth%2Fdrive&access_type=offline&prompt=consent&include_granted_scope=true"
    );
}

#[test]
fn session_cookie_checks() {
    assert_eq!(token_from_cookie(Some("t".to_string())).ok().unwrap(), "t");
    assert_eq!(
        message(token_from_cookie(None).err().unwrap()),
        (401, "Authorisation Token not found".to_string())
    );
    assert_eq!(get_cookie(Some("abc".to_string())).ok().unwrap(), "abc");
    assert_eq!(message(get_cookie(None).err().unwrap()), (404, "Token not found".to_string()));
}

#[test]
fn claims_or_reject_passes_claims_and_refuses_errors() {
    let c = Claims { id: 5, quota_type: "Free".to_string(), exp: 10 };
    let ok = claims_or_reject(Ok(c)).ok().unwrap();
    assert_eq!((ok.id, ok.quota_type.as_str(), ok.exp), (5, "Free", 10));
    assert_eq!(
        message(claims_or_reject(Err("InvalidSignature".to_string())).err().unwrap()),
        (401, "InvalidSignature".to_string())
    );
}

#[test]
fn home_url_and_expiry() {
    assert_eq!(home_url("http://localhost:3000"), "http://localhost:3000/home");
    assert_eq!(access_token_expiry(1000, None), 4599);
    assert_eq!(access_token_expiry(1000, Some(60)), 1060);
}

#[test]
fn claims_for_reads_the_uuid_and_sets_a_week() {
    let c = claims_for(UUID_A, "Gold", 1_700_000_000).unwrap();
    assert_eq!(c.id, UUID_A_VALUE);
    assert_eq!(c.quota_type, "Gold");
    assert_eq!(c.exp, 1_700_000_000 + 604800);
    assert_eq!(TOKEN_LIFETIME, 604800);
    assert!(claims_for("not-a-uuid", "Gold", 0).is_none());
}

#[test]
fn strip_whitespace_takes_out_every_blank() {
    assert_eq!(strip_whitespace(" a b\tc\n\u{a0}d\u{3000} "), "abcd");
    assert_eq!(strip_whitespace("eyJ.x.y"), "eyJ.x.y");
    assert_eq!(strip_whitespace(""), "");
}

#[test]
fn strip_whitespace_twice_changes_nothing_more() {
    let once = strip_whitespace(" x\u{2028}y \t");
    assert_eq!(strip_whitespace(&once), once);
    assert_eq!(once, "xy");
}

#[test]
fn transfer_ids_names_the_id_that_is_no_uuid() {
    let inputs = |f: &str, t: &str| CopyInputs {
        from_drive: f.to_string(),
        from_file_id: "file".to_string(),
        to_drive: t.to_string(),
        to_folder_id: "folder".to_string(),
    };
    assert_eq!(transfer_ids(&inputs(UUID_A, UUID_B)).ok().unwrap(), (UUID_A_VALUE, UUID_B_VALUE));
    assert_eq!(
        message(transfer_ids(&inputs("x", "y")).err().unwrap()),
        (500, "Couldn't parse Ids of any drive".to_string())
    );
    assert_eq!(
        message(transfer_ids(&inputs("x", UUID_B)).err().unwrap()),
        (500, "Couldn't parse Id of from drive".to_string())
    );
    assert_eq!(
        message(transfer_ids(&inputs(UUID_A, "y")).err().unwrap()),
        (500, "Couldn't parse Id of to drive".to_string())
    );
}

#[test]
fn transfer_accounts_answers_each_lookup_outcome() {
    let a = || Some(Some(account(1, "a@x.com", false)));
    let cases: Vec<(Option<Option<CloudAccount>>, Option<Option<CloudAccount>>, (u16, &str))> = vec![
        (None, None, (500, "Error fetching both the transfer accounts")),
        (None, a(), (500, "Error fetching source account")),
        (a(), None, (500, "Error fetching destination account")),
        (Some(None), Some(None), (404, "Both accounts were not found under your access")),
        (Some(None), a(), (404, "Source account not found under your access")),
        (a(), Some(None), (404, "Destination account not found under your access")),
    ];
    for (from, to, (status, text)) in cases {
        assert_eq!(message(transfer_accounts(from, to).err().unwrap()), (status, text.to_string()));
    }
}

#[test]
fn transfer_accounts_asks_to_refresh_an_expired_account() {
    let r = transfer_accounts(Some(Some(account(1, "src@x.com", true))), Some(Some(account(2, "d@x.com", true))));
    assert_eq!(
        message(r.err().unwrap()),
        (422, "Your Source account \"src@x.com\" needs to be refreshed to perform this action".to_string())
    );
    let r = transfer_accounts(Some(Some(account(1, "src@x.com", false))), Some(Some(account(2, "d@x.com", true))));
    assert_eq!(
        message(r.err().unwrap()),
        (422, "Your destination account \"d@x.com\" needs to be refreshed to perfrom this action".to_string())
    );
}

#[test]
fn transfer_accounts_gives_both_accounts() {
    let r = transfer_accounts(Some(Some(account(1, "s@x.com", false))), Some(Some(account(2, "d@x.com", false))));
    let (s, d) = r.ok().unwrap();
    assert_eq!((s.id, d.id), (1, 2));
}

#[test]
fn source_token_decrypts_or_asks_for_a_refresh() {
    let acc = account(1, "s@x.com", false);
    assert_eq!(source_token(&acc, &KEY).ok().unwrap(), "access");
    assert_eq!(
        message(source_token(&acc, &[2u8; 32]).err().unwrap()),
        (500, "Error decrypting access token please refresh your account".to_string())
    );
}

#[test]
fn new_job_reads_folder_and_size() {
    let inputs = CopyInputs {
        from_drive: UUID_A.to_string(),
        from_file_id: "file-7".to_string(),
        to_drive: UUID_B.to_string(),
        to_folder_id: "folder-3".to_string(),
    };
    let src = account(11, "s@x.com", false);
    let dst = account(22, "d@x.com", false);
    let folder = FileDetail { mime_type: "application/vnd.google-apps.folder".to_string(), size: None };
    let job = new_job(77, 9, &src, &dst, &inputs, &folder);
    assert_eq!((job.id, job.from_drive, job.to_drive, job.user_id), (77, 11, 22, 9));
    assert_eq!((job.from_file_id.as_str(), job.to_folder_id.as_str()), ("file-7", "folder-3"));
    assert!(job.is_folder);
    assert_eq!(job.size, None);
    let pdf = FileDetail { mime_type: "application/pdf".to_string(), size: Some("123456".to_string()) };
    let job = new_job(1, 2, &src, &dst, &inputs, &pdf);
    assert!(!job.is_folder);
    assert_eq!(job.size, Some(123456));
    let odd = FileDetail { mime_type: "application/pdf".to_string(), size: Some("12kB".to_string()) };
    assert_eq!(new_job(1, 2, &src, &dst, &inputs, &odd).size, None);
}

#[test]
fn file_detail_url_quotes_the_id() {
    assert_eq!(
        file_detail_url("abc"),
        "https://www.googleapis.com/drive/v3/files?q='abc' in parents and trashed=false&fields=mimeType,size&supportsAllDrives=true&includeItemsFromAllDrives=true&spaces=drive"
    );
}

#[test]
fn google_reply_fields() {
    let s = |t: &str| Some(Some(t.to_string()));
    assert_eq!(access_token_field(s("at")).ok().unwrap(), "at");
    assert_eq!(message(access_token_field(None).err().unwrap()), (403, "No token receiverd from google".to_string()));
    assert_eq!(message(access_token_field(Some(None)).err().unwrap()), (500, "Error parsing access token".to_string()));
    assert_eq!(sub_field(s("1234")).ok().unwrap(), "1234");
    assert_eq!(message(sub_field(None).err().unwrap()), (403, "Couldn't retrieve openid from google".to_string()));
    assert_eq!(message(sub_field(Some(None)).err().unwrap()), (500, "Error Parsing sub".to_string()));
    assert_eq!(email_field(s("e@x.com")).ok().unwrap(), "e@x.com");
    assert_eq!(message(email_field(None).err().unwrap()), (401, "Couldn't retrieve email from google".to_string()));
    assert_eq!(message(email_field(Some(None)).err().unwrap()), (500, "Error parsing email".to_string()));
    assert_eq!(picture_field(s("p")), Some("p".to_string()));
    assert_eq!(picture_field(Some(None)), None);
    assert_eq!(picture_field(None), None);
    assert_eq!(refresh_token_field(None).ok().unwrap(), None);
    assert_eq!(refresh_token_field(s("r")).ok().unwrap(), Some("r".to_string()));
    assert_eq!(message(refresh_token_field(Some(None)).err().unwrap()), (500, "Error parsing refresh token".to_string()));
}

fn linked(email: &str, refresh: Option<Vec<u8>>) -> LinkedDrive {
    LinkedDrive {
        sub: "new-sub".to_string(),
        email: email.to_string(),
        image: Some("img".to_string()),
        access_token: vec![1, 2, 3],
        refresh_token: refresh,
        expires_in: 5000,
    }
}

#[test]
fn link_account_makes_a_new_row() {
    let row = link_account(None, 42, 9, &"me@gmail.com".to_string(), linked("me@gmail.com", Some(vec![4])));
    assert_eq!((row.id, row.user_id), (42, 9));
    assert_eq!(row.email, "me@gmail.com");
    assert!(row.is_primary);
    assert!(!row.token_expired);
    assert_eq!(row.sub, Some("new-sub".to_string()));
    assert_eq!(row.refresh_token, Some(vec![4]));
    assert_eq!(row.expires_in, Some(5000));
    assert_eq!(row.access_token, vec![1, 2, 3]);
    assert!(row.provider == Provider::Google);
}

#[test]
fn link_account_updates_an_existing_row() {
    let mut existing = account(3, "old@x.com", true);
    existing.refresh_token = Some(vec![8, 8]);
    let row = link_account(Some(existing), 42, 9, &"me@gmail.com".to_string(), linked("other@x.com", None));
    assert_eq!(row.id, 3);
    assert!(!row.is_primary);
    assert!(row.token_expired);
    assert_eq!(row.sub, Some("sub-1".to_string()));
    assert_eq!(row.refresh_token, Some(vec![8, 8]));
    assert_eq!(row.email, "other@x.com");
    assert_eq!(row.image, Some("img".to_string()));
}

#[test]
fn root_and_folder_lookups() {
    assert_eq!(root_drive_id(UUID_B).ok().unwrap(), UUID_B_VALUE);
    assert_eq!(message(root_drive_id("nope").err().unwrap()), (422, "Error during parsing cloud id".to_string()));
    assert_eq!(message(root_account(None).err().unwrap()), (500, "Error connecting to database".to_string()));
    assert_eq!(message(root_account(Some(None)).err().unwrap()), (404, "No Account with the id found".to_string()));
    assert_eq!(root_account(Some(Some(account(4, "a", false)))).ok().unwrap().id, 4);
    assert_eq!(message(folder_account(None).err().unwrap()), (500, "Error connecting to database".to_string()));
    assert_eq!(message(folder_account(Some(None)).err().unwrap()), (404, "Could not find such account".to_string()));
    assert_eq!(folder_account(Some(Some(account(5, "a", false)))).ok().unwrap().id, 5);
    assert_eq!(root_folder_id(Some(Some("0AB".to_string()))).ok().unwrap(), "0AB");
    assert_eq!(message(root_folder_id(None).err().unwrap()), (404, "Couldn't find the drive root".to_string()));
}

#[test]
fn listing_tokens_are_decrypted() {
    let acc = account(1, "a@x.com", false);
    assert_eq!(listing_token(&acc, &KEY).ok().unwrap(), "access");
    assert_eq!(
        message(listing_token(&acc, &[0u8; 32]).err().unwrap()),
        (401, "Error decrypting token please add the account again".to_string())
    );
    assert_eq!(shared_drives_token(Some(Some(account(1, "a", false))), &KEY).ok().unwrap(), "access");
    assert_eq!(message(shared_drives_token(None, &KEY).err().unwrap()), (500, "Couldn't cionnect to database".to_string()));
    assert_eq!(message(shared_drives_token(Some(None), &KEY).err().unwrap()), (403, "No such account found".to_string()));
    assert_eq!(
        message(shared_drives_token(Some(Some(account(1, "a", false))), &[3u8; 32]).err().unwrap()),
        (403, "Couldn't decrypt the token try refreshing or re adding the account".to_string())
    );
}

fn quota() -> StorageQuota {
    StorageQuota {
        limit: Some("100".to_string()),
        usage_in_drive: "10".to_string(),
        usage_in_drive_trash: "1".to_string(),
        usage: "11".to_string(),
    }
}

#[test]
fn account_reports_are_split_in_order() {
    let reports = vec![
        account_report(account(1, "a", false), Some(quota())),
        account_report(account(2, "b", false), None),
        account_report(account(3, "c", true), Some(quota())),
    ];
    let (ok, err) = split_reports(reports);
    assert_eq!(ok.iter().map(|r| r.info.id).collect::<Vec<_>>(), vec![1, 3]);
    assert!(ok.iter().all(|r| !r.info.token_expired && r.info.provider == Provider::Google));
    assert_eq!(ok[0].storage_quota.usage, "11");
    assert_eq!(ok[0].info.image, Some("pic".to_string()));
    assert_eq!(err.len(), 1);
    assert_eq!((err[0].id, err[0].email.as_str(), err[0].token_expired), (2, "b", true));
}

#[test]
fn search_urls_carry_the_page_token() {
    assert_eq!(
        search_folder_url("F1", &None),
        "https://www.googleapis.com/drive/v3/files?q='F1' in parents and trashed=false&fields=files(id,name,mimeType,parents,size,createdTime,modifiedTime),nextPageToken&supportsAllDrives=true&includeItemsFromAllDrives=true&spaces=drive"
    );
    assert!(search_folder_url("F1", &Some("P2".to_string())).ends_with("&spaces=drive&pageToken=P2"));
    assert_eq!(
        all_files_url(&Some("T".to_string())),
        "https://www.googleapis.com/drive/v3/files?spaces=drive&corpora=user&includeItemsFromAllDrives=true&supportsAllDrives=true&q=trashed=false&fields=files(id,name,mimeType,parents),nextPageToken&pageToken=T"
    );
}

#[test]
fn pager_gathers_pages_until_no_token() {
    let mut p: Pager<u32> = Pager::new();
    assert!(p.items.is_empty() && p.page_token.is_none() && !p.finished);
    p.on_page(vec![1, 2], Some("next".to_string()));
    assert_eq!(p.items, vec![1, 2]);
    assert_eq!(p.page_token, Some("next".to_string()));
    assert!(!p.finished);
    p.on_page(vec![3], None);
    assert_eq!(p.items, vec![1, 2, 3]);
    assert!(p.page_token.is_none());
    assert!(p.finished);
}

#[test]
fn parsed_forms_decide_as_the_text_forms() {
    assert_eq!(transfer_ids_from(Some(1), Some(2)).ok().unwrap(), (1, 2));
    assert_eq!(message(transfer_ids_from(None, Some(2)).err().unwrap()), (500, "Couldn't parse Id of from drive".to_string()));
    assert_eq!(message(transfer_ids_from(Some(1), None).err().unwrap()), (500, "Couldn't parse Id of to drive".to_string()));
    assert_eq!(message(transfer_ids_from(None, None).err().unwrap()), (500, "Couldn't parse Ids of any drive".to_string()));
    assert_eq!(drive_id_from(Some(8)).ok().unwrap(), 8);
    assert_eq!(message(drive_id_from(None).err().unwrap()), (422, "Error during parsing cloud id".to_string()));
    let c = claims_from(Some(3), "Free", 10).unwrap();
    assert_eq!((c.id, c.quota_type.as_str(), c.exp), (3, "Free", 10 + 604800));
    assert!(claims_from(None, "Free", 10).is_none());
    assert_eq!(redirect_or(Some("https://g/x".to_string()), "http://b", "/auth/drive"), "https://g/x");
    assert_eq!(redirect_or(None, "http://b", "/auth/drive"), "http://b/auth/drive");
}

#[test]
fn link_owner_refuses_a_missing_user() {
    assert_eq!(link_owner(Some("me@gmail.com".to_string())).ok().unwrap(), "me@gmail.com");
    assert_eq!(message(link_owner(None).err().unwrap()), (403, "User account not found".to_string()));
}
