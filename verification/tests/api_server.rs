use unicloud::api::add_google_drive::drive_auth_redirect;
use unicloud::api::jwt_config::{claims_for, Claims};
use unicloud::api::login_with_google::{
    google_auth_redirect, quota_name, secure_cookie, sign_in_access_token, sign_in_allowed, signed_in_user, UserRow,
};
use unicloud::api::middleware::check_session;
use unicloud::api::utils_export_envs::Envs;
use unicloud::services::app_errors::AppError;
use unicloud::services::entities::QuotaType;

fn envs(backend: &str) -> Envs {
    Envs {
        database_url: "postgres://db".to_string(),
        google_client_id: "client-1".to_string(),
        google_client_secret: "secret".to_string(),
        google_client_redirect_url: "http://localhost:8000/auth/google/callback".to_string(),
        backend_url: backend.to_string(),
        jwt_secret: "jwt".to_string(),
        frontend_url: "http://localhost:3000".to_string(),
        environment: "PRODUCTION".to_string(),
        google_drive_client_id: "drive-1".to_string(),
        google_drive_client_secret: "dsecret".to_string(),
        google_drive_redirect_url: "http://localhost:8000/auth/drive/callback".to_string(),
        encryption_key: [0u8; 32],
    }
}

fn parts(e: AppError) -> (u16, String) {
    e.into_parts()
}

#[test]
fn google_auth_redirect_asks_for_profile() {
    assert_eq!(
        google_auth_redirect(&envs("http://localhost:8000")),
        "https://accounts.google.com/o/oauth2/v2/auth?client_id=client-1&redirect_uri=http%3A%2F%2Flocalhost%3A8000%2Fauth%2Fgoogle%2Fcallback&response_type=code&scope=openid+email+profile&access_type=offline&prompt=consent"
    );
}

#[test]
fn api_drive_auth_redirect_asks_for_drive() {
    assert_eq!(
        drive_auth_redirect(&envs("http://localhost:8000")),
        "https://accounts.google.com/o/oauth2/v2/auth?client_id=drive-1&redirect_uri=http%3A%2F%2Flocalhost%3A8000%2Fauth%2Fdrive%2Fcallback&response_type=code&scope=drive&access_type=offline&prompt=consent"
    );
}

#[test]
fn sign_in_access_token_cases() {
    assert_eq!(sign_in_access_token(Some(Some("at".to_string()))).ok().unwrap(), "at");
    assert_eq!(sign_in_access_token(Some(None)).ok().unwrap(), "");
    assert_eq!(parts(sign_in_access_token(None).err().unwrap()), (500, "Access token not received".to_string()));
}

#[test]
fn sign_in_is_refused_for_a_linked_drive() {
    assert!(sign_in_allowed(false).is_ok());
    assert_eq!(
        parts(sign_in_allowed(true).err().unwrap()),
        (403, "You Cannot Signin with this account as it was added by a different account".to_string())
    );
}

#[test]
fn quota_names() {
    assert_eq!(quota_name(QuotaType::Free), "Free");
    assert_eq!(quota_name(QuotaType::Bronze), "Bronze");
    assert_eq!(quota_name(QuotaType::Silver), "Silver");
    assert_eq!(quota_name(QuotaType::Gold), "Gold");
    assert_eq!(quota_name(QuotaType::Platinum), "Platinum");
}

#[test]
fn cookies_are_secure_outside_development() {
    assert!(!secure_cookie(&"DEVELOPMENT".to_string()));
    assert!(secure_cookie(&"PRODUCTION".to_string()));
    assert!(secure_cookie(&"development".to_string()));
}

#[test]
fn api_claims_last_a_week() {
    let c = claims_for("1234", "Free", 1000);
    assert_eq!((c.sub.as_str(), c.quota_type.as_str(), c.exp), ("1234", "Free", 1000 + 604800));
}

#[test]
fn check_session_refuses_expired_and_undecodable_tokens() {
    let c = || Claims { sub: "s".to_string(), quota_type: "Free".to_string(), exp: 500 };
    assert_eq!(check_session(Ok(c()), 500).ok().unwrap().sub, "s");
    assert_eq!(parts(check_session(Ok(c()), 501).err().unwrap()), (401, "Token expired".to_string()));
    assert_eq!(parts(check_session(Err("InvalidToken".to_string()), 0).err().unwrap()), (401, "InvalidToken".to_string()));
}

#[test]
fn signed_in_user_updates_or_creates_the_row() {
    let existing = UserRow {
        id: 7,
        gmail: "old@gmail.com".to_string(),
        name: "Old".to_string(),
        image: None,
        sub: "sub-7".to_string(),
    };
    let row = signed_in_user(
        Some(existing),
        99,
        "new@gmail.com".to_string(),
        "New".to_string(),
        "pic".to_string(),
        "other".to_string(),
    );
    assert_eq!((row.id, row.sub.as_str()), (7, "sub-7"));
    assert_eq!((row.gmail.as_str(), row.name.as_str()), ("new@gmail.com", "New"));
    assert_eq!(row.image, Some("pic".to_string()));
    let row = signed_in_user(None, 99, "a@gmail.com".to_string(), "A".to_string(), "p".to_string(), "s".to_string());
    assert_eq!((row.id, row.sub.as_str(), row.gmail.as_str()), (99, "s", "a@gmail.com"));
}
