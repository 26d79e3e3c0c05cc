use unicloud::services::handle_refresh::refresh_round;
use unicloud::services::ws::{request_token, request_url};
use unicloud::services::ws::{after_dedupe, session_step, DedupeAction, WsAction, WsEvent};
use unicloud::services::handle_refresh::refresh_plan;
use unicloud::services::handle_refresh::{retry_after, row_after, TokenUpdate};
use unicloud::services::handle_refresh::queued_user_id;
use unicloud::common::encrypt::{decrypt, encrypt};
use unicloud::services::entities::{CloudAccount, Provider};
use unicloud::services::handle_refresh::{
    needs_refresh, refresh_decision, refresh_token_to_send, GoogleError, GoogleResponse, GoogleResult,
    RefreshDecision, REFRESH_MARGIN,
};
use unicloud::services::ws::{is_refresh_request, max_workers, query_token, refresh_score, REFRESH_LEAD};

const KEY: [u8; 32] = [0x5au8; 32];
const NOW: i64 = 1_700_000_000;

fn account(provider: Provider, expires_in: Option<i64>, token_expired: bool, refresh: Option<&str>) -> CloudAccount {
    CloudAccount {
        id: 1,
        email: "a@x.com".to_string(),
        access_token: encrypt("access", &KEY).ok().unwrap(),
        refresh_token: refresh.map(|t| encrypt(t, &KEY).ok().unwrap()),
        expires_in,
        is_primary: true,
        provider,
        user_id: 2,
        sub: None,
        image: None,
        token_expired,
    }
}

fn response(refresh: Option<&str>) -> GoogleResponse {
    GoogleResponse {
        access_token: "new-access".to_string(),
        expires_in: 3599,
        refresh_token: refresh.map(|t| t.to_string()),
        scope: "drive".to_string(),
        token_type: "Bearer".to_string(),
    }
}

fn failure(error: &str, description: &str) -> Option<GoogleResult> {
    Some(GoogleResult::Failure(GoogleError { error: error.to_string(), error_description: description.to_string() }))
}

#[test]
fn needs_refresh_only_for_due_google_accounts() {
    assert_eq!(REFRESH_MARGIN, 300);
    assert!(needs_refresh(&account(Provider::Google, Some(NOW - 301), false, None), NOW));
    assert!(!needs_refresh(&account(Provider::Google, Some(NOW - 300), false, None), NOW));
    assert!(!needs_refresh(&account(Provider::Google, Some(NOW + 1000), false, None), NOW));
    assert!(needs_refresh(&account(Provider::Google, None, false, None), NOW));
    assert!(!needs_refresh(&account(Provider::Google, None, true, None), NOW));
    assert!(!needs_refresh(&account(Provider::Mega, None, false, None), NOW));
}

#[test]
fn refresh_token_to_send_decrypts_the_stored_token() {
    let due = account(Provider::Google, Some(0), false, Some("1//refresh"));
    assert_eq!(refresh_token_to_send(&due, NOW, &KEY), Some("1//refresh".to_string()));
    assert_eq!(refresh_token_to_send(&due, NOW, &[0u8; 32]), None);
    let none = account(Provider::Google, Some(0), false, None);
    assert_eq!(refresh_token_to_send(&none, NOW, &KEY), None);
    let fresh = account(Provider::Google, Some(NOW + 5000), false, Some("1//refresh"));
    assert_eq!(refresh_token_to_send(&fresh, NOW, &KEY), None);
}

#[test]
fn refresh_decision_marks_a_revoked_token() {
    assert!(matches!(
        refresh_decision(failure("invalid_grant", "Token has been expired or revoked."), NOW, &KEY),
        RefreshDecision::MarkExpired
    ));
    assert!(matches!(refresh_decision(failure("invalid_grant", "Bad Request"), NOW, &KEY), RefreshDecision::Skip));
    assert!(matches!(
        refresh_decision(failure("invalid_client", "Token has been expired or revoked."), NOW, &KEY),
        RefreshDecision::Skip
    ));
    assert!(matches!(refresh_decision(None, NOW, &KEY), RefreshDecision::Skip));
}

#[test]
fn refresh_decision_stores_encrypted_tokens() {
    match refresh_decision(Some(GoogleResult::Success(response(Some("1//new")))), NOW, &KEY) {
        RefreshDecision::Store(u) => {
            assert_eq!(u.expires_in, NOW + 3599);
            assert_eq!(decrypt(u.access_token, &KEY).ok().unwrap(), "new-access");
            assert_eq!(decrypt(u.refresh_token.unwrap(), &KEY).ok().unwrap(), "1//new");
        },
        _ => panic!("expected the tokens to be stored"),
    }
    match refresh_decision(Some(GoogleResult::Success(response(None))), NOW, &KEY) {
        RefreshDecision::Store(u) => {
            assert!(u.refresh_token.is_none());
            assert_eq!(decrypt(u.access_token, &KEY).ok().unwrap(), "new-access");
        },
        _ => panic!("expected the tokens to be stored"),
    }
}

#[test]
fn refresh_score_is_five_minutes_early() {
    assert_eq!(REFRESH_LEAD, 300);
    assert_eq!(refresh_score(NOW), NOW - 300);
}

#[test]
fn query_token_takes_the_last_token_pair() {
    let pairs = vec![
        ("token".to_string(), "first".to_string()),
        ("other".to_string(), "x".to_string()),
        ("token".to_string(), "second".to_string()),
        ("tokens".to_string(), "no".to_string()),
    ];
    assert_eq!(query_token(&pairs), Some("second".to_string()));
    assert_eq!(query_token(&vec![("a".to_string(), "b".to_string())]), None);
    assert_eq!(query_token(&Vec::new()), None);
}

#[test]
fn refresh_requests_and_worker_count() {
    assert!(is_refresh_request(&"Refresh Token".to_string()));
    assert!(!is_refresh_request(&"refresh token".to_string()));
    assert_eq!(max_workers(Some(8), &"PRODUCTION".to_string()), 16);
    assert_eq!(max_workers(Some(8), &"DEVELOPMENT".to_string()), 8);
    assert_eq!(max_workers(None, &"PRODUCTION".to_string()), 8);
    assert_eq!(max_workers(None, &"".to_string()), 4);
}

#[test]
fn request_token_reads_the_last_token_of_the_query() {
    let url = request_url("/?token=abc&x=1&token=d%20e");
    assert_eq!(url, "ws://127.0.0.1:8080/?token=abc&x=1&token=d%20e");
    assert_eq!(request_token(&url), Ok(Some("d e".to_string())));
    assert_eq!(request_token(&request_url("/socket?x=1")), Ok(None));
    assert_eq!(request_token("no url at all"), Err(()));
}

#[test]
fn session_steps() {
    let text = |t: &str| WsEvent::Text(t.to_string());
    match session_step(Err("bad".to_string()), text("Refresh Token")) {
        WsAction::SendAndStop(m) => assert_eq!(m, "Error Validating User from the websocket server"),
        _ => panic!("expected the session to end"),
    }
    assert!(matches!(session_step(Ok(5), text("Refresh Token")), WsAction::QueueRefresh(5)));
    assert!(matches!(session_step(Ok(5), text("hello")), WsAction::Continue));
    assert!(matches!(session_step(Ok(5), WsEvent::Other), WsAction::Continue));
    assert!(matches!(session_step(Ok(5), WsEvent::ReadError), WsAction::Stop));
    match session_step(Ok(5), WsEvent::NotUtf8("oops".to_string())) {
        WsAction::SendAndStop(m) => assert_eq!(m, "Server got oops"),
        _ => panic!("expected the session to end"),
    }
    assert!(matches!(after_dedupe(Some(true)), DedupeAction::Push));
    assert!(matches!(after_dedupe(Some(false)), DedupeAction::Skip));
    assert!(matches!(after_dedupe(None), DedupeAction::Stop));
}

#[test]
fn refresh_plan_takes_only_due_accounts_of_the_user() {
    let mut other_user = account(Provider::Google, Some(0), false, Some("r-other"));
    other_user.user_id = 77;
    let accs = vec![
        account(Provider::Google, Some(0), false, Some("r1")),
        account(Provider::Google, Some(NOW + 5000), false, Some("r-fresh")),
        account(Provider::Google, None, true, Some("r-revoked")),
        account(Provider::Mega, None, false, Some("r-mega")),
        account(Provider::Google, None, false, None),
        other_user,
        account(Provider::Google, None, false, Some("r2")),
    ];
    let plan = refresh_plan(&accs, 2, NOW, &KEY);
    assert_eq!(plan, vec![(0, "r1".to_string()), (6, "r2".to_string())]);
    assert!(refresh_plan(&accs, 3, NOW, &KEY).is_empty());
}

#[test]
fn row_after_and_retry_flag() {
    let acc = account(Provider::Google, Some(0), false, Some("old"));
    let kept = acc.refresh_token.clone();
    let marked = row_after(acc, &RefreshDecision::MarkExpired).unwrap();
    assert!(marked.token_expired);
    assert_eq!(marked.refresh_token, kept);
    let acc = account(Provider::Google, Some(0), true, Some("old"));
    let update = RefreshDecision::Store(TokenUpdate { access_token: vec![1, 2], refresh_token: None, expires_in: 99 });
    let stored = row_after(acc, &update).unwrap();
    assert_eq!((stored.access_token.clone(), stored.expires_in, stored.token_expired), (vec![1, 2], Some(99), false));
    assert_eq!(stored.email, "a@x.com");
    assert!(row_after(account(Provider::Google, None, false, None), &RefreshDecision::Skip).is_none());
    assert!(row_after(account(Provider::Google, None, false, None), &RefreshDecision::Retry).is_none());
    assert!(!retry_after(false, &RefreshDecision::Skip, false));
    assert!(retry_after(false, &RefreshDecision::Retry, false));
    assert!(retry_after(false, &update, true));
    assert!(!retry_after(false, &update, false));
    assert!(!retry_after(false, &RefreshDecision::MarkExpired, true));
    assert!(retry_after(true, &RefreshDecision::Skip, false));
}

#[test]
fn queued_user_ids_are_uuids() {
    assert_eq!(queued_user_id("67e55044-10b1-426f-9247-bb680e5fe0c8"), Some(0x67e5504410b1426f9247bb680e5fe0c8));
    assert_eq!(queued_user_id("userid"), None);
}

#[test]
fn refresh_round_writes_only_planned_accounts() {
    let mut accs = vec![
        account(Provider::Google, Some(0), false, Some("r0")),
        account(Provider::Google, Some(NOW + 5000), false, Some("r1")),
        account(Provider::Google, None, false, Some("r2")),
        account(Provider::Google, None, false, Some("r3")),
    ];
    for (n, a) in accs.iter_mut().enumerate() {
        a.id = n as u128 + 100;
    }
    let plan = refresh_plan(&accs, 2, NOW, &KEY);
    assert_eq!(plan.iter().map(|p| p.0).collect::<Vec<_>>(), vec![0, 2, 3]);
    let replies = vec![
        (failure("invalid_grant", "Token has been expired or revoked."), NOW),
        (Some(GoogleResult::Success(response(None))), NOW + 10),
        (None, NOW),
    ];
    let (writes, retry) = refresh_round(accs, &plan, replies, &KEY);
    assert!(!retry);
    assert_eq!(writes.len(), 2);
    let (i0, row0, stores0) = &writes[0];
    assert_eq!((*i0, row0.id, row0.token_expired, *stores0), (0, 100, true, false));
    let (i1, row1, stores1) = &writes[1];
    assert_eq!((*i1, row1.id, row1.token_expired, *stores1), (2, 102, false, true));
    assert_eq!(row1.expires_in, Some(NOW + 10 + 3599));
    assert_eq!(decrypt(row1.access_token.clone(), &KEY).ok().unwrap(), "new-access");
    assert_eq!(decrypt(row1.refresh_token.clone().unwrap(), &KEY).ok().unwrap(), "r2");
}

#[test]
fn user_ids_read_every_uuid_form() {
    let v = 0x67e5504410b1426f9247bb680e5fe0c8u128;
    assert_eq!(queued_user_id("67e5504410b1426f9247bb680e5fe0c8"), Some(v));
    assert_eq!(queued_user_id("67E55044-10B1-426F-9247-BB680E5FE0C8"), Some(v));
    assert_eq!(queued_user_id("{67e55044-10b1-426f-9247-bb680e5fe0c8}"), Some(v));
    assert_eq!(queued_user_id("URN:uuid:67e55044-10b1-426f-9247-bb680e5fe0c8"), Some(v));
    assert_eq!(queued_user_id("67e55044_10b1-426f-9247-bb680e5fe0c8"), None);
    assert_eq!(queued_user_id("(67e55044-10b1-426f-9247-bb680e5fe0c8)"), None);
    assert_eq!(queued_user_id("67e5504410b1426f9247bb680e5fe0cg"), None);
    assert_eq!(queued_user_id("urn:uuid:67e5504410b1426f9247bb680e5fe0c8"), None);
}
