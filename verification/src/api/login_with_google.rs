//! The decisions of the Google sign-in of the first API server.
use crate::api::utils_export_envs::Envs;
use crate::common::text::same_text;
use crate::services::app_errors::AppError;
use crate::services::auth::{google_auth_base, redirect_or, pair_views, parse_with_params, url_with_params};
use crate::services::entities::QuotaType;
use vstd::prelude::*;

verus! {

/// The query that Google sends back to the sign-in callback.
pub struct AuthRequest {
    pub code: String,
    pub state: Option<String>,
}

/// The query of the consent page for signing in.
pub open spec fn sign_in_params(envs: Envs) -> Seq<(Seq<char>, Seq<char>)> {
    seq![
        ("client_id"@, envs.google_client_id@),
        ("redirect_uri"@, envs.google_client_redirect_url@),
        ("response_type"@, "code"@),
        ("scope"@, "openid email profile"@),
        ("access_type"@, "offline"@),
        ("prompt"@, "consent"@),
    ]
}

fn pair(k: &str, v: &str) -> (p: (String, String))
    ensures
        p.0@ == k@,
        p.1@ == v@,
{
    (k.to_owned(), v.to_owned())
}

/// Where signing in redirects: Google's consent page, or the backend's own
/// `/auth/google` where that URL cannot be made.
pub fn google_auth_redirect(envs: &Envs) -> (r: String)
    ensures
        r@ == match url_with_params(google_auth_base(), sign_in_params(*envs)) {
            Some(u) => u,
            None => envs.backend_url@ + "/auth/google"@,
        },
{
    let params = vec![
        pair("client_id", envs.google_client_id.as_str()),
        pair("redirect_uri", envs.google_client_redirect_url.as_str()),
        pair("response_type", "code"),
        pair("scope", "openid email profile"),
        pair("access_type", "offline"),
        pair("prompt", "consent"),
    ];
    proof {
        assert(pair_views(params@) =~= sign_in_params(*envs));
    }
    redirect_or(parse_with_params("https://accounts.google.com/o/oauth2/v2/auth", &params), envs.backend_url.as_str(), "/auth/google")
}

/// The access token of Google's token reply: the empty string where the
/// field is no string, a refusal where it is absent.
pub fn sign_in_access_token(field: Option<Option<String>>) -> (r: Result<String, AppError>)
    ensures
        match field {
            None => r matches Err(AppError::Internal(Some(m))) && m@ == "Access token not received"@,
            Some(None) => r matches Ok(s) && s@ == Seq::<char>::empty(),
            Some(Some(t)) => r matches Ok(s) && s@ == t@,
        },
{
    match field {
        None => Err(AppError::Internal(Some("Access token not received".to_owned()))),
        Some(None) => Ok(String::new()),
        Some(Some(t)) => Ok(t),
    }
}

/// Signing in with a Google account is refused when that account was
/// linked as a drive by some user.
pub fn sign_in_allowed(linked_as_drive: bool) -> (r: Result<(), AppError>)
    ensures
        linked_as_drive <==> r is Err,
        r matches Err(AppError::Forbidden(Some(m))) ==> m@
            == "You Cannot Signin with this account as it was added by a different account"@,
        r matches Err(e) ==> e is Forbidden && e->Forbidden_0 is Some,
{
    if linked_as_drive {
        Err(
            AppError::Forbidden(
                Some(
                    "You Cannot Signin with this account as it was added by a different account".to_owned(),
                ),
            ),
        )
    } else {
        Ok(())
    }
}

/// A user's row; the id is a UUID as its 128-bit value.
pub struct UserRow {
    pub id: u128,
    pub gmail: String,
    pub name: String,
    pub image: Option<String>,
    pub sub: String,
}

/// The row of the user who signed in with Google's `gmail`, `name`, `image`
/// and `sub`: the existing row (found by `sub`) with the address, name and
/// picture updated, or a new row with id `new_id`.
pub fn signed_in_user(
    existing: Option<UserRow>,
    new_id: u128,
    gmail: String,
    name: String,
    image: String,
    sub: String,
) -> (r: UserRow)
    ensures
        r.gmail == gmail,
        r.name == name,
        r.image == Some(image),
        match existing {
            Some(u) => r.id == u.id && r.sub == u.sub,
            None => r.id == new_id && r.sub == sub,
        },
{
    match existing {
        Some(u) => UserRow { id: u.id, gmail, name, image: Some(image), sub: u.sub },
        None => UserRow { id: new_id, gmail, name, image: Some(image), sub },
    }
}

/// The name of a quota plan, as the session token carries it.
pub open spec fn quota_name_spec(q: QuotaType) -> Seq<char> {
    match q {
        QuotaType::Free => "Free"@,
        QuotaType::Bronze => "Bronze"@,
        QuotaType::Silver => "Silver"@,
        QuotaType::Gold => "Gold"@,
        QuotaType::Platinum => "Platinum"@,
    }
}

/// The name of a quota plan, as the session token carries it.
pub fn quota_name(q: QuotaType) -> (r: String)
    ensures
        r@ == quota_name_spec(q),
{
    match q {
        QuotaType::Free => "Free".to_owned(),
        QuotaType::Bronze => "Bronze".to_owned(),
        QuotaType::Silver => "Silver".to_owned(),
        QuotaType::Gold => "Gold".to_owned(),
        QuotaType::Platinum => "Platinum".to_owned(),
    }
}

/// Whether the session cookie is sent over HTTPS only: everywhere but in
/// development.
pub fn secure_cookie(environment: &String) -> (r: bool)
    ensures
        r == (environment@ != "DEVELOPMENT"@),
{
    !same_text(environment, "DEVELOPMENT")
}

} // verus!
