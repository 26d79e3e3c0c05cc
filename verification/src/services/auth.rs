//! The decisions of the sign-in handlers and of the session check.
use crate::common::export_envs::Envs;
use crate::common::text::concat;
use crate::services::app_errors::AppError;
use crate::services::jwt_config::Claims;
use vstd::prelude::*;

verus! {

/// What `url::Url::parse_with_params(base, pairs)` gives, as the URL's text
/// (`Url::as_str`): the base URL with the pairs appended to its query,
/// form-encoded; `None` where `base` is no URL.
pub uninterp spec fn url_with_params(base: Seq<char>, pairs: Seq<(Seq<char>, Seq<char>)>) -> Option<
    Seq<char>,
>;

/// The views of a sequence of pairs of strings.
pub open spec fn pair_views(pairs: Seq<(String, String)>) -> Seq<(Seq<char>, Seq<char>)> {
    pairs.map_values(|p: (String, String)| (p.0@, p.1@))
}

/// `url::Url::parse_with_params(base, pairs)`, the URL taken as its text.
#[verifier::external_body]
pub(crate) fn parse_with_params(base: &str, pairs: &Vec<(String, String)>) -> (r: Option<String>)
    ensures
        r matches Some(u) ==> url_with_params(base@, pair_views(pairs@)) == Some(u@),
        r is None ==> url_with_params(base@, pair_views(pairs@)) is None,
{
    match url::Url::parse_with_params(base, pairs.iter()) {
        Ok(u) => Some(u.as_str().to_owned()),
        Err(_) => None,
    }
}

/// Google's OAuth consent page.
pub open spec fn google_auth_base() -> Seq<char> {
    "https://accounts.google.com/o/oauth2/v2/auth"@
}

/// The query of the consent page that links a Google Drive account.
pub open spec fn drive_auth_params(envs: Envs) -> Seq<(Seq<char>, Seq<char>)> {
    seq![
        ("client_id"@, envs.google_drive_client_id@),
        ("redirect_uri"@, envs.google_drive_redirect_url@),
        ("response_type"@, "code"@),
        ("scope"@, "openid email https://www.googleapis.com/auth/drive"@),
        ("access_type"@, "offline"@),
        ("prompt"@, "consent"@),
        ("include_granted_scope"@, "true"@),
    ]
}

fn pair(k: &str, v: &str) -> (p: (String, String))
    ensures
        p.0@ == k@,
        p.1@ == v@,
{
    (k.to_owned(), v.to_owned())
}

/// Where a consent redirect goes, from the consent page's URL as made
/// (`None` where it could not be made): that URL, or the backend's own
/// `path`.
pub fn redirect_or(parsed: Option<String>, backend_url: &str, path: &str) -> (r: String)
    ensures
        r@ == match parsed {
            Some(u) => u@,
            None => backend_url@ + path@,
        },
{
    match parsed {
        Some(uri) => uri,
        None => concat(backend_url, path),
    }
}

/// Where the handler that links a Google Drive account redirects: Google's
/// consent page for Drive access, or, where that URL cannot be made, the
/// backend's own `/auth/drive`.
pub fn drive_auth_redirect(envs: &Envs) -> (r: String)
    ensures
        r@ == match url_with_params(google_auth_base(), drive_auth_params(*envs)) {
            Some(u) => u,
            None => envs.backend_url@ + "/auth/drive"@,
        },
{
    let params = vec![
        pair("client_id", envs.google_drive_client_id.as_str()),
        pair("redirect_uri", envs.google_drive_redirect_url.as_str()),
        pair("response_type", "code"),
        pair("scope", "openid email https://www.googleapis.com/auth/drive"),
        pair("access_type", "offline"),
        pair("prompt", "consent"),
        pair("include_granted_scope", "true"),
    ];
    proof {
        assert(pair_views(params@) =~= drive_auth_params(*envs));
    }
    redirect_or(parse_with_params("https://accounts.google.com/o/oauth2/v2/auth", &params), envs.backend_url.as_str(), "/auth/drive")
}

/// The session token read from the `auth_token` cookie, or the refusal that
/// answers a request without it.
pub fn token_from_cookie(cookie: Option<String>) -> (r: Result<String, AppError>)
    ensures
        match cookie {
            Some(t) => r matches Ok(s) && s@ == t@,
            None => r matches Err(AppError::Unauthorised(Some(m))) && m@
                == "Authorisation Token not found"@,
        },
{
    match cookie {
        Some(token) => Ok(token),
        None => Err(AppError::Unauthorised(Some("Authorisation Token not found".to_owned()))),
    }
}

/// The claims of a session token that decoded, or the refusal that carries
/// the text of the decoding error.
pub fn claims_or_reject(decoded: Result<Claims, String>) -> (r: Result<Claims, AppError>)
    ensures
        match decoded {
            Ok(c) => r == Ok::<Claims, AppError>(c),
            Err(e) => r matches Err(AppError::Unauthorised(Some(m))) && m@ == e@,
        },
{
    match decoded {
        Ok(claims) => Ok(claims),
        Err(err) => Err(AppError::Unauthorised(Some(err))),
    }
}

/// The body of the answer of `get_cookie`: the session token, or "Token not
/// found" where the cookie is missing.
pub fn get_cookie(cookie: Option<String>) -> (r: Result<String, AppError>)
    ensures
        match cookie {
            Some(t) => r matches Ok(s) && s@ == t@,
            None => r matches Err(AppError::NotFound(Some(m))) && m@ == "Token not found"@,
        },
{
    match cookie {
        Some(token) => Ok(token),
        None => Err(AppError::NotFound(Some("Token not found".to_owned()))),
    }
}

/// The page of the frontend that a successful sign-in or account link
/// redirects to.
pub fn home_url(frontend_url: &str) -> (r: String)
    ensures
        r@ == frontend_url@ + "/home"@,
{
    concat(frontend_url, "/home")
}

/// When an access token expires: `expires_in` seconds after `now`, an hour
/// less a second where Google does not say.
pub fn access_token_expiry(now: i64, expires_in: Option<i64>) -> (r: i64)
    requires
        match expires_in {
            None => now + 3599 <= i64::MAX,
            Some(t) => i64::MIN <= now + t <= i64::MAX,
        },
    ensures
        r == now + match expires_in {
            None => 3599,
            Some(t) => t,
        },
{
    match expires_in {
        None => now + 3599,
        Some(t) => now + t,
    }
}

} // verus!
