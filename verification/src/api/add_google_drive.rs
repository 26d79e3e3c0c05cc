//! Linking a Google Drive account, as the first API server asked for it.
use crate::api::utils_export_envs::Envs;
use crate::services::auth::{google_auth_base, redirect_or, pair_views, parse_with_params, url_with_params};
use vstd::prelude::*;

verus! {

/// The query of the consent page for Drive access.
pub open spec fn drive_params(envs: Envs) -> Seq<(Seq<char>, Seq<char>)> {
    seq![
        ("client_id"@, envs.google_drive_client_id@),
        ("redirect_uri"@, envs.google_drive_redirect_url@),
        ("response_type"@, "code"@),
        ("scope"@, "drive"@),
        ("access_type"@, "offline"@),
        ("prompt"@, "consent"@),
    ]
}

fn pair(k: &str, v: &str) -> (p: (String, String))
    ensures
        p.0@ == k@,
        p.1@ == v@,
{
    (k.to_owned(), v.to_owned())
}

/// Where linking a Drive account redirects: Google's consent page, or the
/// backend's own `/auth/drive` where that URL cannot be made.
pub fn drive_auth_redirect(envs: &Envs) -> (r: String)
    ensures
        r@ == match url_with_params(google_auth_base(), drive_params(*envs)) {
            Some(u) => u,
            None => envs.backend_url@ + "/auth/drive"@,
        },
{
    let params = vec![
        pair("client_id", envs.google_drive_client_id.as_str()),
        pair("redirect_uri", envs.google_drive_redirect_url.as_str()),
        pair("response_type", "code"),
        pair("scope", "drive"),
        pair("access_type", "offline"),
        pair("prompt", "consent"),
    ];
    proof {
        assert(pair_views(params@) =~= drive_params(*envs));
    }
    redirect_or(parse_with_params("https://accounts.google.com/o/oauth2/v2/auth", &params), envs.backend_url.as_str(), "/auth/drive")
}

} // verus!
