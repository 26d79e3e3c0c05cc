//! The settings of the first API server.
use vstd::prelude::*;

verus! {

/// The settings of the first API server.
pub struct Envs {
    pub database_url: String,
    pub google_client_id: String,
    pub google_client_secret: String,
    pub google_client_redirect_url: String,
    pub backend_url: String,
    pub jwt_secret: String,
    pub frontend_url: String,
    pub environment: String,
    pub google_drive_client_id: String,
    pub google_drive_client_secret: String,
    pub google_drive_redirect_url: String,
    pub encryption_key: [u8; 32],
}

} // verus!
