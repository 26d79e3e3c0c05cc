//! The first API server: Google sign-in and the linking of Google Drive.
pub mod add_google_drive;
pub mod encrypt;
pub mod export_envs;
pub mod jwt_config;
pub mod login_with_google;
pub mod middleware;
pub mod utils_export_envs;
