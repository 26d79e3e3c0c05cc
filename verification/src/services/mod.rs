//! The API service, the refresh and transfer workers and the websocket service.
pub mod app_errors;
pub mod add_google_drive;
pub mod auth;
pub mod copy_google;
pub mod entities;
pub mod file_tree;
pub mod get_cloud_accounts;
pub mod google_get_folders;
pub mod google_search_folder;
pub mod handle_refresh;
pub mod jwt_config;
pub mod ws;
