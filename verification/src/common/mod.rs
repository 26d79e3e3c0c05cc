//! Code that the services share.
pub mod encrypt;
pub mod export_envs;
pub mod text;
pub mod uuid_text;
