//! The logic of a cloud-drive manager's backend: the folder tree of a drive,
//! encryption of stored tokens, the decisions of its HTTP handlers and workers.
pub mod api;
pub mod common;
pub mod services;
