//! The rows of the database that the decisions read, as plain values.
use vstd::prelude::*;

verus! {

/// The storage provider of a linked cloud account.
#[derive(PartialEq, Eq, Structural, Clone, Copy)]
pub enum Provider {
    Google,
    Mega,
}

/// The quota plan of a user.
#[derive(PartialEq, Eq, Structural, Clone, Copy)]
pub enum QuotaType {
    Free,
    Bronze,
    Silver,
    Gold,
    Platinum,
}

/// The kind of a transfer job.
#[derive(PartialEq, Eq, Structural, Clone, Copy)]
pub enum TransferType {
    GoogleToGoogle,
    MegaToGoogle,
}

/// The state of a transfer job.
#[derive(PartialEq, Eq, Structural, Clone, Copy)]
pub enum Status {
    Pending,
    Running,
    Completed,
    Failed,
}

/// A linked cloud account; ids are UUIDs as their 128-bit values, tokens are
/// stored encrypted.
pub struct CloudAccount {
    pub id: u128,
    pub email: String,
    pub access_token: Vec<u8>,
    pub refresh_token: Option<Vec<u8>>,
    pub expires_in: Option<i64>,
    pub is_primary: bool,
    pub provider: Provider,
    pub user_id: u128,
    pub sub: Option<String>,
    pub image: Option<String>,
    pub token_expired: bool,
}

} // verus!
