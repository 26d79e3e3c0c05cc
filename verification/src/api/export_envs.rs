//! The one setting that the database connection reads.
use vstd::prelude::*;

verus! {

/// The URL of the database.
pub struct Envs {
    pub database_url: String,
}

} // verus!
