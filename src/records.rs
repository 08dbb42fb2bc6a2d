//! Users and their records as read from the source store.

use vstd::prelude::*;

verus! {

/// An account: its identifier, its key identifier and its shard.
pub struct User {
    pub fxa_uid: String,
    pub fxa_kid: String,
    pub bso: u32,
}

/// A sync record of a user.
pub struct Bso {
    pub col_name: String,
    pub col_id: u16,
    pub bso_id: String,
    pub expiry: i64,
    pub modify: i64,
    pub payload: String,
    pub sort_index: Option<i32>,
}

/// The sort index written for a record: zero where it has none.
pub open spec fn sort_index_or_zero(b: &Bso) -> int {
    match b.sort_index {
        Some(v) => v as int,
        None => 0,
    }
}

} // verus!
