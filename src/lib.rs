//! Migration of per-user sync records (collections and BSOs) into a
//! transactional destination store: collection registry reconciliation,
//! batch insert statement building and the per-shard migration plan.

pub mod collections;
pub mod error;
pub mod migrate;
pub mod records;
pub mod spanner;
pub mod sql;
pub mod text;
