//! A verified non-fungible-token registry: unique token issuance, page-table
//! ownership bookkeeping, schema-checked metadata, owner/spender/operator
//! authorization, and a versioned migration state machine.

pub mod config;
pub mod error;
pub mod hashing;
pub mod keys;
pub mod laws;
pub mod metadata;
pub mod migration;
pub mod pagetable;
pub mod principal;
pub mod registry;
pub mod registry_ops;
pub mod registry_read;
