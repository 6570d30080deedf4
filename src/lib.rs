//! A peer-synchronized impact ledger: staked claims are screened by compliance rules,
//! accepted ones are mined into hash-linked blocks that pay reward and stake back, and
//! peers' claims, outcomes and blocks are merged idempotently.

pub mod block;
pub mod blockchain;
pub mod compliance;
pub mod digest;
pub mod json;
pub mod laws;
pub mod marketplace;
pub mod transaction;
pub mod wallet;
