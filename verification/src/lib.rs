//! A deterministic custody and accounting protocol.
//!
//! The library derives collision-free custody addresses for logical
//! resources (a pool, an escrow, a listing, a staking configuration, a
//! DAO and its proposals), guards their one-time initialization under an
//! authenticated authority, moves token value between custody vaults
//! atomically, and keeps overflow-checked running counters that never
//! diverge from the custodied balances.

pub mod addr;
pub mod codec;
pub mod counter;
pub mod dao;
pub mod escrow;
pub mod engine;
pub mod errors;
pub mod guard;
pub mod keys;
pub mod listing;
pub mod pool;
pub mod staking;
pub mod record;
