//! Decision core of a sandwich strategy: it tracks the chain head and the
//! registry of liquidity pools, and decides for every pending transaction how
//! far it gets through the filter pipeline.
//!
//! Everything here works on plain values. Fetching blocks, tracing
//! transactions and discovering pools is left to the caller, who hands the
//! results in and acts on the step that comes back.

pub mod address_set;
pub mod block;
pub mod bot;
pub mod pool;
pub mod pool_manager;
pub mod primitives;
pub mod registry;
pub mod victim;
