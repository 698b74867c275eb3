//! Core computations of a constant-product automated-market-maker client:
//! deterministic pool address derivation, batched retrieval of pool reserves,
//! and multi-hop swap amount computation along a trade path.

pub mod address;
pub mod client;
pub mod errors;
pub mod hashing;
pub mod laws;
pub mod registry;
pub mod v2;
pub mod wide;
