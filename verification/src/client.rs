//! The interface to the remote ledger-query collaborator.

use crate::address::Address;
use vstd::prelude::*;

verus! {

/// The remote ledger-query collaborator. The core only needs per-pool raw
/// reserve tuples keyed by derived pool address; transport, retries and wire
/// encoding are the implementor's concern. A raw tuple reports the two
/// reserves in canonical token order together with a last-update marker,
/// which the core ignores.
pub trait LedgerClient {
    /// One remote read of a single pool's raw reserve tuple.
    fn get_pool_reserves(&mut self, pool: &Address) -> Result<(u128, u128, u32), String>;

    /// One aggregated remote read of many pools' raw reserve tuples, in the
    /// order requested. The whole batch fails on any single failure.
    fn get_many_pool_reserves(&mut self, pools: &Vec<Address>) -> Result<
        Vec<(u128, u128, u32)>,
        String,
    >;
}

} // verus!
