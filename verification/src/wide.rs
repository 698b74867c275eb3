//! Trusted 256-bit unsigned arithmetic for the wide intermediate
//! products of the trading formulas.

use vstd::arithmetic::power2::{lemma2_to64, lemma_pow2_adds, pow2};
use vstd::prelude::*;

verus! {

/// Declares the outside 256-bit integer type so it can stand in
/// signatures; its values are opaque except through `u256_val`.
#[verifier::external_type_specification]
#[verifier::external_body]
pub struct ExU256(ethers_core::types::U256);

/// The numeric value that a 256-bit unsigned integer holds. Every trusted
/// wrapper below speaks of its arguments and result through this function.
pub uninterp spec fn u256_val(x: ethers_core::types::U256) -> nat;

/// Relies on `U256::from(u128)`: widening a 128-bit value keeps it unchanged.
#[verifier::external_body]
pub(crate) fn u256_from_u128(x: u128) -> (r: ethers_core::types::U256)
    ensures
        u256_val(r) == x as nat,
{
    ethers_core::types::U256::from(x)
}

/// Relies on `U256::checked_mul`: `Some` of the exact product when it fits
/// 256 bits, `None` otherwise.
#[verifier::external_body]
pub(crate) fn u256_checked_mul(a: &ethers_core::types::U256, b: &ethers_core::types::U256) -> (r:
    Option<ethers_core::types::U256>)
    ensures
        r matches Some(c) ==> u256_val(c) == u256_val(*a) * u256_val(*b),
        r is Some <==> u256_val(*a) * u256_val(*b) < pow2(256),
{
    a.checked_mul(*b)
}

/// Relies on `U256::checked_add`: `Some` of the exact sum when it fits
/// 256 bits, `None` otherwise.
#[verifier::external_body]
pub(crate) fn u256_checked_add(a: &ethers_core::types::U256, b: &ethers_core::types::U256) -> (r:
    Option<ethers_core::types::U256>)
    ensures
        r matches Some(c) ==> u256_val(c) == u256_val(*a) + u256_val(*b),
        r is Some <==> u256_val(*a) + u256_val(*b) < pow2(256),
{
    a.checked_add(*b)
}

/// Relies on `U256::div_mod`: the floor quotient; panics only on a zero
/// divisor, which the precondition rules out.
#[verifier::external_body]
pub(crate) fn u256_div(a: &ethers_core::types::U256, b: &ethers_core::types::U256) -> (r:
    ethers_core::types::U256)
    requires
        u256_val(*b) > 0,
    ensures
        u256_val(r) == u256_val(*a) / u256_val(*b),
{
    a.div_mod(*b).0
}

/// Relies on `TryFrom<U256> for u128`: succeeds exactly when the value fits
/// 128 bits, and then returns it unchanged.
#[verifier::external_body]
pub(crate) fn u256_try_u128(a: &ethers_core::types::U256) -> (r: Option<u128>)
    ensures
        r matches Some(x) ==> x as nat == u256_val(*a),
        r is Some <==> u256_val(*a) < pow2(128),
{
    u128::try_from(*a).ok()
}

/// Numeric values of the powers of two that the wide arithmetic reasons with.
pub proof fn lemma_wide_pow2_facts()
    ensures
        pow2(128) == 0x100000000000000000000000000000000,
        pow2(256) == pow2(128) * pow2(128),
        pow2(128) * pow2(128) > pow2(128),
        u128::MAX as nat == pow2(128) - 1,
{
    lemma2_to64();
    lemma_pow2_adds(64, 64);
    lemma_pow2_adds(128, 128);
    assert(pow2(128) == 0x100000000000000000000000000000000) by {
        assert(0x10000000000000000 * 0x10000000000000000
            == 0x100000000000000000000000000000000nat) by (nonlinear_arith);
    }
    assert(pow2(128) * pow2(128) > pow2(128)) by (nonlinear_arith)
        requires
            pow2(128) > 1,
    ;
}

} // verus!
