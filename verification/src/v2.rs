//! Pair canonicalization, reserve retrieval and the constant-product
//! trading formulas.

use crate::address::{bytes_lt, is_zero_address, lemma_bytes_lt_asymmetric,
    lemma_bytes_lt_trichotomy, Address};
use crate::client::LedgerClient;
use crate::errors::AmmError;
use crate::hashing::{create2_address, create2_bytes, keccak, keccak256_bytes, pool_address_bytes};
use crate::wide::{lemma_wide_pow2_facts, u256_checked_add, u256_checked_mul, u256_div,
    u256_from_u128, u256_try_u128, u256_val};
use vstd::arithmetic::div_mod::{lemma_div_is_ordered_by_denominator, lemma_div_is_strictly_smaller,
    lemma_multiply_divide_lt};
use vstd::arithmetic::power2::pow2;
use vstd::prelude::*;

verus! {

/// The identity of a pool factory: its own address and the fixed hash of the
/// pool contract's deployment bytecode. Both are static per network and
/// treated as opaque inputs.
#[derive(Clone, Copy)]
pub struct Factory {
    pub address: Address,
    pub pair_code_hash: [u8; 32],
}

/// The constant-product library: pair canonicalization, pool address
/// derivation, and the trading formulas.
pub struct Library;

/// What sorting a token pair returns: the pair in ascending byte order, or
/// the validation failure. The identical-check precedes the zero-check,
/// matching the protocol's own validation order.
pub open spec fn spec_sort_tokens(a: Address, b: Address) -> Result<(Address, Address), AmmError> {
    if a@ == b@ {
        Err(AmmError::IdenticalTokens)
    } else {
        let lo = if bytes_lt(a@, b@) {
            a
        } else {
            b
        };
        let hi = if bytes_lt(a@, b@) {
            b
        } else {
            a
        };
        if is_zero_address(lo@) {
            Err(AmmError::ZeroToken)
        } else {
            Ok((lo, hi))
        }
    }
}

/// Whether two tokens form a valid pair: distinct, and the lower one not the
/// zero address.
pub open spec fn pair_valid(a: Seq<u8>, b: Seq<u8>) -> bool {
    a != b && !is_zero_address(
        if bytes_lt(a, b) {
            a
        } else {
            b
        },
    )
}

/// The validation failure of an invalid pair.
pub open spec fn pair_error(a: Seq<u8>, b: Seq<u8>) -> AmmError {
    if a == b {
        AmmError::IdenticalTokens
    } else {
        AmmError::ZeroToken
    }
}

/// The proportional conversion `floor(amount_a * reserve_b / reserve_a)`.
/// The amount ranges over the full 256-bit domain.
pub open spec fn quote_num(amount_a: int, reserve_a: u128, reserve_b: u128) -> int {
    (amount_a * reserve_b as int) / reserve_a as int
}

/// The failure of a quote, if any, for an amount in the full 256-bit
/// domain. A product beyond 256 bits is refused explicitly; the quotient of
/// a product that fits always fits in turn.
pub open spec fn quote_err(amount_a: int, reserve_a: u128, reserve_b: u128) -> Option<AmmError> {
    if amount_a <= 0 {
        Some(AmmError::InsufficientAmount)
    } else if reserve_a == 0 || reserve_b == 0 {
        Some(AmmError::InsufficientLiquidity)
    } else if amount_a * reserve_b as int >= pow2(256) {
        Some(AmmError::Overflow)
    } else {
        None
    }
}

/// The maximum output of a swap: the 0.3% fee is taken from the input side,
/// and the division truncates toward zero. The input amount ranges over the
/// full 256-bit domain.
pub open spec fn amount_out_num(amount_in: int, reserve_in: u128, reserve_out: u128) -> int {
    (amount_in * 997 * reserve_out as int) / (reserve_in as int * 1000 + amount_in * 997)
}

/// The failure of an output computation, if any, for an input amount in the
/// full 256-bit domain. An intermediate product or sum beyond 256 bits is
/// refused explicitly. When no failure applies, the result is exactly
/// `amount_out_num`, which is strictly below the output reserve.
pub open spec fn amount_out_err(amount_in: int, reserve_in: u128, reserve_out: u128) -> Option<
    AmmError,
> {
    if amount_in <= 0 {
        Some(AmmError::InsufficientInputAmount)
    } else if reserve_in == 0 || reserve_out == 0 {
        Some(AmmError::InsufficientLiquidity)
    } else if amount_in * 997 * reserve_out as int >= pow2(256) || reserve_in as int * 1000
        + amount_in * 997 >= pow2(256) {
        Some(AmmError::Overflow)
    } else {
        None
    }
}

/// One forward step of an output chain: no failure applies to the earlier
/// amount, and the later amount is exactly the maximum output.
pub open spec fn amount_out_step_ok(
    earlier: ethers_core::types::U256,
    reserve_in: u128,
    reserve_out: u128,
    later: ethers_core::types::U256,
) -> bool {
    amount_out_err(u256_val(earlier) as int, reserve_in, reserve_out) is None && u256_val(later)
        == amount_out_num(u256_val(earlier) as int, reserve_in, reserve_out)
}

/// The required input of a swap, rounded up by one so the caller never
/// under-supplies input relative to the desired output. The output amount
/// ranges over the full 256-bit domain.
pub open spec fn amount_in_num(amount_out: int, reserve_in: u128, reserve_out: u128) -> int {
    (reserve_in as int * amount_out * 1000) / ((reserve_out as int - amount_out) * 997) + 1
}

/// The failure of a required-input computation, if any, for an output
/// amount in the full 256-bit domain. An output that meets or exceeds the
/// reserve would underflow the subtraction and is refused as missing
/// liquidity rather than allowed to wrap; a numerator beyond 256 bits is
/// refused explicitly. When no failure applies, the result is exactly
/// `amount_in_num`, which then always fits 256 bits.
pub open spec fn amount_in_err(amount_out: int, reserve_in: u128, reserve_out: u128) -> Option<
    AmmError,
> {
    if amount_out <= 0 {
        Some(AmmError::InsufficientOutputAmount)
    } else if reserve_in == 0 || reserve_out == 0 {
        Some(AmmError::InsufficientLiquidity)
    } else if amount_out >= reserve_out {
        Some(AmmError::InsufficientLiquidity)
    } else if reserve_in as int * amount_out * 1000 >= pow2(256) {
        Some(AmmError::Overflow)
    } else {
        None
    }
}

/// One backward step of a required-input chain: no failure applies to the
/// later amount, and the earlier amount is exactly the required input.
pub open spec fn amount_in_step_ok(
    later: ethers_core::types::U256,
    reserve_in: u128,
    reserve_out: u128,
    earlier: ethers_core::types::U256,
) -> bool {
    amount_in_err(u256_val(later) as int, reserve_in, reserve_out) is None && u256_val(earlier)
        == amount_in_num(u256_val(later) as int, reserve_in, reserve_out)
}

/// Whether every consecutive pair of a path is a valid pair.
pub open spec fn path_pairs_valid(p: Seq<Address>) -> bool {
    forall|i: int| 0 <= i < p.len() - 1 ==> pair_valid(#[trigger] p[i]@, p[i + 1]@)
}

/// Appends the 20 bytes of an address to a buffer.
fn push_address_bytes(data: &mut Vec<u8>, addr: &Address)
    ensures
        final(data)@ == old(data)@ + addr@,
{
    let mut i: usize = 0;
    while i < 20
        invariant
            i <= 20,
            data@ == old(data)@ + addr@.subrange(0, i as int),
        decreases 20 - i,
    {
        data.push(addr.bytes[i]);
        proof {
            assert(addr@.subrange(0, i + 1) =~= addr@.subrange(0, i as int).push(addr@[i as int]));
            assert(data@ == old(data)@ + addr@.subrange(0, i + 1));
        }
        i += 1;
    }
    proof {
        assert(addr@.subrange(0, 20) =~= addr@);
    }
}

impl Library {
    /// Returns the pair in ascending byte order; pool reserves are reported
    /// in this canonical order.
    pub fn sort_tokens(a: Address, b: Address) -> (r: Result<(Address, Address), AmmError>)
        ensures
            r == spec_sort_tokens(a, b),
    {
        let ab = a.lt(&b);
        let ba = b.lt(&a);
        proof {
            if ab {
                lemma_bytes_lt_asymmetric(a@, b@);
            } else if ba {
                lemma_bytes_lt_asymmetric(b@, a@);
            } else {
                lemma_bytes_lt_trichotomy(a@, b@);
            }
        }
        if !ab && !ba {
            return Err(AmmError::IdenticalTokens);
        }
        let lo = if ab {
            a
        } else {
            b
        };
        let hi = if ab {
            b
        } else {
            a
        };
        if lo.is_zero() {
            return Err(AmmError::ZeroToken);
        }
        Ok((lo, hi))
    }

    /// Calculates the deterministic deployment address of a pair's pool
    /// without any remote call. A pure function of its inputs: identical
    /// inputs always yield the identical output.
    pub fn pair_for(factory: &Factory, a: Address, b: Address) -> (r: Result<Address, AmmError>)
        ensures
            spec_sort_tokens(a, b) matches Err(e) ==> r == Err::<Address, AmmError>(e),
            spec_sort_tokens(a, b) is Ok ==> (r matches Ok(p) && p@ == pool_address_bytes(
                factory.address@,
                factory.pair_code_hash@,
                a@,
                b@,
            )),
    {
        let (lo, hi) = match Self::sort_tokens(a, b) {
            Ok(t) => t,
            Err(e) => {
                return Err(e);
            },
        };
        let mut data: Vec<u8> = Vec::new();
        push_address_bytes(&mut data, &lo);
        push_address_bytes(&mut data, &hi);
        proof {
            assert(data@ == lo@ + hi@);
        }
        let salt = keccak256_bytes(&data);
        let pool = create2_address(&factory.address, &salt, &factory.pair_code_hash);
        proof {
            assert(salt@ == keccak(lo@ + hi@));
            assert(pool@ == create2_bytes(factory.address@, keccak(lo@ + hi@),
                factory.pair_code_hash@));
        }
        Ok(pool)
    }

    /// Given some amount of an asset and pair reserves, returns the
    /// equivalent amount of the other asset. The quotient can need up to
    /// 256 bits, so it is returned in that width.
    pub fn quote(
        amount_a: ethers_core::types::U256,
        reserve_a: u128,
        reserve_b: u128,
    ) -> (r: Result<ethers_core::types::U256, AmmError>)
        ensures
            quote_err(u256_val(amount_a) as int, reserve_a, reserve_b) matches Some(e) ==> r
                == Err::<ethers_core::types::U256, AmmError>(e),
            quote_err(u256_val(amount_a) as int, reserve_a, reserve_b) is None ==> (r matches Ok(v)
                && u256_val(v) == quote_num(u256_val(amount_a) as int, reserve_a, reserve_b)),
    {
        let is_zero = match u256_try_u128(&amount_a) {
            Some(v) => v == 0,
            None => false,
        };
        proof {
            lemma_wide_pow2_facts();
        }
        if is_zero {
            return Err(AmmError::InsufficientAmount);
        }
        if reserve_a == 0 || reserve_b == 0 {
            return Err(AmmError::InsufficientLiquidity);
        }
        let rb_u = u256_from_u128(reserve_b);
        let prod = match u256_checked_mul(&amount_a, &rb_u) {
            Some(v) => v,
            None => {
                return Err(AmmError::Overflow);
            },
        };
        let ra_u = u256_from_u128(reserve_a);
        let q = u256_div(&prod, &ra_u);
        proof {
            assert(u256_val(q) == quote_num(u256_val(amount_a) as int, reserve_a, reserve_b));
        }
        Ok(q)
    }

    /// Given an input amount in the full 256-bit domain and pair reserves,
    /// returns the maximum output amount of the other asset, which is
    /// strictly below the output reserve.
    pub fn get_amount_out(
        amount_in: ethers_core::types::U256,
        reserve_in: u128,
        reserve_out: u128,
    ) -> (r: Result<ethers_core::types::U256, AmmError>)
        ensures
            amount_out_err(u256_val(amount_in) as int, reserve_in, reserve_out) matches Some(e)
                ==> r == Err::<ethers_core::types::U256, AmmError>(e),
            amount_out_err(u256_val(amount_in) as int, reserve_in, reserve_out) is None ==> (
            r matches Ok(v) && u256_val(v) == amount_out_num(
                u256_val(amount_in) as int,
                reserve_in,
                reserve_out,
            ) && u256_val(v) < reserve_out),
    {
        let is_zero = match u256_try_u128(&amount_in) {
            Some(v) => v == 0,
            None => false,
        };
        proof {
            lemma_wide_pow2_facts();
        }
        if is_zero {
            return Err(AmmError::InsufficientInputAmount);
        }
        if reserve_in == 0 || reserve_out == 0 {
            return Err(AmmError::InsufficientLiquidity);
        }
        let fee_u = u256_from_u128(997);
        let in_fee = match u256_checked_mul(&amount_in, &fee_u) {
            Some(v) => v,
            None => {
                // The fee-scaled input alone exceeds 256 bits, so the
                // numerator does too.
                proof {
                    assert(u256_val(amount_in) as int * 997 * reserve_out as int >= pow2(256))
                        by (nonlinear_arith)
                        requires
                            u256_val(amount_in) as int * 997 >= pow2(256),
                            reserve_out >= 1,
                    ;
                }
                return Err(AmmError::Overflow);
            },
        };
        let rout_u = u256_from_u128(reserve_out);
        let numerator = match u256_checked_mul(&in_fee, &rout_u) {
            Some(v) => v,
            None => {
                return Err(AmmError::Overflow);
            },
        };
        let rin_u = u256_from_u128(reserve_in);
        let th_u = u256_from_u128(1000);
        let lhs = match u256_checked_mul(&rin_u, &th_u) {
            Some(v) => v,
            None => {
                proof {
                    assert((reserve_in as nat) * 1000 < pow2(256)) by (nonlinear_arith)
                        requires
                            (reserve_in as nat) < pow2(128),
                            pow2(256) == pow2(128) * pow2(128),
                            pow2(128) >= 0x100000000000000000000000000000000,
                    ;
                    assert(false);
                }
                return Err(AmmError::Overflow);
            },
        };
        let denominator = match u256_checked_add(&lhs, &in_fee) {
            Some(v) => v,
            None => {
                return Err(AmmError::Overflow);
            },
        };
        let q = u256_div(&numerator, &denominator);
        proof {
            assert(u256_val(denominator) >= 1000 && u256_val(numerator) < u256_val(denominator)
                * (reserve_out as nat)) by (nonlinear_arith)
                requires
                    u256_val(numerator) == (u256_val(amount_in) * 997) * reserve_out as nat,
                    u256_val(denominator) == reserve_in as nat * 1000 + u256_val(amount_in) * 997,
                    reserve_in as nat >= 1,
                    u256_val(amount_in) >= 1,
                    reserve_out as nat >= 1,
            ;
            lemma_multiply_divide_lt(
                u256_val(numerator) as int,
                u256_val(denominator) as int,
                reserve_out as int,
            );
            assert(u256_val(q) < (reserve_out as nat));
            assert(u256_val(q) == amount_out_num(u256_val(amount_in) as int, reserve_in,
                reserve_out));
        }
        Ok(q)
    }

    /// Given a desired output amount in the full 256-bit domain and pair
    /// reserves, returns the required input amount of the other asset,
    /// rounded up. The result can need up to 256 bits, so it is returned in
    /// that width.
    pub fn get_amount_in(
        amount_out: ethers_core::types::U256,
        reserve_in: u128,
        reserve_out: u128,
    ) -> (r: Result<ethers_core::types::U256, AmmError>)
        ensures
            amount_in_err(u256_val(amount_out) as int, reserve_in, reserve_out) matches Some(e)
                ==> r == Err::<ethers_core::types::U256, AmmError>(e),
            amount_in_err(u256_val(amount_out) as int, reserve_in, reserve_out) is None ==> (
            r matches Ok(v) && u256_val(v) == amount_in_num(
                u256_val(amount_out) as int,
                reserve_in,
                reserve_out,
            )),
    {
        let out_small = match u256_try_u128(&amount_out) {
            Some(v) => v,
            None => {
                // The output is at least 2^128, so it meets or exceeds any
                // 128-bit reserve; the zero-reserve case reports the same
                // failure.
                proof {
                    lemma_wide_pow2_facts();
                }
                return Err(AmmError::InsufficientLiquidity);
            },
        };
        if out_small == 0 {
            return Err(AmmError::InsufficientOutputAmount);
        }
        if reserve_in == 0 || reserve_out == 0 {
            return Err(AmmError::InsufficientLiquidity);
        }
        if out_small >= reserve_out {
            return Err(AmmError::InsufficientLiquidity);
        }
        let delta = reserve_out - out_small;
        proof {
            lemma_wide_pow2_facts();
            assert((reserve_in as nat) * (out_small as nat) < pow2(256) && (delta as nat) * 997 < pow2(
                256,
            ) && (delta as nat) * 997 >= 997 && (reserve_in as nat) * (out_small as nat) * 1000 >= 1000)
                by (nonlinear_arith)
                requires
                    reserve_in as nat >= 1,
                    out_small as nat >= 1,
                    delta as nat >= 1,
                    (reserve_in as nat) < pow2(128),
                    (out_small as nat) < pow2(128),
                    (delta as nat) < pow2(128),
                    pow2(256) == pow2(128) * pow2(128),
                    pow2(128) >= 0x100000000000000000000000000000000,
            ;
        }
        let rin_u = u256_from_u128(reserve_in);
        let base = match u256_checked_mul(&rin_u, &amount_out) {
            Some(v) => v,
            None => {
                proof {
                    assert(false);
                }
                return Err(AmmError::Overflow);
            },
        };
        let th_u = u256_from_u128(1000);
        let numerator = match u256_checked_mul(&base, &th_u) {
            Some(v) => v,
            None => {
                return Err(AmmError::Overflow);
            },
        };
        let delta_u = u256_from_u128(delta);
        let fee_u = u256_from_u128(997);
        let denominator = match u256_checked_mul(&delta_u, &fee_u) {
            Some(v) => v,
            None => {
                proof {
                    assert(false);
                }
                return Err(AmmError::Overflow);
            },
        };
        let q = u256_div(&numerator, &denominator);
        proof {
            lemma_div_is_ordered_by_denominator(
                u256_val(numerator) as int,
                997,
                u256_val(denominator) as int,
            );
            lemma_div_is_strictly_smaller(u256_val(numerator) as int, 997);
            assert(u256_val(q) + 1 < pow2(256));
        }
        let one_u = u256_from_u128(1);
        let result = match u256_checked_add(&q, &one_u) {
            Some(v) => v,
            None => {
                proof {
                    assert(false);
                }
                return Err(AmmError::Overflow);
            },
        };
        proof {
            assert(u256_val(result) == amount_in_num(
                u256_val(amount_out) as int,
                reserve_in,
                reserve_out,
            ));
        }
        Ok(result)
    }

    /// Re-orders one raw reserve tuple into the caller-requested direction.
    pub fn orient_reserves(raw: (u128, u128), swap: bool) -> (r: (u128, u128))
        ensures
            r == (if swap {
                (raw.1, raw.0)
            } else {
                raw
            }),
    {
        if swap {
            (raw.1, raw.0)
        } else {
            raw
        }
    }

    /// Re-orders every raw reserve tuple of a path into the direction of its
    /// leg: a leg whose input token is not the canonical low token has its
    /// tuple swapped. The last-update marker of each tuple is dropped.
    pub fn orient_path_reserves(path: &Vec<Address>, raw: &Vec<(u128, u128, u32)>) -> (r: Vec<
        (u128, u128),
    >)
        requires
            raw@.len() + 1 == path@.len(),
        ensures
            r@.len() == raw@.len(),
            forall|i: int|
                0 <= i < raw@.len() ==> r@[i] == (if bytes_lt(path@[i + 1]@, path@[i]@) {
                    (raw@[i].1, raw@[i].0)
                } else {
                    (raw@[i].0, raw@[i].1)
                }),
    {
        let mut out: Vec<(u128, u128)> = Vec::new();
        let mut i: usize = 0;
        while i < raw.len()
            invariant
                raw@.len() + 1 == path@.len(),
                i <= raw@.len(),
                out@.len() == i,
                forall|j: int|
                    0 <= j < i ==> out@[j] == (if bytes_lt(path@[j + 1]@, path@[j]@) {
                        (raw@[j].1, raw@[j].0)
                    } else {
                        (raw@[j].0, raw@[j].1)
                    }),
            decreases raw@.len() - i,
        {
            let swap = path[i + 1].lt(&path[i]);
            let t = raw[i];
            out.push(Self::orient_reserves((t.0, t.1), swap));
            i += 1;
        }
        out
    }

    /// Fetches one pair's reserves through the ledger client and reports
    /// them in the direction of the requested pair.
    pub fn get_reserves<C: LedgerClient>(
        client: &mut C,
        factory: &Factory,
        a: Address,
        b: Address,
    ) -> (r: Result<(u128, u128), AmmError>)
        ensures
            spec_sort_tokens(a, b) matches Err(e) ==> r == Err::<(u128, u128), AmmError>(e),
            spec_sort_tokens(a, b) is Ok ==> (r is Ok || (r matches Err(e)
                && e is LedgerQueryFailed)),
    {
        let pool = match Self::pair_for(factory, a, b) {
            Ok(p) => p,
            Err(e) => {
                return Err(e);
            },
        };
        let a_is_lower = a.lt(&b);
        match client.get_pool_reserves(&pool) {
            Ok(t) => Ok(Self::orient_reserves((t.0, t.1), !a_is_lower)),
            Err(msg) => Err(AmmError::LedgerQueryFailed(msg)),
        }
    }

    /// Fetches and orients the reserves of every leg of a path. A path of
    /// two tokens is a single direct read; a longer path issues exactly one
    /// aggregated read for all legs, and fails as a whole if any single
    /// request fails: no partial reserve data is ever returned.
    pub fn get_reserves_multi<C: LedgerClient>(
        client: &mut C,
        factory: &Factory,
        path: &Vec<Address>,
    ) -> (r: Result<Vec<(u128, u128)>, AmmError>)
        ensures
            path@.len() < 2 <==> r == Err::<Vec<(u128, u128)>, AmmError>(AmmError::InvalidPath),
            r matches Ok(v) ==> v@.len() == path@.len() - 1,
            path@.len() >= 2 && path_pairs_valid(path@) ==> (r matches Err(e)
                ==> e is LedgerQueryFailed),
            path@.len() >= 2 && !path_pairs_valid(path@) ==> (r matches Err(e) && exists|k: int|
                {
                    &&& 0 <= k < path@.len() - 1
                    &&& !pair_valid(#[trigger] path@[k]@, path@[k + 1]@)
                    &&& (forall|j: int| 0 <= j < k ==> pair_valid(#[trigger] path@[j]@, path@[j + 1]@))
                    &&& e == pair_error(path@[k]@, path@[k + 1]@)
                }),
    {
        let l = path.len();
        if l < 2 {
            return Err(AmmError::InvalidPath);
        }
        if l == 2 {
            let t = match Self::get_reserves(client, factory, path[0], path[1]) {
                Ok(t) => t,
                Err(e) => {
                    proof {
                        if !path_pairs_valid(path@) {
                            assert(!pair_valid(path@[0]@, path@[1]@));
                        }
                    }
                    return Err(e);
                },
            };
            let mut v: Vec<(u128, u128)> = Vec::new();
            v.push(t);
            return Ok(v);
        }
        let mut pools: Vec<Address> = Vec::new();
        let mut i: usize = 0;
        while i + 1 < l
            invariant
                l == path@.len(),
                l > 2,
                i + 1 <= l,
                pools@.len() == i,
                forall|j: int| 0 <= j < i ==> pair_valid(#[trigger] path@[j]@, path@[j + 1]@),
            decreases l - i,
        {
            match Self::pair_for(factory, path[i], path[i + 1]) {
                Ok(p) => {
                    pools.push(p);
                },
                Err(e) => {
                    proof {
                        assert(!pair_valid(path@[i as int]@, path@[i + 1]@));
                        assert(e == pair_error(path@[i as int]@, path@[i + 1]@));
                    }
                    return Err(e);
                },
            }
            i += 1;
        }
        proof {
            assert(path_pairs_valid(path@));
        }
        let raw = match client.get_many_pool_reserves(&pools) {
            Ok(v) => v,
            Err(msg) => {
                return Err(AmmError::LedgerQueryFailed(msg));
            },
        };
        if raw.len() != pools.len() {
            return Err(
                AmmError::LedgerQueryFailed(
                    "aggregated read answered with a result count that differs from the request".to_owned(),
                ),
            );
        }
        Ok(Self::orient_path_reserves(path, &raw))
    }

    /// Folds `get_amount_out` forward over given leg reserves, starting from
    /// an input amount; index 0 of the result is that input amount. The
    /// first failing leg aborts the whole computation.
    pub fn compute_amounts_out(
        reserves: &Vec<(u128, u128)>,
        amount_in: ethers_core::types::U256,
    ) -> (r: Result<Vec<ethers_core::types::U256>, AmmError>)
        ensures
            r matches Ok(v) ==> ({
                &&& v@.len() == reserves@.len() + 1
                &&& u256_val(v@[0]) == u256_val(amount_in)
                &&& forall|i: int|
                    0 <= i < reserves@.len() ==> #[trigger] amount_out_step_ok(
                        v@[i],
                        reserves@[i].0,
                        reserves@[i].1,
                        v@[i + 1],
                    )
            }),
            r matches Err(e) ==> exists|w: Seq<ethers_core::types::U256>, k: int|
                {
                    &&& 0 <= k < reserves@.len()
                    &&& w.len() == k + 1
                    &&& u256_val(w[0]) == u256_val(amount_in)
                    &&& (forall|j: int|
                        0 <= j < k ==> #[trigger] amount_out_step_ok(
                            w[j],
                            reserves@[j].0,
                            reserves@[j].1,
                            w[j + 1],
                        ))
                    &&& amount_out_err(u256_val(w[k]) as int, reserves@[k].0, reserves@[k].1)
                        == Some(e)
                },
            r matches Err(e) ==> (e is InsufficientInputAmount || e is InsufficientLiquidity
                || e is Overflow),
    {
        let mut amounts: Vec<ethers_core::types::U256> = Vec::new();
        amounts.push(amount_in);
        let mut i: usize = 0;
        while i < reserves.len()
            invariant
                i <= reserves@.len(),
                amounts@.len() == i + 1,
                amounts@[0] == amount_in,
                forall|j: int|
                    0 <= j < i ==> #[trigger] amount_out_step_ok(
                        amounts@[j],
                        reserves@[j].0,
                        reserves@[j].1,
                        amounts@[j + 1],
                    ),
            decreases reserves@.len() - i,
        {
            let t = reserves[i];
            let prev = amounts[i];
            match Self::get_amount_out(prev, t.0, t.1) {
                Ok(v) => {
                    amounts.push(v);
                },
                Err(e) => {
                    proof {
                        let w = amounts@;
                        let k = i as int;
                        assert(amount_out_err(u256_val(w[k]) as int, reserves@[k].0,
                            reserves@[k].1) == Some(e));
                    }
                    return Err(e);
                },
            }
            i += 1;
        }
        Ok(amounts)
    }

    /// Folds `get_amount_in` backward over given leg reserves, starting from
    /// a desired output amount; the last index of the result is that output
    /// amount. The first failing leg aborts the whole computation.
    pub fn compute_amounts_in(
        reserves: &Vec<(u128, u128)>,
        amount_out: ethers_core::types::U256,
    ) -> (r: Result<Vec<ethers_core::types::U256>, AmmError>)
        requires
            reserves@.len() < usize::MAX,
        ensures
            r matches Ok(v) ==> ({
                &&& v@.len() == reserves@.len() + 1
                &&& u256_val(v@[reserves@.len() as int]) == u256_val(amount_out)
                &&& forall|i: int|
                    0 <= i < reserves@.len() ==> #[trigger] amount_in_step_ok(
                        v@[i + 1],
                        reserves@[i].0,
                        reserves@[i].1,
                        v@[i],
                    )
            }),
            r matches Err(e) ==> exists|w: Seq<ethers_core::types::U256>, k: int|
                {
                    &&& 0 <= k < reserves@.len()
                    &&& w.len() == reserves@.len() + 1
                    &&& u256_val(w[reserves@.len() as int]) == u256_val(amount_out)
                    &&& (forall|j: int|
                        k < j < reserves@.len() ==> #[trigger] amount_in_step_ok(
                            w[j + 1],
                            reserves@[j].0,
                            reserves@[j].1,
                            w[j],
                        ))
                    &&& amount_in_err(u256_val(w[k + 1]) as int, reserves@[k].0, reserves@[k].1)
                        == Some(e)
                },
            r matches Err(e) ==> (e is InsufficientOutputAmount || e is InsufficientLiquidity
                || e is Overflow),
    {
        let n = reserves.len();
        let mut amounts: Vec<ethers_core::types::U256> = Vec::new();
        let mut t: usize = 0;
        while t < n + 1
            invariant
                n < usize::MAX,
                t <= n + 1,
                amounts@.len() == t,
                forall|j: int| 0 <= j < t ==> amounts@[j] == amount_out,
            decreases n + 1 - t,
        {
            amounts.push(amount_out);
            t += 1;
        }
        let mut i: usize = n;
        while i > 0
            invariant
                n == reserves@.len(),
                amounts@.len() == n + 1,
                i <= n,
                amounts@[n as int] == amount_out,
                forall|j: int|
                    i <= j < n ==> #[trigger] amount_in_step_ok(
                        amounts@[j + 1],
                        reserves@[j].0,
                        reserves@[j].1,
                        amounts@[j],
                    ),
            decreases i,
        {
            let idx = i - 1;
            let leg = reserves[idx];
            let prev = amounts[i];
            match Self::get_amount_in(prev, leg.0, leg.1) {
                Ok(v) => {
                    amounts[idx] = v;
                },
                Err(e) => {
                    proof {
                        let w = amounts@;
                        let k = idx as int;
                        assert(amount_in_err(u256_val(w[k + 1]) as int, reserves@[k].0,
                            reserves@[k].1) == Some(e));
                    }
                    return Err(e);
                },
            }
            i = idx;
        }
        Ok(amounts)
    }

    /// Performs chained `get_amount_out` calculations over a whole path: all
    /// leg reserves come from one aggregated fetch, then a purely local
    /// forward fold computes every intermediate amount.
    pub fn get_amounts_out<C: LedgerClient>(
        client: &mut C,
        factory: &Factory,
        amount_in: ethers_core::types::U256,
        path: &Vec<Address>,
    ) -> (r: Result<Vec<ethers_core::types::U256>, AmmError>)
        ensures
            path@.len() < 2 <==> r == Err::<Vec<ethers_core::types::U256>, AmmError>(
                AmmError::InvalidPath,
            ),
            r matches Ok(v) ==> ({
                &&& v@.len() == path@.len()
                &&& u256_val(v@[0]) == u256_val(amount_in)
                &&& exists|rs: Seq<(u128, u128)>|
                    #[trigger] rs.len() == path@.len() - 1 && (forall|i: int|
                        0 <= i < rs.len() ==> #[trigger] amount_out_step_ok(
                            v@[i],
                            rs[i].0,
                            rs[i].1,
                            v@[i + 1],
                        ))
            }),
            path@.len() >= 2 && !path_pairs_valid(path@) ==> (r matches Err(e) && exists|k: int|
                {
                    &&& 0 <= k < path@.len() - 1
                    &&& !pair_valid(#[trigger] path@[k]@, path@[k + 1]@)
                    &&& (forall|j: int| 0 <= j < k ==> pair_valid(#[trigger] path@[j]@, path@[j + 1]@))
                    &&& e == pair_error(path@[k]@, path@[k + 1]@)
                }),
            path@.len() >= 2 && path_pairs_valid(path@) ==> (r matches Err(e) ==> (
            e is LedgerQueryFailed || e is InsufficientInputAmount || e is InsufficientLiquidity
                || e is Overflow)),
    {
        let l = path.len();
        if l < 2 {
            return Err(AmmError::InvalidPath);
        }
        let reserves = match Self::get_reserves_multi(client, factory, path) {
            Ok(v) => v,
            Err(e) => {
                return Err(e);
            },
        };
        match Self::compute_amounts_out(&reserves, amount_in) {
            Ok(v) => {
                proof {
                    let rs = reserves@;
                    assert(rs.len() == path@.len() - 1 && (forall|i: int|
                        0 <= i < rs.len() ==> #[trigger] amount_out_step_ok(
                            v@[i],
                            rs[i].0,
                            rs[i].1,
                            v@[i + 1],
                        )));
                }
                Ok(v)
            },
            Err(e) => Err(e),
        }
    }

    /// Performs chained `get_amount_in` calculations over a whole path: all
    /// leg reserves come from one aggregated fetch, then a purely local
    /// backward fold computes every intermediate amount.
    pub fn get_amounts_in<C: LedgerClient>(
        client: &mut C,
        factory: &Factory,
        amount_out: ethers_core::types::U256,
        path: &Vec<Address>,
    ) -> (r: Result<Vec<ethers_core::types::U256>, AmmError>)
        ensures
            path@.len() < 2 <==> r == Err::<Vec<ethers_core::types::U256>, AmmError>(
                AmmError::InvalidPath,
            ),
            r matches Ok(v) ==> ({
                &&& v@.len() == path@.len()
                &&& u256_val(v@[path@.len() - 1]) == u256_val(amount_out)
                &&& exists|rs: Seq<(u128, u128)>|
                    #[trigger] rs.len() == path@.len() - 1 && (forall|i: int|
                        0 <= i < rs.len() ==> #[trigger] amount_in_step_ok(
                            v@[i + 1],
                            rs[i].0,
                            rs[i].1,
                            v@[i],
                        ))
            }),
            path@.len() >= 2 && !path_pairs_valid(path@) ==> (r matches Err(e) && exists|k: int|
                {
                    &&& 0 <= k < path@.len() - 1
                    &&& !pair_valid(#[trigger] path@[k]@, path@[k + 1]@)
                    &&& (forall|j: int| 0 <= j < k ==> pair_valid(#[trigger] path@[j]@, path@[j + 1]@))
                    &&& e == pair_error(path@[k]@, path@[k + 1]@)
                }),
            path@.len() >= 2 && path_pairs_valid(path@) ==> (r matches Err(e) ==> (
            e is LedgerQueryFailed || e is InsufficientOutputAmount || e is InsufficientLiquidity
                || e is Overflow)),
    {
        let l = path.len();
        if l < 2 {
            return Err(AmmError::InvalidPath);
        }
        let reserves = match Self::get_reserves_multi(client, factory, path) {
            Ok(v) => v,
            Err(e) => {
                return Err(e);
            },
        };
        match Self::compute_amounts_in(&reserves, amount_out) {
            Ok(v) => {
                proof {
                    let rs = reserves@;
                    assert(rs.len() == path@.len() - 1 && (forall|i: int|
                        0 <= i < rs.len() ==> #[trigger] amount_in_step_ok(
                            v@[i + 1],
                            rs[i].0,
                            rs[i].1,
                            v@[i],
                        )));
                }
                Ok(v)
            },
            Err(e) => Err(e),
        }
    }
}

} // verus!
