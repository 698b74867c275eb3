use ethers_core::types::{H160, U256};
use uniswap_rs::address::Address;
use uniswap_rs::errors::AmmError;
use uniswap_rs::v2::{Factory, Library};

fn addr_from_hex(s: &str) -> Address {
    let h: H160 = s.parse().unwrap();
    Address { bytes: h.0 }
}

fn hash_from_hex(s: &str) -> [u8; 32] {
    let h: ethers_core::types::H256 = s.parse().unwrap();
    h.0
}

fn repeat_byte(b: u8) -> Address {
    Address { bytes: [b; 20] }
}

fn zero_address() -> Address {
    Address { bytes: [0u8; 20] }
}

fn uniswap_factory() -> Factory {
    Factory {
        address: addr_from_hex("0x5C69bEe701ef814a2B6a3EDD4B1652CB9cc5aA6f"),
        pair_code_hash: hash_from_hex(
            "0x96e8ac4277198ff8b6f785478aa9a39f403cb768dd02cbee326c3e7da348845f",
        ),
    }
}

const E18: u128 = 1_000_000_000_000_000_000;

#[test]
fn can_sort_tokens() {
    let addr = repeat_byte(0x69);
    let (a, b) = (addr, addr);
    let res = Library::sort_tokens(a, b);
    assert!(matches!(res.unwrap_err(), AmmError::IdenticalTokens));

    let res = Library::sort_tokens(zero_address(), b);
    assert!(matches!(res.unwrap_err(), AmmError::ZeroToken));

    let res = Library::sort_tokens(a, zero_address());
    assert!(matches!(res.unwrap_err(), AmmError::ZeroToken));

    let (a, b) = (repeat_byte(0x11), repeat_byte(0x22));
    let (lo, hi) = Library::sort_tokens(a, b).unwrap();
    assert_eq!(lo.bytes, a.bytes);
    assert_eq!(hi.bytes, b.bytes);
    let (lo, hi) = Library::sort_tokens(b, a).unwrap();
    assert_eq!(lo.bytes, a.bytes);
    assert_eq!(hi.bytes, b.bytes);
}

#[test]
fn can_get_pair_for() {
    let factory = uniswap_factory();
    let weth = addr_from_hex("0xC02aaA39b223FE8D0A0e5C4F27eAD9083C756Cc2");
    let usdc = addr_from_hex("0xA0b86991c6218b36c1d19D4a2e9Eb0cE3606eB48");
    let weth_usdc = addr_from_hex("0xB4e16d0168e52d35CaCD2c6185b44281Ec28C9Dc");

    let pool = Library::pair_for(&factory, weth, usdc).unwrap();
    assert_eq!(pool.bytes, weth_usdc.bytes);
}

#[test]
fn pair_for_is_order_independent() {
    let factory = uniswap_factory();
    let weth = addr_from_hex("0xC02aaA39b223FE8D0A0e5C4F27eAD9083C756Cc2");
    let usdc = addr_from_hex("0xA0b86991c6218b36c1d19D4a2e9Eb0cE3606eB48");

    let p1 = Library::pair_for(&factory, weth, usdc).unwrap();
    let p2 = Library::pair_for(&factory, usdc, weth).unwrap();
    assert_eq!(p1.bytes, p2.bytes);
}

#[test]
fn pair_for_rejects_invalid_pairs() {
    let factory = uniswap_factory();
    let a = repeat_byte(0x42);
    let res = Library::pair_for(&factory, a, a);
    assert!(matches!(res.unwrap_err(), AmmError::IdenticalTokens));
    let res = Library::pair_for(&factory, zero_address(), a);
    assert!(matches!(res.unwrap_err(), AmmError::ZeroToken));
}

#[test]
fn can_quote() {
    let amount_a = 100 * E18;
    let reserve_a = 1000 * E18;
    let reserve_b = 5000 * E18;

    let res = Library::quote(U256::zero(), reserve_a, reserve_b);
    assert!(matches!(res.unwrap_err(), AmmError::InsufficientAmount));

    let res = Library::quote(U256::from(amount_a), 0, reserve_b);
    assert!(matches!(res.unwrap_err(), AmmError::InsufficientLiquidity));

    let res = Library::quote(U256::from(amount_a), 0, 0);
    assert!(matches!(res.unwrap_err(), AmmError::InsufficientLiquidity));

    let res = Library::quote(U256::from(amount_a), reserve_a, 0);
    assert!(matches!(res.unwrap_err(), AmmError::InsufficientLiquidity));

    let amount_b = Library::quote(U256::from(amount_a), reserve_a, reserve_b).unwrap();

    let expected = (U256::from(amount_a) * U256::from(reserve_b)) / U256::from(reserve_a);
    assert_eq!(amount_b, expected);
    assert_eq!(amount_b, U256::from(500 * E18));
}

#[test]
fn quote_spans_the_full_256_bit_width() {
    let v = Library::quote(U256::from(u128::MAX), 1, u128::MAX).unwrap();
    assert_eq!(v, U256::from(u128::MAX) * U256::from(u128::MAX));
    // A product beyond even 256 bits is refused explicitly.
    let res = Library::quote(U256::MAX, 1, 2);
    assert!(matches!(res.unwrap_err(), AmmError::Overflow));
}

#[test]
fn amount_out_matches_formula() {
    let amount_in = 100 * E18;
    let reserve_in = 1000 * E18;
    let reserve_out = 5000 * E18;

    let out = Library::get_amount_out(U256::from(amount_in), reserve_in, reserve_out).unwrap();

    let expected = (U256::from(amount_in) * U256::from(997u64) * U256::from(reserve_out))
        / (U256::from(reserve_in) * U256::from(1000u64)
            + U256::from(amount_in) * U256::from(997u64));
    assert_eq!(out, expected);
}

#[test]
fn amount_out_spans_the_full_256_bit_width() {
    let amount_in = U256::from(1u64) << 130;
    let out = Library::get_amount_out(amount_in, 1000, 1000).unwrap();
    let expected = (amount_in * U256::from(997u64) * U256::from(1000u64))
        / (U256::from(1_000_000u64) + amount_in * U256::from(997u64));
    assert_eq!(out, expected);
}

#[test]
fn amount_out_rejects_bad_inputs() {
    let res = Library::get_amount_out(U256::zero(), 10, 10);
    assert!(matches!(res.unwrap_err(), AmmError::InsufficientInputAmount));
    let res = Library::get_amount_out(U256::from(1u64), 0, 10);
    assert!(matches!(res.unwrap_err(), AmmError::InsufficientLiquidity));
    let res = Library::get_amount_out(U256::from(1u64), 10, 0);
    assert!(matches!(res.unwrap_err(), AmmError::InsufficientLiquidity));
    let res = Library::get_amount_out(U256::from(u128::MAX), 1, u128::MAX);
    assert!(matches!(res.unwrap_err(), AmmError::Overflow));
}

#[test]
fn amount_in_matches_formula() {
    let amount_out = 5 * E18;
    let reserve_in = 1000 * E18;
    let reserve_out = 5000 * E18;

    let x = Library::get_amount_in(U256::from(amount_out), reserve_in, reserve_out).unwrap();

    let expected = (U256::from(reserve_in) * U256::from(amount_out) * U256::from(1000u64))
        / (U256::from(reserve_out - amount_out) * U256::from(997u64))
        + U256::from(1u64);
    assert_eq!(x, expected);
}

#[test]
fn amount_in_rejects_bad_inputs() {
    let res = Library::get_amount_in(U256::zero(), 10, 10);
    assert!(matches!(res.unwrap_err(), AmmError::InsufficientOutputAmount));
    let res = Library::get_amount_in(U256::from(1u64), 0, 10);
    assert!(matches!(res.unwrap_err(), AmmError::InsufficientLiquidity));
    let res = Library::get_amount_in(U256::from(1u64), 10, 0);
    assert!(matches!(res.unwrap_err(), AmmError::InsufficientLiquidity));
    // An output that meets or exceeds the reserve must be refused rather
    // than allowed to underflow; an output beyond 128 bits exceeds every
    // 128-bit reserve.
    let res = Library::get_amount_in(U256::from(10u64), 10, 10);
    assert!(matches!(res.unwrap_err(), AmmError::InsufficientLiquidity));
    let res = Library::get_amount_in(U256::from(11u64), 10, 10);
    assert!(matches!(res.unwrap_err(), AmmError::InsufficientLiquidity));
    let res = Library::get_amount_in(U256::from(u128::MAX) + U256::from(1u64), 10, 10);
    assert!(matches!(res.unwrap_err(), AmmError::InsufficientLiquidity));
    // A numerator beyond even the 256-bit domain is refused explicitly.
    let res = Library::get_amount_in(U256::from(u128::MAX - 1), u128::MAX, u128::MAX);
    assert!(matches!(res.unwrap_err(), AmmError::Overflow));
}

#[test]
fn amount_in_spans_the_full_256_bit_width() {
    let x = Library::get_amount_in(U256::from(1u64), u128::MAX, 2).unwrap();
    let expected = U256::from(u128::MAX) * U256::from(1000u64) / U256::from(997u64)
        + U256::from(1u64);
    assert_eq!(x, expected);
}

#[test]
fn small_pool_round_trip_exact_values() {
    // Flooring the output can make the input recomputed from it smaller
    // than the one originally supplied; the guarantee runs the other way
    // around (see `required_input_covers_requested_output`).
    let out = Library::get_amount_out(U256::from(1000u64), 1000, 500).unwrap();
    assert_eq!(out, U256::from(249u64));
    let back = Library::get_amount_in(out, 1000, 500).unwrap();
    assert_eq!(back, U256::from(996u64));
    let covered = Library::get_amount_out(back, 1000, 500).unwrap();
    assert!(covered >= out);
}

#[test]
fn required_input_covers_requested_output() {
    let reserve_in = 1000 * E18;
    let reserve_out = 5000 * E18;
    for amount_out in [1u128, 17, 5 * E18, 4999 * E18] {
        let x = Library::get_amount_in(U256::from(amount_out), reserve_in, reserve_out).unwrap();
        let o = Library::get_amount_out(x, reserve_in, reserve_out).unwrap();
        assert!(o >= U256::from(amount_out));
    }
}
