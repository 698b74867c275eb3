use ethers_core::types::U256;
use uniswap_rs::address::Address;
use uniswap_rs::client::LedgerClient;
use uniswap_rs::errors::AmmError;
use uniswap_rs::v2::{Factory, Library};

const E18: u128 = 1_000_000_000_000_000_000;

fn repeat_byte(b: u8) -> Address {
    Address { bytes: [b; 20] }
}

fn test_factory() -> Factory {
    Factory { address: repeat_byte(0xFA), pair_code_hash: [0x33; 32] }
}

/// A deterministic in-memory double that counts how often each operation is
/// invoked and answers with pre-set canonical reserve tuples.
struct CountingClient {
    single_calls: usize,
    batch_calls: usize,
    tuples: Vec<(u128, u128, u32)>,
    fail: bool,
}

impl CountingClient {
    fn new(tuples: Vec<(u128, u128, u32)>) -> Self {
        CountingClient { single_calls: 0, batch_calls: 0, tuples, fail: false }
    }

    fn failing() -> Self {
        CountingClient { single_calls: 0, batch_calls: 0, tuples: Vec::new(), fail: true }
    }
}

impl LedgerClient for CountingClient {
    fn get_pool_reserves(&mut self, _pool: &Address) -> Result<(u128, u128, u32), String> {
        self.single_calls += 1;
        if self.fail {
            return Err("remote read refused".to_string());
        }
        Ok(self.tuples[0])
    }

    fn get_many_pool_reserves(
        &mut self,
        pools: &Vec<Address>,
    ) -> Result<Vec<(u128, u128, u32)>, String> {
        self.batch_calls += 1;
        if self.fail {
            return Err("remote read refused".to_string());
        }
        Ok(self.tuples[..pools.len()].to_vec())
    }
}

#[test]
fn get_reserves_keeps_requested_direction() {
    let factory = test_factory();
    let a = repeat_byte(0x11);
    let b = repeat_byte(0x22);

    // The double reports (reserve of the lower token, reserve of the higher).
    let mut client = CountingClient::new(vec![(10, 20, 7)]);
    let (ra, rb) = Library::get_reserves(&mut client, &factory, a, b).unwrap();
    assert_eq!((ra, rb), (10, 20));

    // Asking in the opposite direction swaps the tuple.
    let mut client = CountingClient::new(vec![(10, 20, 7)]);
    let (rb, ra) = Library::get_reserves(&mut client, &factory, b, a).unwrap();
    assert_eq!((rb, ra), (20, 10));
}

#[test]
fn get_reserves_propagates_failure() {
    let factory = test_factory();
    let mut client = CountingClient::failing();
    let res = Library::get_reserves(&mut client, &factory, repeat_byte(0x11), repeat_byte(0x22));
    assert!(matches!(res.unwrap_err(), AmmError::LedgerQueryFailed(_)));
}

#[test]
fn get_reserves_validates_before_any_read() {
    let factory = test_factory();
    let mut client = CountingClient::failing();
    let a = repeat_byte(0x11);
    let res = Library::get_reserves(&mut client, &factory, a, a);
    assert!(matches!(res.unwrap_err(), AmmError::IdenticalTokens));
    assert_eq!(client.single_calls, 0);
    assert_eq!(client.batch_calls, 0);
}

#[test]
fn batched_fetch_issues_exactly_one_call() {
    let factory = test_factory();
    let path = vec![repeat_byte(0x11), repeat_byte(0x22), repeat_byte(0x33), repeat_byte(0x44)];
    let mut client = CountingClient::new(vec![(1, 2, 0), (3, 4, 0), (5, 6, 0)]);

    let reserves = Library::get_reserves_multi(&mut client, &factory, &path).unwrap();
    assert_eq!(reserves.len(), 3);
    assert_eq!(client.batch_calls, 1);
    assert_eq!(client.single_calls, 0);
    // The path is ascending, so every tuple keeps its canonical order.
    assert_eq!(reserves, vec![(1, 2), (3, 4), (5, 6)]);
}

#[test]
fn batched_fetch_orients_each_leg() {
    let factory = test_factory();
    // The middle leg (0x33 -> 0x22) runs against the canonical order.
    let path = vec![repeat_byte(0x22), repeat_byte(0x33), repeat_byte(0x22), repeat_byte(0x33)];
    let mut client = CountingClient::new(vec![(1, 2, 0), (3, 4, 0), (5, 6, 0)]);

    let reserves = Library::get_reserves_multi(&mut client, &factory, &path).unwrap();
    assert_eq!(reserves, vec![(1, 2), (4, 3), (5, 6)]);
}

#[test]
fn failing_batched_fetch_returns_no_data() {
    let factory = test_factory();
    let path = vec![repeat_byte(0x11), repeat_byte(0x22), repeat_byte(0x33), repeat_byte(0x44)];
    let mut client = CountingClient::failing();

    let res = Library::get_reserves_multi(&mut client, &factory, &path);
    match res {
        Err(AmmError::LedgerQueryFailed(_)) => {},
        other => panic!("expected a failed ledger query, got {:?}", other.is_ok()),
    }
    assert_eq!(client.batch_calls, 1);
}

#[test]
fn short_paths_are_rejected() {
    let factory = test_factory();
    let mut client = CountingClient::new(vec![(1, 2, 0)]);

    let res = Library::get_reserves_multi(&mut client, &factory, &vec![]);
    assert!(matches!(res.unwrap_err(), AmmError::InvalidPath));
    let res = Library::get_reserves_multi(&mut client, &factory, &vec![repeat_byte(0x11)]);
    assert!(matches!(res.unwrap_err(), AmmError::InvalidPath));
    let res =
        Library::get_amounts_out(&mut client, &factory, U256::from(1u64), &vec![repeat_byte(0x11)]);
    assert!(matches!(res.unwrap_err(), AmmError::InvalidPath));
    let res =
        Library::get_amounts_in(&mut client, &factory, U256::from(1u64), &vec![repeat_byte(0x11)]);
    assert!(matches!(res.unwrap_err(), AmmError::InvalidPath));
    assert_eq!(client.batch_calls, 0);
    assert_eq!(client.single_calls, 0);
}

#[test]
fn two_token_path_uses_the_single_read() {
    let factory = test_factory();
    let path = vec![repeat_byte(0x11), repeat_byte(0x22)];
    let mut client = CountingClient::new(vec![(1, 2, 0)]);

    let reserves = Library::get_reserves_multi(&mut client, &factory, &path).unwrap();
    assert_eq!(reserves, vec![(1, 2)]);
    assert_eq!(client.single_calls, 1);
    assert_eq!(client.batch_calls, 0);
}

#[test]
fn amounts_out_equals_sequential_hops() {
    let factory = test_factory();
    let path = vec![repeat_byte(0x11), repeat_byte(0x22), repeat_byte(0x33)];
    let r0 = (1000 * E18, 5000 * E18);
    let r1 = (7000 * E18, 3000 * E18);
    let mut client = CountingClient::new(vec![(r0.0, r0.1, 0), (r1.0, r1.1, 0)]);

    let amount_in = U256::from(100 * E18);
    let amounts = Library::get_amounts_out(&mut client, &factory, amount_in, &path).unwrap();

    let hop1 = Library::get_amount_out(amount_in, r0.0, r0.1).unwrap();
    let hop2 = Library::get_amount_out(hop1, r1.0, r1.1).unwrap();
    assert_eq!(amounts, vec![amount_in, hop1, hop2]);
    assert_eq!(client.batch_calls, 1);
}

#[test]
fn amounts_in_walks_the_path_backward() {
    let factory = test_factory();
    let path = vec![repeat_byte(0x11), repeat_byte(0x22), repeat_byte(0x33)];
    let r0 = (1000 * E18, 5000 * E18);
    let r1 = (7000 * E18, 3000 * E18);
    let mut client = CountingClient::new(vec![(r0.0, r0.1, 0), (r1.0, r1.1, 0)]);

    let amount_out = U256::from(10 * E18);
    let amounts = Library::get_amounts_in(&mut client, &factory, amount_out, &path).unwrap();

    let mid = Library::get_amount_in(amount_out, r1.0, r1.1).unwrap();
    let first = Library::get_amount_in(mid, r0.0, r0.1).unwrap();
    assert_eq!(amounts, vec![first, mid, amount_out]);
}

#[test]
fn failing_fetch_aborts_amount_computation() {
    let factory = test_factory();
    let path = vec![repeat_byte(0x11), repeat_byte(0x22), repeat_byte(0x33), repeat_byte(0x44)];
    let mut client = CountingClient::failing();

    let res = Library::get_amounts_out(&mut client, &factory, U256::from(E18), &path);
    assert!(matches!(res.unwrap_err(), AmmError::LedgerQueryFailed(_)));
}

#[test]
fn amounts_in_then_out_covers_the_request() {
    let factory = test_factory();
    let path = vec![repeat_byte(0x11), repeat_byte(0x22), repeat_byte(0x33)];
    let tuples = vec![(1000 * E18, 5000 * E18, 0), (7000 * E18, 3000 * E18, 0)];

    let amount_out = 10 * E18;
    let mut client = CountingClient::new(tuples.clone());
    let needed =
        Library::get_amounts_in(&mut client, &factory, U256::from(amount_out), &path).unwrap();

    let mut client = CountingClient::new(tuples);
    let got = Library::get_amounts_out(&mut client, &factory, needed[0], &path).unwrap();
    assert!(got[2] >= U256::from(amount_out));
}

#[test]
fn compute_amounts_report_the_first_failing_leg() {
    // The second leg has an empty reserve, so the fold aborts there.
    let reserves = vec![(1000 * E18, 5000 * E18), (0, 3000 * E18)];
    let res = Library::compute_amounts_out(&reserves, U256::from(100 * E18));
    assert!(matches!(res.unwrap_err(), AmmError::InsufficientLiquidity));

    let res = Library::compute_amounts_in(&reserves, U256::from(10 * E18));
    assert!(matches!(res.unwrap_err(), AmmError::InsufficientLiquidity));
}
