use uniswap_rs::address::Address;
use uniswap_rs::registry::{address, contract, try_address, try_contract, Contract, Registry};

const MAINNET: u64 = 1;
const MOONBEAM_DEV: u64 = 1281;

fn repeat_byte(b: u8) -> Address {
    Address { bytes: [b; 20] }
}

fn sample_book() -> Registry {
    Registry {
        entries: vec![
            (
                "DAI".to_string(),
                Contract { addresses: vec![(MAINNET, repeat_byte(0xDA))] },
            ),
            (
                "USDC".to_string(),
                Contract { addresses: vec![(MAINNET, repeat_byte(0xCC))] },
            ),
        ],
    }
}

#[test]
fn test_contracts() {
    let book = sample_book();
    assert!(try_contract(&book, &"DAI".to_string()).is_some());
    assert!(try_contract(&book, &"USDC".to_string()).is_some());
    assert!(try_contract(&book, &"rand".to_string()).is_none());
}

#[test]
fn test_addresses() {
    let book = sample_book();
    assert!(try_contract(&book, &"DAI".to_string()).unwrap().address(MAINNET).is_some());
    assert!(try_contract(&book, &"DAI".to_string()).unwrap().address(MOONBEAM_DEV).is_none());

    assert!(try_address(&book, &"DAI".to_string(), MAINNET).is_some());
    assert!(try_address(&book, &"DAI".to_string(), MOONBEAM_DEV).is_none());
}

#[test]
fn lookup_returns_the_recorded_address() {
    let book = sample_book();
    let c = contract(&book, &"DAI".to_string());
    assert_eq!(c.address(MAINNET).unwrap().bytes, [0xDA; 20]);
    assert_eq!(address(&book, &"USDC".to_string(), MAINNET).bytes, [0xCC; 20]);
}
