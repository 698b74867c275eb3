//! Deterministic pool address derivation: digests and the
//! deterministic-deployment formula.

use crate::address::{bytes_lt, Address};
use vstd::prelude::*;

verus! {

/// The Keccak-256 digest of a byte string. The digest depends on the input
/// bytes alone; its 32 bytes are not restated here.
pub uninterp spec fn keccak(input: Seq<u8>) -> Seq<u8>;

/// The deterministic-deployment address formula: the last 20 bytes of the
/// digest of `0xff ++ deployer ++ salt ++ init-code hash`.
pub open spec fn create2_bytes(from: Seq<u8>, salt: Seq<u8>, code_hash: Seq<u8>) -> Seq<u8> {
    keccak(seq![0xffu8] + from + salt + code_hash).skip(12)
}

/// The pool address that a factory deploys for a token pair: the pair salt
/// is the digest of the canonically ordered token addresses.
pub open spec fn pool_address_bytes(
    factory: Seq<u8>,
    code_hash: Seq<u8>,
    a: Seq<u8>,
    b: Seq<u8>,
) -> Seq<u8> {
    let lo = if bytes_lt(a, b) {
        a
    } else {
        b
    };
    let hi = if bytes_lt(a, b) {
        b
    } else {
        a
    };
    create2_bytes(factory, keccak(lo + hi), code_hash)
}

/// Relies on `ethers_core::utils::keccak256`: the Keccak-256 digest of the
/// input bytes, 32 bytes long.
#[verifier::external_body]
pub(crate) fn keccak256_bytes(input: &Vec<u8>) -> (r: [u8; 32])
    ensures
        r@ == keccak(input@),
{
    ethers_core::utils::keccak256(input)
}

/// Appends a byte slice to a buffer.
fn push_bytes(data: &mut Vec<u8>, src: &[u8])
    ensures
        final(data)@ == old(data)@ + src@,
{
    let mut i: usize = 0;
    while i < src.len()
        invariant
            i <= src@.len(),
            data@ == old(data)@ + src@.subrange(0, i as int),
        decreases src@.len() - i,
    {
        data.push(src[i]);
        proof {
            assert(src@.subrange(0, i + 1) =~= src@.subrange(0, i as int).push(src@[i as int]));
        }
        i += 1;
    }
    proof {
        assert(src@.subrange(0, src@.len() as int) =~= src@);
    }
}

/// The deterministic-deployment address: digests the 85-byte preimage
/// `0xff ++ deployer ++ salt ++ init-code hash` and keeps the last 20 bytes.
pub(crate) fn create2_address(from: &Address, salt: &[u8; 32], code_hash: &[u8; 32]) -> (r: Address)
    ensures
        r@ == create2_bytes(from@, salt@, code_hash@),
{
    let mut data: Vec<u8> = Vec::new();
    data.push(0xff);
    proof {
        assert(data@ =~= seq![0xffu8]);
    }
    push_bytes(&mut data, from.bytes.as_slice());
    push_bytes(&mut data, salt.as_slice());
    push_bytes(&mut data, code_hash.as_slice());
    proof {
        assert(data@ == seq![0xffu8] + from@ + salt@ + code_hash@);
    }
    let h = keccak256_bytes(&data);
    let mut bytes = [0u8; 20];
    let mut i: usize = 0;
    while i < 20
        invariant
            h@ == keccak(seq![0xffu8] + from@ + salt@ + code_hash@),
            i <= 20,
            bytes@.len() == 20,
            forall|j: int| 0 <= j < i ==> bytes@[j] == h@[12 + j],
        decreases 20 - i,
    {
        bytes[i] = h[12 + i];
        i += 1;
    }
    proof {
        assert(bytes@ =~= h@.skip(12));
    }
    Address { bytes }
}

} // verus!
