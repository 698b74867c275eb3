//! The 20-byte address type and its total order by raw bytes.

use vstd::prelude::*;

verus! {

/// A 20-byte account or contract address, totally ordered by its raw byte
/// representation. The order only canonicalizes pair representation; it has
/// no economic meaning.
#[derive(Clone, Copy, Debug)]
pub struct Address {
    pub bytes: [u8; 20],
}

impl View for Address {
    type V = Seq<u8>;

    open spec fn view(&self) -> Seq<u8> {
        self.bytes@
    }
}

/// Lexicographic strict order on byte strings; on equal-length strings this
/// is the numeric order of their big-endian values.
pub open spec fn bytes_lt(a: Seq<u8>, b: Seq<u8>) -> bool
    decreases a.len(),
{
    if a.len() == 0 || b.len() == 0 {
        false
    } else if a[0] < b[0] {
        true
    } else if b[0] < a[0] {
        false
    } else {
        bytes_lt(a.skip(1), b.skip(1))
    }
}

/// The all-zero address, which is never a valid member of a canonical pair.
pub open spec fn is_zero_address(a: Seq<u8>) -> bool {
    forall|i: int| 0 <= i < a.len() ==> a[i] == 0
}

/// Strict order implies the strings differ, and never holds both ways.
pub proof fn lemma_bytes_lt_asymmetric(a: Seq<u8>, b: Seq<u8>)
    requires
        bytes_lt(a, b),
    ensures
        !bytes_lt(b, a),
        a != b,
    decreases a.len(),
{
    if a[0] == b[0] {
        lemma_bytes_lt_asymmetric(a.skip(1), b.skip(1));
        assert(a != b) by {
            if a == b {
                assert(a.skip(1) == b.skip(1));
            }
        }
    } else {
        assert(a != b) by {
            if a == b {
                assert(a[0] == b[0]);
            }
        }
    }
}

/// Two equal-length strings that neither order strictly are equal.
pub proof fn lemma_bytes_lt_trichotomy(a: Seq<u8>, b: Seq<u8>)
    requires
        a.len() == b.len(),
        !bytes_lt(a, b),
        !bytes_lt(b, a),
    ensures
        a == b,
    decreases a.len(),
{
    if a.len() == 0 {
        assert(a =~= b);
    } else {
        assert(a[0] == b[0]);
        lemma_bytes_lt_trichotomy(a.skip(1), b.skip(1));
        assert forall|i: int| 0 <= i < a.len() implies a[i] == b[i] by {
            if i >= 1 {
                assert(a[i] == a.skip(1)[i - 1]);
                assert(b[i] == b.skip(1)[i - 1]);
            }
        }
        assert(a =~= b);
    }
}

/// Compares the suffixes of two addresses that start at byte `i`.
fn lt_from(a: &[u8; 20], b: &[u8; 20], i: usize) -> (r: bool)
    requires
        i <= 20,
    ensures
        r == bytes_lt(a@.skip(i as int), b@.skip(i as int)),
    decreases 20 - i,
{
    proof {
        assert(a@.len() == 20);
        assert(b@.len() == 20);
    }
    if i == 20 {
        false
    } else if a[i] < b[i] {
        proof {
            assert(a@.skip(i as int)[0] == a@[i as int]);
            assert(b@.skip(i as int)[0] == b@[i as int]);
        }
        true
    } else if b[i] < a[i] {
        proof {
            assert(a@.skip(i as int)[0] == a@[i as int]);
            assert(b@.skip(i as int)[0] == b@[i as int]);
        }
        false
    } else {
        let r = lt_from(a, b, i + 1);
        proof {
            assert(a@.skip(i as int)[0] == a@[i as int]);
            assert(b@.skip(i as int)[0] == b@[i as int]);
            assert(a@.skip(i as int).skip(1) =~= a@.skip(i as int + 1));
            assert(b@.skip(i as int).skip(1) =~= b@.skip(i as int + 1));
        }
        r
    }
}

impl Address {
    /// Strict byte-wise comparison with another address.
    pub fn lt(&self, other: &Address) -> (r: bool)
        ensures
            r == bytes_lt(self@, other@),
    {
        let r = lt_from(&self.bytes, &other.bytes, 0);
        proof {
            assert(self.bytes@.skip(0) =~= self@);
            assert(other.bytes@.skip(0) =~= other@);
        }
        r
    }

    /// Whether every byte of the address is zero.
    pub fn is_zero(&self) -> (r: bool)
        ensures
            r == is_zero_address(self@),
    {
        let mut i: usize = 0;
        while i < 20
            invariant
                i <= 20,
                forall|j: int| 0 <= j < i ==> self.bytes@[j] == 0,
            decreases 20 - i,
        {
            if self.bytes[i] != 0 {
                return false;
            }
            i += 1;
        }
        true
    }
}

} // verus!
