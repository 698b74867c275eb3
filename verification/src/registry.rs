//! The injected address book: named contracts and their per-chain
//! deployment addresses.

use crate::address::Address;
use vstd::prelude::*;

verus! {

/// The deployed addresses of one named contract, keyed by numeric chain
/// identifier.
pub struct Contract {
    pub addresses: Vec<(u64, Address)>,
}

impl Contract {
    /// A well-formed contract entry records each chain at most once, so a
    /// lookup is determined by the chain alone. A book built from a map
    /// has this by construction.
    pub open spec fn wf(&self) -> bool {
        forall|i: int, j: int|
            0 <= i < j < self.addresses@.len() ==> (#[trigger] self.addresses@[i]).0 != (
            #[trigger] self.addresses@[j]).0
    }
}

/// The address book: named contracts with their per-chain deployment
/// addresses. It is explicitly constructed and injected by the caller at
/// process start, so no function depends on hidden global state.
pub struct Registry {
    pub entries: Vec<(String, Contract)>,
}

impl Registry {
    /// A well-formed book records each name at most once, with each entry
    /// well-formed in turn, so a lookup is determined by the name alone. A
    /// book built from a map has this by construction.
    pub open spec fn wf(&self) -> bool {
        &&& forall|i: int, j: int|
            0 <= i < j < self.entries@.len() ==> (#[trigger] self.entries@[i]).0@ != (
            #[trigger] self.entries@[j]).0@
        &&& forall|i: int| 0 <= i < self.entries@.len() ==> (#[trigger] self.entries@[i]).1.wf()
    }
}

/// The first address recorded for a chain, if any.
pub open spec fn lookup_chain(entries: Seq<(u64, Address)>, chain: u64) -> Option<Address>
    decreases entries.len(),
{
    if entries.len() == 0 {
        None
    } else if entries[0].0 == chain {
        Some(entries[0].1)
    } else {
        lookup_chain(entries.skip(1), chain)
    }
}

/// The first contract recorded under a name, if any.
pub open spec fn lookup_contract(entries: Seq<(String, Contract)>, name: Seq<char>) -> Option<
    Contract,
>
    decreases entries.len(),
{
    if entries.len() == 0 {
        None
    } else if entries[0].0@ == name {
        Some(entries[0].1)
    } else {
        lookup_contract(entries.skip(1), name)
    }
}

proof fn lemma_lookup_chain_skip(entries: Seq<(u64, Address)>, chain: u64, i: int)
    requires
        0 <= i <= entries.len(),
        forall|j: int| 0 <= j < i ==> (#[trigger] entries[j]).0 != chain,
    ensures
        lookup_chain(entries, chain) == lookup_chain(entries.skip(i), chain),
    decreases i,
{
    if i > 0 {
        assert(forall|j: int|
            0 <= j < i - 1 ==> (#[trigger] entries.skip(1)[j]).0 == entries[j + 1].0);
        lemma_lookup_chain_skip(entries.skip(1), chain, i - 1);
        assert(entries.skip(1).skip(i - 1) =~= entries.skip(i));
    } else {
        assert(entries.skip(0) =~= entries);
    }
}

proof fn lemma_lookup_contract_skip(entries: Seq<(String, Contract)>, name: Seq<char>, i: int)
    requires
        0 <= i <= entries.len(),
        forall|j: int| 0 <= j < i ==> (#[trigger] entries[j]).0@ != name,
    ensures
        lookup_contract(entries, name) == lookup_contract(entries.skip(i), name),
    decreases i,
{
    if i > 0 {
        assert(forall|j: int|
            0 <= j < i - 1 ==> (#[trigger] entries.skip(1)[j]).0@ == entries[j + 1].0@);
        lemma_lookup_contract_skip(entries.skip(1), name, i - 1);
        assert(entries.skip(1).skip(i - 1) =~= entries.skip(i));
    } else {
        assert(entries.skip(0) =~= entries);
    }
}

impl Contract {
    /// The contract's address on the given chain; `None` if the address
    /// book holds none.
    pub fn address(&self, chain: u64) -> (r: Option<Address>)
        ensures
            r == lookup_chain(self.addresses@, chain),
    {
        let mut i: usize = 0;
        while i < self.addresses.len()
            invariant
                i <= self.addresses@.len(),
                forall|j: int| 0 <= j < i ==> (#[trigger] self.addresses@[j]).0 != chain,
            decreases self.addresses@.len() - i,
        {
            let e = self.addresses[i];
            if e.0 == chain {
                proof {
                    lemma_lookup_chain_skip(self.addresses@, chain, i as int);
                    assert(self.addresses@.skip(i as int)[0] == self.addresses@[i as int]);
                }
                return Some(e.1);
            }
            i += 1;
        }
        proof {
            lemma_lookup_chain_skip(self.addresses@, chain, i as int);
            assert(self.addresses@.skip(i as int).len() == 0);
        }
        None
    }
}

/// The address book entry for a named contract; `None` if the name is not
/// part of the address book.
pub fn try_contract<'a>(book: &'a Registry, name: &String) -> (r: Option<&'a Contract>)
    ensures
        r matches Some(c) ==> lookup_contract(book.entries@, name@) == Some(*c),
        r is None ==> lookup_contract(book.entries@, name@) is None,
{
    let mut i: usize = 0;
    while i < book.entries.len()
        invariant
            i <= book.entries@.len(),
            forall|j: int| 0 <= j < i ==> (#[trigger] book.entries@[j]).0@ != name@,
        decreases book.entries@.len() - i,
    {
        let e = &book.entries[i];
        if e.0 == *name {
            proof {
                lemma_lookup_contract_skip(book.entries@, name@, i as int);
                assert(book.entries@.skip(i as int)[0] == book.entries@[i as int]);
            }
            return Some(&e.1);
        }
        i += 1;
    }
    proof {
        lemma_lookup_contract_skip(book.entries@, name@, i as int);
        assert(book.entries@.skip(i as int).len() == 0);
    }
    None
}

/// The address of a named contract on a chain; `None` if either the name or
/// the chain is not part of the address book.
pub fn try_address(book: &Registry, name: &String, chain: u64) -> (r: Option<Address>)
    ensures
        r == (match lookup_contract(book.entries@, name@) {
            Some(c) => lookup_chain(c.addresses@, chain),
            None => None,
        }),
{
    match try_contract(book, name) {
        Some(c) => c.address(chain),
        None => None,
    }
}

/// The address book entry for a named contract that the caller knows to be
/// present; a missing name is the caller's programming error, so it is
/// ruled out up front rather than handled.
pub fn contract<'a>(book: &'a Registry, name: &String) -> (r: &'a Contract)
    requires
        lookup_contract(book.entries@, name@) is Some,
    ensures
        lookup_contract(book.entries@, name@) == Some(*r),
{
    let mut i: usize = 0;
    while i < book.entries.len()
        invariant
            i <= book.entries@.len(),
            forall|j: int| 0 <= j < i ==> (#[trigger] book.entries@[j]).0@ != name@,
            lookup_contract(book.entries@, name@) is Some,
        decreases book.entries@.len() - i,
    {
        let e = &book.entries[i];
        if e.0 == *name {
            proof {
                lemma_lookup_contract_skip(book.entries@, name@, i as int);
                assert(book.entries@.skip(i as int)[0] == book.entries@[i as int]);
            }
            return &e.1;
        }
        i += 1;
    }
    proof {
        lemma_lookup_contract_skip(book.entries@, name@, i as int);
        assert(book.entries@.skip(i as int).len() == 0);
        assert(false);
    }
    // Never reached: the precondition guarantees a matching entry.
    &book.entries[0].1
}

/// The address of a named contract on a chain that the caller knows to be
/// recorded; a missing entry is the caller's programming error, so it is
/// ruled out up front rather than handled.
pub fn address(book: &Registry, name: &String, chain: u64) -> (r: Address)
    requires
        lookup_contract(book.entries@, name@) matches Some(c) && lookup_chain(
            c.addresses@,
            chain,
        ) is Some,
    ensures
        lookup_contract(book.entries@, name@) matches Some(c) && lookup_chain(c.addresses@, chain)
            == Some(r),
{
    let c = contract(book, name);
    match c.address(chain) {
        Some(a) => a,
        None => {
            proof {
                assert(false);
            }
            // Never reached: the precondition guarantees a recorded chain.
            Address { bytes: [0u8; 20] }
        },
    }
}

} // verus!
