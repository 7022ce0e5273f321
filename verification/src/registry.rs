//! The registry of tracked pools: every pool under its own address.

use crate::address_set::AddressSet;
use crate::pool::Pool;
use crate::primitives::Address;
use vstd::prelude::*;

verus! {

/// Every pool comes before all the pools after it, by address.
pub open spec fn ascending_by_address(pools: Seq<Pool>) -> bool {
    forall|i: int, j: int|
        0 <= i < j < pools.len() ==> (#[trigger] pools[i]).address().lt(
            (#[trigger] pools[j]).address(),
        )
}

/// The pools of `pools`, each under its own address.
pub open spec fn pools_by_address(pools: Seq<Pool>) -> Map<Address, Pool> {
    Map::new(
        |address: Address| exists|i: int| 0 <= i < pools.len() && pools[i].address() == address,
        |address: Address|
            pools[choose|i: int| 0 <= i < pools.len() && pools[i].address() == address],
    )
}

/// In an ascending sequence every pool is found under its own address.
pub proof fn lemma_pool_found_under_its_address(pools: Seq<Pool>, index: int)
    requires
        ascending_by_address(pools),
        0 <= index < pools.len(),
    ensures
        pools_by_address(pools).contains_pair(pools[index].address(), pools[index]),
{
    let address = pools[index].address();
    let found = choose|i: int| 0 <= i < pools.len() && pools[i].address() == address;
    assert(found == index) by {
        if found < index {
            assert(pools[found].address().lt(pools[index].address()));
        } else if index < found {
            assert(pools[index].address().lt(pools[found].address()));
        }
    }
}

/// Where `after` is ascending, holds `pool`, and away from the address of
/// `pool` holds the pools of `before`, it is `before` with `pool` tracked
/// under its address.
proof fn lemma_tracked_in_place(before: Seq<Pool>, after: Seq<Pool>, pool: Pool)
    requires
        ascending_by_address(before),
        ascending_by_address(after),
        after.contains(pool),
        forall|other: Pool|
            other.address() != pool.address() ==> (after.contains(other) <==> before.contains(
                other,
            )),
    ensures
        pools_by_address(after) == pools_by_address(before).insert(pool.address(), pool),
{
    let expected = pools_by_address(before).insert(pool.address(), pool);
    let held = choose|i: int| 0 <= i < after.len() && after[i] == pool;
    lemma_pool_found_under_its_address(after, held);
    assert forall|address: Address| address != pool.address() implies (pools_by_address(
        after,
    ).dom().contains(address) <==> expected.dom().contains(address)) && (pools_by_address(
        after,
    ).dom().contains(address) ==> pools_by_address(after)[address] == expected[address]) by {
        if pools_by_address(after).dom().contains(address) {
            let i = choose|i: int| 0 <= i < after.len() && after[i].address() == address;
            lemma_pool_found_under_its_address(after, i);
            assert(after.contains(after[i]));
            let j = choose|j: int| 0 <= j < before.len() && before[j] == after[i];
            lemma_pool_found_under_its_address(before, j);
        }
        if pools_by_address(before).dom().contains(address) {
            let j = choose|j: int| 0 <= j < before.len() && before[j].address() == address;
            lemma_pool_found_under_its_address(before, j);
            assert(before.contains(before[j]));
            let i = choose|i: int| 0 <= i < after.len() && after[i] == before[j];
            lemma_pool_found_under_its_address(after, i);
        }
    }
    assert(pools_by_address(after) =~= expected);
}

/// The tracked pools, each reachable by its own address.
#[derive(Debug, PartialEq, Eq)]
pub struct PoolRegistry {
    keys: AddressSet,
    pools: Vec<Pool>,
}

impl View for PoolRegistry {
    type V = Map<Address, Pool>;

    /// The pools by address.
    closed spec fn view(&self) -> Map<Address, Pool> {
        pools_by_address(self.pools@)
    }
}

impl PoolRegistry {
    /// The pools in ascending order of their addresses.
    pub closed spec fn entries(&self) -> Seq<Pool> {
        self.pools@
    }

    /// The pools are in strictly ascending order of their addresses, so
    /// that no address occurs twice.
    pub closed spec fn wf(&self) -> bool {
        &&& self.keys.wf()
        &&& self.keys@.len() == self.pools@.len()
        &&& forall|i: int|
            0 <= i < self.pools@.len() ==> (#[trigger] self.pools@[i]).address() == self.keys@[i]
    }

    /// What the invariant means for the entries and the view: the entries
    /// are ascending, they are the values of the view, and every pool of the
    /// view stands under its own address.
    pub proof fn lemma_entries(&self)
        requires
            self.wf(),
        ensures
            ascending_by_address(self.entries()),
            self@ == pools_by_address(self.entries()),
            forall|address: Address|
                self@.dom().contains(address) ==> (#[trigger] self@[address]).address() == address,
            forall|pool: Pool|
                self.entries().contains(pool) <==> self@.contains_pair(pool.address(), pool),
    {
        self.lemma_sorted();
        let pools = self.pools@;
        assert forall|pool: Pool| pools.contains(pool) <==> self@.contains_pair(
            pool.address(),
            pool,
        ) by {
            if pools.contains(pool) {
                let k = choose|k: int| 0 <= k < pools.len() && pools[k] == pool;
                lemma_pool_found_under_its_address(pools, k);
            }
            if self@.contains_pair(pool.address(), pool) {
                let k = choose|i: int| 0 <= i < pools.len() && pools[i].address() == pool.address();
                assert(pools[k] == pool);
            }
        }
    }

    proof fn lemma_sorted(&self)
        requires
            self.wf(),
        ensures
            ascending_by_address(self.pools@),
    {
        assert forall|i: int, j: int| 0 <= i < j < self.pools@.len() implies (
        #[trigger] self.pools@[i]).address().lt((#[trigger] self.pools@[j]).address()) by {
            assert(self.keys@[i].lt(self.keys@[j]));
        }
    }

    /// The empty registry.
    pub fn new() -> (registry: PoolRegistry)
        ensures
            registry.wf(),
            registry@ == Map::<Address, Pool>::empty(),
            registry.entries() == Seq::<Pool>::empty(),
    {
        let registry = PoolRegistry { keys: AddressSet::new(), pools: Vec::new() };
        registry
    }

    /// The number of pools.
    pub fn len(&self) -> (n: usize)
        ensures
            n == self.entries().len(),
    {
        self.pools.len()
    }

    /// The pool at `address`, if one is tracked there.
    pub fn get(&self, address: Address) -> (pool: Option<Pool>)
        requires
            self.wf(),
        ensures
            pool == (if self@.dom().contains(address) {
                Some(self@[address])
            } else {
                None
            }),
    {
        let (pos, found) = self.keys.search(address);
        if found {
            proof {
                self.lemma_sorted();
                lemma_pool_found_under_its_address(self.pools@, pos as int);
            }
            Some(self.pools[pos])
        } else {
            proof {
                if self@.dom().contains(address) {
                    let k = choose|i: int|
                        0 <= i < self.pools@.len() && self.pools@[i].address() == address;
                    assert(self.keys@[k] == address);
                }
            }
            None
        }
    }

    /// Tracks `pool` under its address, in place of the pool that was
    /// tracked there, if any, which is returned.
    pub fn insert(&mut self, pool: Pool) -> (replaced: Option<Pool>)
        requires
            old(self).wf(),
        ensures
            final(self).wf(),
            final(self)@ == old(self)@.insert(pool.address(), pool),
            replaced == (if old(self)@.dom().contains(pool.address()) {
                Some(old(self)@[pool.address()])
            } else {
                None
            }),
    {
        let address = pool.address();
        let ghost before = self.pools@;
        proof {
            self.lemma_sorted();
        }
        let (pos, fresh) = self.keys.insert(address);
        let replaced = if fresh {
            self.pools.insert(pos, pool);
            proof {
                if old(self)@.dom().contains(address) {
                    let k = choose|i: int| 0 <= i < before.len() && before[i].address() == address;
                    assert(old(self).keys@[k] == address);
                }
            }
            None
        } else {
            let previous = self.pools[pos];
            proof {
                lemma_pool_found_under_its_address(before, pos as int);
            }
            self.pools.set(pos, pool);
            Some(previous)
        };
        proof {
            let after = self.pools@;
            assert forall|i: int| 0 <= i < after.len() implies (#[trigger] after[i]).address()
                == self.keys@[i] by {
                if fresh && i > pos {
                    assert(after[i] == before[i - 1]);
                } else if i != pos {
                    assert(after[i] == before[i]);
                }
            }
            self.lemma_sorted();
            assert(after[pos as int] == pool);
            assert forall|other: Pool| other.address() != address implies (after.contains(other)
                <==> before.contains(other)) by {
                if after.contains(other) {
                    let k = choose|k: int| 0 <= k < after.len() && after[k] == other;
                    if fresh && k > pos {
                        assert(before[k - 1] == other);
                    } else {
                        assert(before[k] == other);
                    }
                }
                if before.contains(other) {
                    let k = choose|k: int| 0 <= k < before.len() && before[k] == other;
                    if fresh && k >= pos {
                        assert(after[k + 1] == other);
                    } else {
                        assert(after[k] == other);
                    }
                }
            }
            lemma_tracked_in_place(before, after, pool);
        }
        replaced
    }
}

} // verus!
