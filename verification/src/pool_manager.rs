//! The pool manager: it fills the registry from what a discovery found and
//! answers which tracked pools a candidate touches.

use crate::pool::{ConcentratedLiquidityPool, ConstantProductPool, Pool, PoolVariant};
use crate::primitives::Address;
use crate::registry::{ascending_by_address, PoolRegistry};
use crate::victim::VictimCandidate;
use vstd::prelude::*;

verus! {

/// `registry` with every pool of `pools` tracked under its address, one
/// after the other, so that of two pools at one address the later stays.
pub open spec fn load(registry: Map<Address, Pool>, pools: Seq<Pool>) -> Map<Address, Pool>
    decreases pools.len(),
{
    if pools.len() == 0 {
        registry
    } else {
        load(registry, pools.drop_last()).insert(pools.last().address(), pools.last())
    }
}

/// The last pool of `pools` at `address`, if there is one.
pub open spec fn latest_at(pools: Seq<Pool>, address: Address) -> Option<Pool>
    decreases pools.len(),
{
    if pools.len() == 0 {
        None
    } else if pools.last().address() == address {
        Some(pools.last())
    } else {
        latest_at(pools.drop_last(), address)
    }
}

/// What a discovery found, as one sequence: the constant-product pools,
/// then the concentrated-liquidity pools.
pub open spec fn discovered(
    constant_product: Seq<ConstantProductPool>,
    concentrated_liquidity: Seq<ConcentratedLiquidityPool>,
) -> Seq<Pool> {
    constant_product.map_values(|pool: ConstantProductPool| Pool::ConstantProduct(pool))
        + concentrated_liquidity.map_values(
        |pool: ConcentratedLiquidityPool| Pool::ConcentratedLiquidity(pool),
    )
}

/// After loading, an address holds the last loaded pool with that address,
/// or else what it held before.
pub proof fn lemma_load_at(registry: Map<Address, Pool>, pools: Seq<Pool>, address: Address)
    ensures
        load(registry, pools).dom().contains(address) <==> (registry.dom().contains(address)
            || latest_at(pools, address) is Some),
        load(registry, pools).dom().contains(address) ==> load(registry, pools)[address] == (
        match latest_at(pools, address) {
            Some(pool) => pool,
            None => registry[address],
        }),
    decreases pools.len(),
{
    if pools.len() > 0 {
        lemma_load_at(registry, pools.drop_last(), address);
    }
}

/// Loading forgets no pool: an address that was tracked stays tracked.
pub proof fn lemma_load_forgets_nothing(registry: Map<Address, Pool>, pools: Seq<Pool>)
    ensures
        forall|address: Address|
            registry.dom().contains(address) ==> #[trigger] load(registry, pools).dom().contains(
                address,
            ),
{
    assert forall|address: Address| registry.dom().contains(address) implies #[trigger] load(
        registry,
        pools,
    ).dom().contains(address) by {
        lemma_load_at(registry, pools, address);
    }
}

/// Loading the same pools a second time changes nothing.
pub proof fn lemma_load_is_idempotent(registry: Map<Address, Pool>, pools: Seq<Pool>)
    ensures
        load(load(registry, pools), pools) == load(registry, pools),
{
    let once = load(registry, pools);
    let twice = load(once, pools);
    assert forall|address: Address| #[trigger]
        twice.dom().contains(address) == once.dom().contains(address) by {
        lemma_load_at(registry, pools, address);
        lemma_load_at(once, pools, address);
    }
    assert forall|address: Address| #[trigger]
        twice.dom().contains(address) implies twice[address] == once[address] by {
        lemma_load_at(registry, pools, address);
        lemma_load_at(once, pools, address);
    }
    assert(twice =~= once);
}

/// `selected` holds, in ascending order of their addresses, exactly the
/// pools of `registry` whose address is in `touched`.
pub open spec fn is_touched_selection(
    selected: Seq<Pool>,
    registry: Map<Address, Pool>,
    touched: Set<Address>,
) -> bool {
    &&& ascending_by_address(selected)
    &&& forall|pool: Pool|
        selected.contains(pool) <==> (touched.contains(pool.address()) && registry.contains_pair(
            pool.address(),
            pool,
        ))
}

/// The tracked pools of `registry` that `touched` reaches, in ascending
/// order of their addresses.
pub open spec fn touched_pools(registry: Map<Address, Pool>, touched: Set<Address>) -> Seq<Pool> {
    choose|selected: Seq<Pool>| is_touched_selection(selected, registry, touched)
}

/// Two ascending sequences with the same pools are the same sequence.
pub proof fn lemma_ascending_same_pools(a: Seq<Pool>, b: Seq<Pool>)
    requires
        ascending_by_address(a),
        ascending_by_address(b),
        forall|pool: Pool| a.contains(pool) <==> b.contains(pool),
    ensures
        a == b,
    decreases a.len(),
{
    if a.len() == 0 {
        if b.len() > 0 {
            assert(b.contains(b[0]));
        }
        assert(a =~= b);
    } else {
        let x = a.last();
        assert(a.contains(x));
        let k = choose|k: int| 0 <= k < b.len() && b[k] == x;
        let y = b.last();
        assert(b.contains(y));
        let m = choose|m: int| 0 <= m < a.len() && a[m] == y;
        if k < b.len() - 1 {
            assert(b[k].address().lt(b[b.len() - 1].address()));
            if m < a.len() - 1 {
                assert(a[m].address().lt(a[a.len() - 1].address()));
            }
        }
        assert(x == y);
        let front_a = a.drop_last();
        let front_b = b.drop_last();
        assert forall|pool: Pool| front_a.contains(pool) <==> front_b.contains(pool) by {
            if front_a.contains(pool) {
                let i = choose|i: int| 0 <= i < front_a.len() && front_a[i] == pool;
                assert(a[i] == pool);
                assert(a[i].address().lt(a[a.len() - 1].address()));
                assert(a.contains(pool));
                let j = choose|j: int| 0 <= j < b.len() && b[j] == pool;
                assert(front_b[j] == pool);
            }
            if front_b.contains(pool) {
                let i = choose|i: int| 0 <= i < front_b.len() && front_b[i] == pool;
                assert(b[i] == pool);
                assert(b[i].address().lt(b[b.len() - 1].address()));
                assert(b.contains(pool));
                let j = choose|j: int| 0 <= j < a.len() && a[j] == pool;
                assert(front_a[j] == pool);
            }
        }
        assert forall|i: int, j: int| 0 <= i < j < front_a.len() implies (
        #[trigger] front_a[i]).address().lt((#[trigger] front_a[j]).address()) by {
            assert(front_a[i] == a[i] && front_a[j] == a[j]);
        }
        assert forall|i: int, j: int| 0 <= i < j < front_b.len() implies (
        #[trigger] front_b[i]).address().lt((#[trigger] front_b[j]).address()) by {
            assert(front_b[i] == b[i] && front_b[j] == b[j]);
        }
        lemma_ascending_same_pools(front_a, front_b);
        assert(a =~= front_a.push(x));
        assert(b =~= front_b.push(y));
    }
}

/// There is one selection of touched pools, so a sequence that is one is
/// `touched_pools`.
pub proof fn lemma_selection_is_unique(
    selected: Seq<Pool>,
    registry: Map<Address, Pool>,
    touched: Set<Address>,
)
    requires
        is_touched_selection(selected, registry, touched),
    ensures
        selected == touched_pools(registry, touched),
{
    lemma_ascending_same_pools(selected, touched_pools(registry, touched));
}

/// Whether `touched` reaches a pool of `registry`.
pub open spec fn touches_tracked_pool(registry: Map<Address, Pool>, touched: Set<Address>) -> bool {
    exists|address: Address| touched.contains(address) && registry.dom().contains(address)
}

/// Whether `address` is among the first `count` elements of `addresses`.
spec fn visited(addresses: Seq<Address>, count: int, address: Address) -> bool {
    exists|m: int| 0 <= m < count && addresses[m] == address
}

/// Why a pool sync was given up.
#[derive(Clone, Copy, Debug, PartialEq, Eq, Structural)]
pub enum PoolSyncError {
    /// The discovery of the pools of this variant failed.
    DiscoveryFailed(PoolVariant),
}

/// Why the touched pools could not be looked up.
#[derive(Clone, Copy, Debug, PartialEq, Eq, Structural)]
pub enum LookupError {
    /// The registry has not been filled by a sync.
    RegistryUnavailable,
}

/// What the manager holds: the pools by address, and whether a sync has
/// filled the registry.
pub struct ManagerView {
    pub pools: Map<Address, Pool>,
    pub synced: bool,
}

/// Owns the registry of tracked pools. Nothing else writes to it.
#[derive(Debug, PartialEq, Eq)]
pub struct PoolStateManager {
    registry: PoolRegistry,
    synced: bool,
}

impl View for PoolStateManager {
    type V = ManagerView;

    closed spec fn view(&self) -> ManagerView {
        ManagerView { pools: self.registry@, synced: self.synced }
    }
}

impl PoolStateManager {
    /// The registry is in order.
    pub closed spec fn wf(&self) -> bool {
        self.registry.wf()
    }

    /// Every tracked pool stands under its own address.
    pub proof fn lemma_reachable_by_own_address(&self)
        requires
            self.wf(),
        ensures
            forall|address: Address|
                self@.pools.dom().contains(address) ==> (#[trigger] self@.pools[address]).address()
                    == address,
    {
        self.registry.lemma_entries();
    }

    /// A manager with an empty registry that no sync has filled.
    pub fn new() -> (manager: PoolStateManager)
        ensures
            manager.wf(),
            manager@ == (ManagerView { pools: Map::empty(), synced: false }),
    {
        PoolStateManager { registry: PoolRegistry::new(), synced: false }
    }

    /// Whether a sync has filled the registry.
    pub fn is_synced(&self) -> (synced: bool)
        ensures
            synced == self@.synced,
    {
        self.synced
    }

    /// The pool tracked at `address`, if any.
    pub fn pool_at(&self, address: Address) -> (pool: Option<Pool>)
        requires
            self.wf(),
        ensures
            pool == (if self@.pools.dom().contains(address) {
                Some(self@.pools[address])
            } else {
                None
            }),
    {
        self.registry.get(address)
    }

    /// Loads what a discovery found for each variant. A variant whose
    /// discovery failed is `None`; then nothing is loaded at all and the
    /// manager stays as it was. Otherwise every found pool is tracked under
    /// its address and the registry counts as filled.
    pub fn sync_all_pools(
        &mut self,
        constant_product: Option<Vec<ConstantProductPool>>,
        concentrated_liquidity: Option<Vec<ConcentratedLiquidityPool>>,
    ) -> (done: Result<(), PoolSyncError>)
        requires
            old(self).wf(),
        ensures
            final(self).wf(),
            match (constant_product, concentrated_liquidity) {
                (Some(first), Some(second)) => done is Ok && final(self)@ == (ManagerView {
                    pools: load(old(self)@.pools, discovered(first@, second@)),
                    synced: true,
                }),
                (None, _) => done == Err::<(), PoolSyncError>(
                    PoolSyncError::DiscoveryFailed(PoolVariant::ConstantProduct),
                ) && final(self)@ == old(self)@,
                (Some(_), None) => done == Err::<(), PoolSyncError>(
                    PoolSyncError::DiscoveryFailed(PoolVariant::ConcentratedLiquidity),
                ) && final(self)@ == old(self)@,
            },
    {
        let first = match constant_product {
            Some(found) => found,
            None => {
                return Err(PoolSyncError::DiscoveryFailed(PoolVariant::ConstantProduct));
            },
        };
        let second = match concentrated_liquidity {
            Some(found) => found,
            None => {
                return Err(PoolSyncError::DiscoveryFailed(PoolVariant::ConcentratedLiquidity));
            },
        };
        let ghost before = self.registry@;
        let ghost all = discovered(first@, second@);
        let mut index: usize = 0;
        while index < first.len()
            invariant
                index <= first@.len(),
                self.registry.wf(),
                self.synced == old(self).synced,
                all == discovered(first@, second@),
                self.registry@ == load(before, all.take(index as int)),
            decreases first@.len() - index,
        {
            proof {
                assert(all.take(index + 1).drop_last() =~= all.take(index as int));
                assert(all.take(index + 1).last() == Pool::ConstantProduct(first@[index as int]));
            }
            let _ = self.registry.insert(Pool::ConstantProduct(first[index]));
            index = index + 1;
        }
        let ghost offset = first@.len() as int;
        let mut index: usize = 0;
        while index < second.len()
            invariant
                index <= second@.len(),
                offset == first@.len(),
                self.registry.wf(),
                self.synced == old(self).synced,
                all == discovered(first@, second@),
                self.registry@ == load(before, all.take(offset + index)),
            decreases second@.len() - index,
        {
            proof {
                assert(all.take(offset + index + 1).drop_last() =~= all.take(offset + index));
                assert(all.take(offset + index + 1).last() == Pool::ConcentratedLiquidity(
                    second@[index as int],
                ));
            }
            let _ = self.registry.insert(Pool::ConcentratedLiquidity(second[index]));
            index = index + 1;
        }
        proof {
            assert(all.take(offset + index) =~= all);
        }
        self.synced = true;
        Ok(())
    }

    /// The tracked pools that `candidate` touches, in ascending order of
    /// their addresses; none where it touches none or is not traced yet.
    /// Fails only where no sync has filled the registry.
    pub fn get_touched_pools(&self, candidate: &VictimCandidate) -> (found: Result<
        Vec<Pool>,
        LookupError,
    >)
        requires
            self.wf(),
            candidate.wf(),
        ensures
            match found {
                Ok(pools) => {
                    &&& self@.synced
                    &&& is_touched_selection(pools@, self@.pools, candidate@.touched())
                    &&& pools@ == touched_pools(self@.pools, candidate@.touched())
                    &&& pools@.len() > 0 <==> touches_tracked_pool(
                        self@.pools,
                        candidate@.touched(),
                    )
                },
                Err(error) => !self@.synced && error == LookupError::RegistryUnavailable,
            },
    {
        if !self.synced {
            return Err(LookupError::RegistryUnavailable);
        }
        let mut selected: Vec<Pool> = Vec::new();
        match candidate.state_diff() {
            None => {
                assert(is_touched_selection(selected@, self@.pools, candidate@.touched()));
            },
            Some(diff) => {
                let mut index: usize = 0;
                while index < diff.len()
                    invariant
                        index <= diff@.len(),
                        diff.wf(),
                        self.registry.wf(),
                        ascending_by_address(selected@),
                        forall|k: int|
                            0 <= k < selected@.len() ==> visited(
                                diff@,
                                index as int,
                                (#[trigger] selected@[k]).address(),
                            ),
                        forall|pool: Pool|
                            selected@.contains(pool) <==> (visited(
                                diff@,
                                index as int,
                                pool.address(),
                            ) && self.registry@.contains_pair(pool.address(), pool)),
                    decreases diff@.len() - index,
                {
                    let address = diff.address_at(index);
                    let ghost earlier = selected@;
                    let hit = self.registry.get(address);
                    proof {
                        self.registry.lemma_entries();
                        assert forall|k: int| 0 <= k < earlier.len() implies (
                        #[trigger] earlier[k]).address().lt(address) by {
                            let m = choose|m: int|
                                0 <= m < index && diff@[m] == earlier[k].address();
                            assert(diff@[m].lt(diff@[index as int]));
                        }
                    }
                    match hit {
                        Some(pool) => {
                            selected.push(pool);
                        },
                        None => {},
                    }
                    proof {
                        let later = selected@;
                        assert forall|other: Address| #[trigger]
                            visited(diff@, index + 1, other) == (visited(diff@, index as int, other)
                                || other == address) by {
                            if visited(diff@, index as int, other) {
                                let m = choose|m: int| 0 <= m < index && diff@[m] == other;
                                assert(0 <= m < index + 1 && diff@[m] == other);
                            }
                            if other == address {
                                assert(0 <= index < index + 1 && diff@[index as int] == other);
                            }
                        }
                        assert forall|pool: Pool| later.contains(pool) <==> (visited(
                            diff@,
                            index + 1,
                            pool.address(),
                        ) && self.registry@.contains_pair(pool.address(), pool)) by {
                            assert(visited(diff@, index + 1, pool.address()) == (visited(
                                diff@,
                                index as int,
                                pool.address(),
                            ) || pool.address() == address));
                            if later.contains(pool) {
                                let k = choose|k: int| 0 <= k < later.len() && later[k] == pool;
                                if k < earlier.len() {
                                    assert(earlier[k] == pool);
                                }
                            }
                            if earlier.contains(pool) {
                                let k = choose|k: int| 0 <= k < earlier.len() && earlier[k] == pool;
                                assert(later[k] == pool);
                            }
                            if hit == Some(pool) {
                                assert(later[later.len() - 1] == pool);
                            }
                        }
                        assert forall|k: int| 0 <= k < later.len() implies visited(
                            diff@,
                            index + 1,
                            (#[trigger] later[k]).address(),
                        ) by {
                            assert(visited(diff@, index + 1, later[k].address()) == (visited(
                                diff@,
                                index as int,
                                later[k].address(),
                            ) || later[k].address() == address));
                            if k < earlier.len() {
                                assert(later[k] == earlier[k]);
                            }
                        }
                        assert forall|i: int, j: int| 0 <= i < j < later.len() implies (
                        #[trigger] later[i]).address().lt((#[trigger] later[j]).address()) by {
                            assert(later[i] == earlier[i]);
                            if j < earlier.len() {
                                assert(later[j] == earlier[j]);
                            }
                        }
                    }
                    index = index + 1;
                }
                proof {
                    assert forall|pool: Pool|
                        visited(diff@, index as int, pool.address()) == candidate@.touched().contains(
                            pool.address(),
                        ) by {
                        let address = pool.address();
                        if diff@.contains(address) {
                            let m = choose|m: int| 0 <= m < diff@.len() && diff@[m] == address;
                            assert(0 <= m < index && diff@[m] == address);
                        }
                    }
                }
            },
        }
        proof {
            lemma_selection_is_unique(selected@, self@.pools, candidate@.touched());
            self.registry.lemma_entries();
            if selected@.len() > 0 {
                assert(selected@.contains(selected@[0]));
            }
            if touches_tracked_pool(self@.pools, candidate@.touched()) {
                let address = choose|address: Address|
                    candidate@.touched().contains(address) && self@.pools.dom().contains(address);
                assert(selected@.contains(self@.pools[address]));
            }
        }
        Ok(selected)
    }
}

} // verus!
