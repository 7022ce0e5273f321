//! Liquidity pools, the two variants the strategy knows, and the routing of
//! touched pools to the analysis of their variant.

use crate::primitives::{Address, U256};
use vstd::prelude::*;

verus! {

/// The pricing scheme of a pool.
#[derive(Clone, Copy, Debug, PartialEq, Eq, Structural)]
pub enum PoolVariant {
    /// Two assets held at a constant product.
    ConstantProduct,
    /// Liquidity concentrated in price ranges.
    ConcentratedLiquidity,
}

/// A two-asset constant-product pool with its reserves.
#[derive(Clone, Copy, Debug, PartialEq, Eq, Structural)]
pub struct ConstantProductPool {
    pub address: Address,
    pub token_a: Address,
    pub token_b: Address,
    pub reserve_0: u128,
    pub reserve_1: u128,
    pub fee: u32,
}

/// A concentrated-liquidity pool with its price state.
#[derive(Clone, Copy, Debug, PartialEq, Eq, Structural)]
pub struct ConcentratedLiquidityPool {
    pub address: Address,
    pub token_a: Address,
    pub token_b: Address,
    pub liquidity: u128,
    pub sqrt_price: U256,
    pub tick: i32,
    pub fee: u32,
}

/// A tracked pool.
#[derive(Clone, Copy, Debug, PartialEq, Eq, Structural)]
pub enum Pool {
    ConstantProduct(ConstantProductPool),
    ConcentratedLiquidity(ConcentratedLiquidityPool),
}

impl Pool {
    /// The pool's own address.
    pub open spec fn spec_address(&self) -> Address {
        match *self {
            Pool::ConstantProduct(pool) => pool.address,
            Pool::ConcentratedLiquidity(pool) => pool.address,
        }
    }

    /// The pool's variant.
    pub open spec fn spec_variant(&self) -> PoolVariant {
        match *self {
            Pool::ConstantProduct(_) => PoolVariant::ConstantProduct,
            Pool::ConcentratedLiquidity(_) => PoolVariant::ConcentratedLiquidity,
        }
    }

    /// The pool's own address.
    #[verifier::when_used_as_spec(spec_address)]
    pub fn address(&self) -> (address: Address)
        ensures
            address == self.spec_address(),
    {
        match self {
            Pool::ConstantProduct(pool) => pool.address,
            Pool::ConcentratedLiquidity(pool) => pool.address,
        }
    }

    /// The pool's variant.
    #[verifier::when_used_as_spec(spec_variant)]
    pub fn variant(&self) -> (variant: PoolVariant)
        ensures
            variant == self.spec_variant(),
    {
        match self {
            Pool::ConstantProduct(_) => PoolVariant::ConstantProduct,
            Pool::ConcentratedLiquidity(_) => PoolVariant::ConcentratedLiquidity,
        }
    }

    /// The two assets that the pool holds.
    pub fn tokens(&self) -> (tokens: (Address, Address))
        ensures
            tokens == match *self {
                Pool::ConstantProduct(pool) => (pool.token_a, pool.token_b),
                Pool::ConcentratedLiquidity(pool) => (pool.token_a, pool.token_b),
            },
    {
        match self {
            Pool::ConstantProduct(pool) => (pool.token_a, pool.token_b),
            Pool::ConcentratedLiquidity(pool) => (pool.token_a, pool.token_b),
        }
    }
}

/// The constant-product pools of `pools`, in order.
pub open spec fn constant_product_of(pools: Seq<Pool>) -> Seq<ConstantProductPool>
    decreases pools.len(),
{
    if pools.len() == 0 {
        Seq::empty()
    } else {
        let front = constant_product_of(pools.drop_last());
        match pools.last() {
            Pool::ConstantProduct(pool) => front.push(pool),
            Pool::ConcentratedLiquidity(_) => front,
        }
    }
}

/// The concentrated-liquidity pools of `pools`, in order.
pub open spec fn concentrated_liquidity_of(pools: Seq<Pool>) -> Seq<ConcentratedLiquidityPool>
    decreases pools.len(),
{
    if pools.len() == 0 {
        Seq::empty()
    } else {
        let front = concentrated_liquidity_of(pools.drop_last());
        match pools.last() {
            Pool::ConstantProduct(_) => front,
            Pool::ConcentratedLiquidity(pool) => front.push(pool),
        }
    }
}

/// Routing drops no pool: every pool is on the route of its variant, every
/// routed pool was given, and the two routes together are as long as what
/// was given.
pub proof fn lemma_routing_is_complete(pools: Seq<Pool>)
    ensures
        constant_product_of(pools).len() + concentrated_liquidity_of(pools).len() == pools.len(),
        forall|pool: ConstantProductPool|
            constant_product_of(pools).contains(pool) <==> pools.contains(
                Pool::ConstantProduct(pool),
            ),
        forall|pool: ConcentratedLiquidityPool|
            concentrated_liquidity_of(pools).contains(pool) <==> pools.contains(
                Pool::ConcentratedLiquidity(pool),
            ),
    decreases pools.len(),
{
    if pools.len() > 0 {
        let front = pools.drop_last();
        lemma_routing_is_complete(front);
        assert(pools =~= front.push(pools.last()));
        assert forall|pool: ConstantProductPool|
            constant_product_of(pools).contains(pool) <==> pools.contains(
                Pool::ConstantProduct(pool),
            ) by {
            lemma_push_contains(front, pools.last(), Pool::ConstantProduct(pool));
            match pools.last() {
                Pool::ConstantProduct(last) => {
                    lemma_push_contains(constant_product_of(front), last, pool);
                },
                Pool::ConcentratedLiquidity(_) => {},
            }
        }
        assert forall|pool: ConcentratedLiquidityPool|
            concentrated_liquidity_of(pools).contains(pool) <==> pools.contains(
                Pool::ConcentratedLiquidity(pool),
            ) by {
            lemma_push_contains(front, pools.last(), Pool::ConcentratedLiquidity(pool));
            match pools.last() {
                Pool::ConstantProduct(_) => {},
                Pool::ConcentratedLiquidity(last) => {
                    lemma_push_contains(concentrated_liquidity_of(front), last, pool);
                },
            }
        }
    }
}

/// An element is in `s.push(last)` exactly when it is `last` or in `s`.
proof fn lemma_push_contains<T>(s: Seq<T>, last: T, element: T)
    ensures
        s.push(last).contains(element) <==> (element == last || s.contains(element)),
{
    let t = s.push(last);
    if s.contains(element) {
        let k = choose|k: int| 0 <= k < s.len() && s[k] == element;
        assert(t[k] == element);
    }
    if element == last {
        assert(t[s.len() as int] == element);
    }
}

/// The touched pools of one transaction, each on the route of its variant.
#[derive(Debug, PartialEq, Eq)]
pub struct Routes {
    /// The pools for the constant-product analysis.
    pub constant_product: Vec<ConstantProductPool>,
    /// The pools for the concentrated-liquidity analysis.
    pub concentrated_liquidity: Vec<ConcentratedLiquidityPool>,
}

impl Routes {
    /// Whether the routes are those of `pools`.
    pub open spec fn routes_of(self, pools: Seq<Pool>) -> bool {
        &&& self.constant_product@ == constant_product_of(pools)
        &&& self.concentrated_liquidity@ == concentrated_liquidity_of(pools)
    }

    /// The number of routed pools.
    pub open spec fn spec_len(self) -> nat {
        self.constant_product@.len() + self.concentrated_liquidity@.len()
    }
}

/// Puts every pool of `pools` on the route of its variant, keeping the
/// order within each route.
pub fn route_pools(pools: &Vec<Pool>) -> (routes: Routes)
    ensures
        routes.routes_of(pools@),
        routes.spec_len() == pools@.len(),
{
    let mut constant_product: Vec<ConstantProductPool> = Vec::new();
    let mut concentrated_liquidity: Vec<ConcentratedLiquidityPool> = Vec::new();
    let mut index: usize = 0;
    while index < pools.len()
        invariant
            index <= pools@.len(),
            constant_product@ == constant_product_of(pools@.take(index as int)),
            concentrated_liquidity@ == concentrated_liquidity_of(pools@.take(index as int)),
        decreases pools@.len() - index,
    {
        proof {
            assert(pools@.take(index + 1).drop_last() =~= pools@.take(index as int));
        }
        match pools[index] {
            Pool::ConstantProduct(pool) => constant_product.push(pool),
            Pool::ConcentratedLiquidity(pool) => concentrated_liquidity.push(pool),
        }
        index = index + 1;
    }
    proof {
        assert(pools@.take(index as int) =~= pools@);
        lemma_routing_is_complete(pools@);
    }
    Routes { constant_product, concentrated_liquidity }
}

} // verus!
