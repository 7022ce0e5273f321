//! The strategy itself: it routes block events to the tracker and takes
//! transaction events through the filter pipeline, one stage after the
//! other.

use crate::block::{
    constraints_of, update_verdict, BlockError, BlockStateTracker, ChainHead, SetupError, Tracking,
};
use crate::pool::{
    lemma_routing_is_complete, route_pools, ConcentratedLiquidityPool, ConstantProductPool, Pool,
    PoolVariant, Routes,
};
use crate::primitives::Address;
use crate::pool_manager::{
    discovered, is_touched_selection, load, touched_pools, touches_tracked_pool, LookupError,
    ManagerView, PoolStateManager, PoolSyncError,
};
use crate::victim::{CandidateView, StateDiff, TraceFailure, Transaction, VictimCandidate};
use std::sync::Arc;
use vstd::prelude::*;

verus! {

/// What the strategy is started with.
#[derive(Clone, Copy, Debug, PartialEq, Eq, Structural)]
pub struct StratConfig {
    /// The contract that the strategy trades through.
    pub sando_address: Address,
    /// The block from which pools are discovered.
    pub sando_inception_block: u64,
}

/// What comes in from the chain.
#[derive(Clone, Copy, Debug, PartialEq, Eq)]
pub enum Event {
    /// A block became the head.
    NewBlock(ChainHead),
    /// A transaction is pending.
    NewTransaction(Transaction),
}

/// Why the one-time setup failed. Either way the strategy cannot start.
#[derive(Clone, Copy, Debug, PartialEq, Eq, Structural)]
pub enum SyncError {
    /// The registry could not be filled.
    Pools(PoolSyncError),
    /// The tracker could not be set up.
    Head(SetupError),
}

/// How an event ended. None of these hands an action to the executor.
#[derive(Debug, PartialEq, Eq)]
pub enum Outcome {
    /// The block is the new head.
    BlockApplied,
    /// The transaction's own window keeps it out of the next block.
    Unreachable,
    /// The transaction could not be traced and is dropped.
    StateDiffFailed(TraceFailure),
    /// The touched pools could not be looked up; the transaction is dropped.
    PoolLookupFailed(LookupError),
    /// The transaction touches no tracked pool.
    NoTouchedPools,
    /// The transaction touches tracked pools; each is on the route to the
    /// analysis of its variant.
    Classified(Routes),
}

impl Outcome {
    /// Whether the event was dropped for a failure that stays within this
    /// one event.
    pub open spec fn soft_failure(&self) -> bool {
        self is StateDiffFailed || self is PoolLookupFailed
    }

    /// Whether the event ended at a stage that found nothing to do, which
    /// is no failure.
    pub open spec fn expected_empty(&self) -> bool {
        self is Unreachable || self is NoTouchedPools
    }

    /// Whether the event was dropped for a failure that stays within this
    /// one event.
    #[verifier::when_used_as_spec(soft_failure)]
    pub fn is_soft_failure(&self) -> (soft: bool)
        ensures
            soft == self.soft_failure(),
    {
        match self {
            Outcome::StateDiffFailed(_) => true,
            Outcome::PoolLookupFailed(_) => true,
            _ => false,
        }
    }

    /// Whether the event ended at a stage that found nothing to do, which
    /// is no failure.
    #[verifier::when_used_as_spec(expected_empty)]
    pub fn is_expected_empty(&self) -> (empty: bool)
        ensures
            empty == self.expected_empty(),
    {
        match self {
            Outcome::Unreachable => true,
            Outcome::NoTouchedPools => true,
            _ => false,
        }
    }
}

/// What the strategy asks of its caller after an event.
#[derive(Debug, PartialEq, Eq)]
pub enum Step {
    /// The event is dealt with.
    Finished(Outcome),
    /// The transaction may land in the next block. It has to be traced, and
    /// the candidate handed back with the trace.
    AwaitStateDiff(VictimCandidate),
}

/// What the strategy holds.
pub struct BotView<M> {
    /// The client it was made with.
    pub provider: Arc<M>,
    /// The configuration it was made with.
    pub config: StratConfig,
    /// The pool manager's state.
    pub pools: ManagerView,
    /// The tracker's state.
    pub chain: Option<Tracking>,
}

/// The first stage of the pipeline for `tx` against `chain`: a fatal
/// error before setup, the end where the window does not admit the next
/// block, and else a fresh candidate that waits for its state diff.
pub open spec fn is_first_step(
    chain: Option<Tracking>,
    tx: Transaction,
    step: Result<Step, BlockError>,
) -> bool {
    match constraints_of(chain) {
        None => step matches Err(reason) && reason == BlockError::NotSetUp,
        Some(target) => if tx.window.admits(target) {
            &&& step matches Ok(Step::AwaitStateDiff(candidate))
            &&& candidate.wf()
            &&& candidate@ == (CandidateView { tx, target, state_diff: None })
        } else {
            step matches Ok(Step::Finished(Outcome::Unreachable))
        },
    }
}

/// The stages after the trace, for a candidate with the view `candidate`
/// against the pools `pools`. The first stage that disqualifies decides.
pub open spec fn is_final_outcome(
    pools: ManagerView,
    candidate: CandidateView,
    traced: Result<Seq<Address>, TraceFailure>,
    outcome: Outcome,
) -> bool {
    if !candidate.tx.window.admits(candidate.target) {
        outcome is Unreachable
    } else {
        match traced {
            Err(failure) => outcome == Outcome::StateDiffFailed(failure),
            Ok(addresses) => if !pools.synced {
                outcome == Outcome::PoolLookupFailed(LookupError::RegistryUnavailable)
            } else if !touches_tracked_pool(pools.pools, addresses.to_set()) {
                outcome is NoTouchedPools
            } else {
                &&& outcome matches Outcome::Classified(routes)
                &&& is_touched_selection(
                    touched_pools(pools.pools, addresses.to_set()),
                    pools.pools,
                    addresses.to_set(),
                )
                &&& routes.routes_of(touched_pools(pools.pools, addresses.to_set()))
                &&& routes.spec_len() == touched_pools(pools.pools, addresses.to_set()).len()
                &&& routes.spec_len() > 0
            },
        }
    }
}

/// A transaction that its own window keeps out of the block after the head
/// ends at the first stage: the step does not ask for a trace.
pub proof fn lemma_out_of_reach_is_not_traced(
    chain: Tracking,
    tx: Transaction,
    step: Result<Step, BlockError>,
)
    requires
        is_first_step(Some(chain), tx, step),
        !tx.window.admits(chain.head.target()),
    ensures
        step matches Ok(Step::Finished(Outcome::Unreachable)),
        !(step matches Ok(Step::AwaitStateDiff(_))),
{
}

/// A transaction whose trace reaches no tracked pool ends without an
/// action and with nothing routed to an analysis.
pub proof fn lemma_untouched_is_not_classified(
    pools: ManagerView,
    candidate: CandidateView,
    addresses: Seq<Address>,
    outcome: Outcome,
)
    requires
        is_final_outcome(pools, candidate, Ok(addresses), outcome),
        !touches_tracked_pool(pools.pools, addresses.to_set()),
    ensures
        !(outcome is Classified),
{
}

/// A transaction within reach whose trace reaches a tracked
/// constant-product pool and a tracked concentrated-liquidity pool has
/// both routed, each to the analysis of its own variant.
pub proof fn lemma_both_variants_are_routed(
    pools: ManagerView,
    candidate: CandidateView,
    addresses: Seq<Address>,
    outcome: Outcome,
    first: ConstantProductPool,
    second: ConcentratedLiquidityPool,
)
    requires
        is_final_outcome(pools, candidate, Ok(addresses), outcome),
        candidate.tx.window.admits(candidate.target),
        pools.synced,
        addresses.contains(first.address),
        addresses.contains(second.address),
        pools.pools.contains_pair(first.address, Pool::ConstantProduct(first)),
        pools.pools.contains_pair(second.address, Pool::ConcentratedLiquidity(second)),
    ensures
        outcome matches Outcome::Classified(routes) && routes.constant_product@.contains(first)
            && routes.concentrated_liquidity@.contains(second),
{
    let touched = addresses.to_set();
    assert(touched.contains(first.address) && pools.pools.dom().contains(first.address));
    let selected = touched_pools(pools.pools, touched);
    lemma_routing_is_complete(selected);
}

/// The views of a trace's addresses, where it came back.
pub open spec fn trace_view(traced: Result<StateDiff, TraceFailure>) -> Result<
    Seq<Address>,
    TraceFailure,
> {
    match traced {
        Ok(diff) => Ok(diff@),
        Err(failure) => Err(failure),
    }
}

/// The strategy: a pool manager, a block tracker, and the configuration
/// and client it was made with.
pub struct SandoBot<M> {
    /// Block from which pools are discovered.
    sando_inception_block: u64,
    /// Contract that the strategy trades through.
    sando_contract: Address,
    /// Client for the chain; the strategy only keeps it for its caller.
    provider: Arc<M>,
    /// Keeps track of the pools.
    pool_manager: PoolStateManager,
    /// Keeps track of the head.
    block_manager: BlockStateTracker,
}

impl<M> View for SandoBot<M> {
    type V = BotView<M>;

    closed spec fn view(&self) -> BotView<M> {
        BotView {
            provider: self.provider,
            config: StratConfig {
                sando_address: self.sando_contract,
                sando_inception_block: self.sando_inception_block,
            },
            pools: self.pool_manager@,
            chain: self.block_manager@,
        }
    }
}

impl<M> SandoBot<M> {
    /// The pool manager is in order.
    pub closed spec fn wf(&self) -> bool {
        self.pool_manager.wf()
    }

    /// A strategy that has seen nothing yet: no pool, no head.
    pub fn new(client: Arc<M>, config: StratConfig) -> (bot: Self)
        ensures
            bot.wf(),
            bot@ == (BotView {
                provider: client,
                config,
                pools: ManagerView { pools: Map::empty(), synced: false },
                chain: None,
            }),
    {
        Self {
            sando_contract: config.sando_address,
            sando_inception_block: config.sando_inception_block,
            pool_manager: PoolStateManager::new(),
            provider: client,
            block_manager: BlockStateTracker::new(),
        }
    }

    /// The client that the strategy was made with.
    pub fn provider(&self) -> (client: &Arc<M>)
        ensures
            *client == self@.provider,
    {
        &self.provider
    }

    /// The contract that the strategy trades through.
    pub fn sando_contract(&self) -> (address: Address)
        ensures
            address == self@.config.sando_address,
    {
        self.sando_contract
    }

    /// The block from which pools are discovered.
    pub fn sando_inception_block(&self) -> (number: u64)
        ensures
            number == self@.config.sando_inception_block,
    {
        self.sando_inception_block
    }

    /// The pool manager, for queries.
    pub fn pool_manager(&self) -> (manager: &PoolStateManager)
        requires
            self.wf(),
        ensures
            manager.wf(),
            manager@ == self@.pools,
    {
        &self.pool_manager
    }

    /// The block tracker, for queries.
    pub fn block_manager(&self) -> (tracker: &BlockStateTracker)
        ensures
            tracker@ == self@.chain,
    {
        &self.block_manager
    }

    /// The one-time setup, from what the caller discovered and fetched:
    /// the pools of each variant and the current head, each `None` where
    /// getting it failed. With all three at hand the registry is filled and
    /// the tracker set up. With any of them missing nothing changes at all,
    /// and the error names the first that is missing.
    pub fn sync_state(
        &mut self,
        constant_product: Option<Vec<ConstantProductPool>>,
        concentrated_liquidity: Option<Vec<ConcentratedLiquidityPool>>,
        head: Option<ChainHead>,
    ) -> (done: Result<(), SyncError>)
        requires
            old(self).wf(),
        ensures
            final(self).wf(),
            match (constant_product, concentrated_liquidity, head) {
                (Some(first), Some(second), Some(head)) => done is Ok && final(self)@ == (BotView {
                    pools: ManagerView {
                        pools: load(old(self)@.pools.pools, discovered(first@, second@)),
                        synced: true,
                    },
                    chain: Some(Tracking { head, activation_block: head.number }),
                    ..old(self)@
                }),
                (None, _, _) => done == Err::<(), SyncError>(
                    SyncError::Pools(PoolSyncError::DiscoveryFailed(PoolVariant::ConstantProduct)),
                ) && final(self)@ == old(self)@,
                (Some(_), None, _) => done == Err::<(), SyncError>(
                    SyncError::Pools(
                        PoolSyncError::DiscoveryFailed(PoolVariant::ConcentratedLiquidity),
                    ),
                ) && final(self)@ == old(self)@,
                (Some(_), Some(_), None) => done == Err::<(), SyncError>(
                    SyncError::Head(SetupError::HeadUnavailable),
                ) && final(self)@ == old(self)@,
            },
    {
        if constant_product.is_none() {
            return Err(
                SyncError::Pools(PoolSyncError::DiscoveryFailed(PoolVariant::ConstantProduct)),
            );
        }
        if concentrated_liquidity.is_none() {
            return Err(
                SyncError::Pools(PoolSyncError::DiscoveryFailed(PoolVariant::ConcentratedLiquidity)),
            );
        }
        if head.is_none() {
            return Err(SyncError::Head(SetupError::HeadUnavailable));
        }
        match self.pool_manager.sync_all_pools(constant_product, concentrated_liquidity) {
            Ok(()) => {},
            Err(error) => {
                return Err(SyncError::Pools(error));
            },
        }
        match self.block_manager.setup(head) {
            Ok(()) => Ok(()),
            Err(error) => Err(SyncError::Head(error)),
        }
    }

    /// Takes one event. A block goes to the tracker: applied, it ends the
    /// event; refused, it is the error, on which the caller has to stop,
    /// and nothing has changed. A transaction goes through the first stage
    /// and changes nothing.
    pub fn process_event(&mut self, event: Event) -> (step: Result<Step, BlockError>)
        requires
            old(self).wf(),
        ensures
            final(self).wf(),
            match event {
                Event::NewBlock(block) => match update_verdict(old(self)@.chain, block) {
                    Ok(tracking) => {
                        &&& step matches Ok(Step::Finished(Outcome::BlockApplied))
                        &&& final(self)@ == (BotView { chain: Some(tracking), ..old(self)@ })
                    },
                    Err(reason) => {
                        &&& step matches Err(error)
                        &&& error == reason
                        &&& final(self)@ == old(self)@
                    },
                },
                Event::NewTransaction(tx) => {
                    &&& is_first_step(old(self)@.chain, tx, step)
                    &&& final(self)@ == old(self)@
                },
            },
    {
        match event {
            Event::NewBlock(block) => match self.process_new_block(block) {
                Ok(()) => Ok(Step::Finished(Outcome::BlockApplied)),
                Err(error) => Err(error),
            },
            Event::NewTransaction(tx) => self.process_new_tx(tx),
        }
    }

    /// Makes `block` the head if it is above the head. Otherwise nothing
    /// changes and the reason comes back.
    pub fn process_new_block(&mut self, block: ChainHead) -> (done: Result<(), BlockError>)
        requires
            old(self).wf(),
        ensures
            final(self).wf(),
            match update_verdict(old(self)@.chain, block) {
                Ok(tracking) => done is Ok && final(self)@ == (BotView {
                    chain: Some(tracking),
                    ..old(self)@
                }),
                Err(reason) => done == Err::<(), BlockError>(reason) && final(self)@ == old(
                    self,
                )@,
            },
    {
        self.block_manager.update(block)
    }

    /// The first stage for a pending transaction: whether its own window
    /// lets it land in the block after the head. Where it does not, the
    /// event ends here and nothing is to be traced.
    pub fn process_new_tx(&self, tx: Transaction) -> (step: Result<Step, BlockError>)
        requires
            self.wf(),
        ensures
            is_first_step(self@.chain, tx, step),
    {
        let target = match self.block_manager.next_block_constraints() {
            Some(target) => target,
            None => {
                return Err(BlockError::NotSetUp);
            },
        };
        let candidate = VictimCandidate::new(tx, target);
        if !candidate.can_include_in_target_block() {
            return Ok(Step::Finished(Outcome::Unreachable));
        }
        Ok(Step::AwaitStateDiff(candidate))
    }

    /// The stages after the trace: takes the traced state diff, or the
    /// failure to get it, looks up the touched pools and routes them.
    pub fn resume_new_tx(
        &self,
        candidate: VictimCandidate,
        traced: Result<StateDiff, TraceFailure>,
    ) -> (outcome: Outcome)
        requires
            self.wf(),
            candidate.wf(),
            traced matches Ok(diff) ==> diff.wf(),
        ensures
            is_final_outcome(self@.pools, candidate@, trace_view(traced), outcome),
    {
        let mut candidate = candidate;
        if !candidate.can_include_in_target_block() {
            return Outcome::Unreachable;
        }
        match candidate.fill_state_diffs(traced) {
            Ok(()) => {},
            Err(failure) => {
                return Outcome::StateDiffFailed(failure);
            },
        }
        let touched = match self.pool_manager.get_touched_pools(&candidate) {
            Ok(touched) => touched,
            Err(error) => {
                return Outcome::PoolLookupFailed(error);
            },
        };
        if touched.is_empty() {
            return Outcome::NoTouchedPools;
        }
        Outcome::Classified(route_pools(&touched))
    }
}

} // verus!
