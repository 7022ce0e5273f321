use std::sync::Arc;
use strategy::block::{BlockError, ChainHead, SetupError, TargetBlockConstraints, Tracking};
use strategy::bot::{Event, Outcome, SandoBot, Step, StratConfig, SyncError};
use strategy::pool::{ConcentratedLiquidityPool, ConstantProductPool, Pool, PoolVariant, Routes};
use strategy::primitives::{Address, TxHash, U256};
use strategy::pool_manager::{LookupError, PoolSyncError};
use strategy::victim::{InclusionWindow, StateDiff, TraceFailure, Transaction, VictimCandidate};

fn addr(lo: u128) -> Address {
    Address { hi: 0, lo }
}

fn head(number: u64, timestamp: u64) -> ChainHead {
    ChainHead { number, timestamp, base_fee: U256 { hi: 0, lo: 1_000_000_000 } }
}

fn cp(address: u128) -> ConstantProductPool {
    ConstantProductPool {
        address: addr(address),
        token_a: addr(1),
        token_b: addr(2),
        reserve_0: 1_000,
        reserve_1: 2_000,
        fee: 300,
    }
}

fn cl(address: u128) -> ConcentratedLiquidityPool {
    ConcentratedLiquidityPool {
        address: addr(address),
        token_a: addr(1),
        token_b: addr(3),
        liquidity: 9_000,
        sqrt_price: U256 { hi: 0, lo: 1 << 96 },
        tick: 12,
        fee: 500,
    }
}

fn config() -> StratConfig {
    StratConfig { sando_address: addr(0x5A4D0), sando_inception_block: 90 }
}

fn tx(max_block: Option<u64>) -> Transaction {
    Transaction {
        hash: TxHash { hi: 3, lo: 4 },
        from: addr(0xF00),
        max_fee_per_gas: Some(U256 { hi: 0, lo: 2_000_000_000 }),
        max_priority_fee_per_gas: Some(U256 { hi: 0, lo: 1 }),
        window: InclusionWindow { min_block: None, max_block, min_timestamp: None, max_timestamp: None },
    }
}

fn diff_of(addresses: &[u128]) -> StateDiff {
    let mut diff = StateDiff::new();
    for address in addresses {
        diff.touch(addr(*address));
    }
    diff
}

/// A strategy synced at block 100 with a constant-product pool at 0xA and
/// a concentrated-liquidity pool at 0xB.
fn synced_bot() -> SandoBot<()> {
    let mut bot = SandoBot::new(Arc::new(()), config());
    assert_eq!(
        bot.sync_state(Some(vec![cp(0xA)]), Some(vec![cl(0xB)]), Some(head(100, 1_000))),
        Ok(())
    );
    bot
}

/// Stands for the collaborators: counts what the strategy asks of them.
struct Collaborators {
    trace: Option<Result<Vec<u128>, TraceFailure>>,
    simulations: usize,
    constant_product_calls: Vec<ConstantProductPool>,
    concentrated_liquidity_calls: Vec<ConcentratedLiquidityPool>,
}

impl Collaborators {
    fn answering(trace: Result<Vec<u128>, TraceFailure>) -> Self {
        Collaborators {
            trace: Some(trace),
            simulations: 0,
            constant_product_calls: vec![],
            concentrated_liquidity_calls: vec![],
        }
    }

    fn classifications(&self) -> usize {
        self.constant_product_calls.len() + self.concentrated_liquidity_calls.len()
    }
}

/// Takes one event through the strategy as its caller does, and reports
/// how the event ended.
fn drive(
    bot: &mut SandoBot<()>,
    event: Event,
    collaborators: &mut Collaborators,
) -> Result<String, BlockError> {
    let outcome = match bot.process_event(event)? {
        Step::Finished(outcome) => outcome,
        Step::AwaitStateDiff(candidate) => {
            collaborators.simulations += 1;
            let traced = match collaborators.trace.take().expect("one trace per event") {
                Ok(addresses) => Ok(diff_of(&addresses)),
                Err(failure) => Err(failure),
            };
            bot.resume_new_tx(candidate, traced)
        }
    };
    let label = format!("{:?}", outcome);
    if let Outcome::Classified(routes) = outcome {
        for pool in routes.constant_product {
            collaborators.constant_product_calls.push(pool);
        }
        for pool in routes.concentrated_liquidity {
            collaborators.concentrated_liquidity_calls.push(pool);
        }
    }
    Ok(label)
}

#[test]
fn new_bot_keeps_its_client_and_configuration_and_has_seen_nothing() {
    let client = Arc::new(41u8);
    let bot = SandoBot::new(client.clone(), config());
    assert!(Arc::ptr_eq(bot.provider(), &client));
    assert_eq!(bot.sando_contract(), addr(0x5A4D0));
    assert_eq!(bot.sando_inception_block(), 90);
    assert!(!bot.pool_manager().is_synced());
    assert_eq!(bot.block_manager().tracking(), None);
}

#[test]
fn sync_state_fills_the_registry_and_sets_up_the_tracker() {
    let bot = synced_bot();
    assert!(bot.pool_manager().is_synced());
    assert_eq!(bot.pool_manager().pool_at(addr(0xA)), Some(Pool::ConstantProduct(cp(0xA))));
    assert_eq!(bot.pool_manager().pool_at(addr(0xB)), Some(Pool::ConcentratedLiquidity(cl(0xB))));
    assert_eq!(
        bot.block_manager().tracking(),
        Some(Tracking { head: head(100, 1_000), activation_block: 100 })
    );
    assert_eq!(bot.sando_contract(), addr(0x5A4D0));
    assert_eq!(bot.sando_inception_block(), 90);
}

#[test]
fn sync_state_with_anything_missing_changes_nothing() {
    let mut bot = SandoBot::new(Arc::new(()), config());
    assert_eq!(
        bot.sync_state(None, Some(vec![cl(0xB)]), Some(head(100, 1_000))),
        Err(SyncError::Pools(PoolSyncError::DiscoveryFailed(PoolVariant::ConstantProduct)))
    );
    assert!(!bot.pool_manager().is_synced());
    assert_eq!(bot.block_manager().tracking(), None);

    assert_eq!(
        bot.sync_state(Some(vec![cp(0xA)]), None, Some(head(100, 1_000))),
        Err(SyncError::Pools(PoolSyncError::DiscoveryFailed(PoolVariant::ConcentratedLiquidity)))
    );
    assert!(!bot.pool_manager().is_synced());
    assert_eq!(bot.pool_manager().pool_at(addr(0xA)), None);
    assert_eq!(bot.block_manager().tracking(), None);

    assert_eq!(
        bot.sync_state(Some(vec![cp(0xA)]), Some(vec![cl(0xB)]), None),
        Err(SyncError::Head(SetupError::HeadUnavailable))
    );
    assert!(!bot.pool_manager().is_synced());
    assert_eq!(bot.pool_manager().pool_at(addr(0xA)), None);
    assert_eq!(bot.block_manager().tracking(), None);
}

#[test]
fn sync_state_names_the_first_thing_that_is_missing() {
    let mut bot = SandoBot::new(Arc::new(()), config());
    assert_eq!(
        bot.sync_state(None, None, None),
        Err(SyncError::Pools(PoolSyncError::DiscoveryFailed(PoolVariant::ConstantProduct)))
    );
    assert_eq!(
        bot.sync_state(Some(vec![]), None, None),
        Err(SyncError::Pools(PoolSyncError::DiscoveryFailed(PoolVariant::ConcentratedLiquidity)))
    );
}

#[test]
fn block_event_updates_the_head_and_ends_without_a_trace() {
    let mut bot = synced_bot();
    let mut collaborators = Collaborators::answering(Ok(vec![0xA]));
    let ended = drive(&mut bot, Event::NewBlock(head(101, 1_012)), &mut collaborators);
    assert_eq!(ended, Ok("BlockApplied".to_string()));
    assert_eq!(collaborators.simulations, 0);
    assert_eq!(collaborators.classifications(), 0);
    assert_eq!(
        bot.block_manager().tracking(),
        Some(Tracking { head: head(101, 1_012), activation_block: 100 })
    );
    assert_eq!(
        bot.block_manager().next_block_constraints(),
        Some(TargetBlockConstraints { number: 102, timestamp: 1_024 })
    );
}

#[test]
fn block_event_that_is_not_above_the_head_is_fatal_and_changes_nothing() {
    let mut bot = synced_bot();
    assert_eq!(bot.process_event(Event::NewBlock(head(100, 5_000))), Err(BlockError::Stale));
    assert_eq!(bot.process_event(Event::NewBlock(head(42, 5_000))), Err(BlockError::Stale));
    assert_eq!(
        bot.block_manager().tracking(),
        Some(Tracking { head: head(100, 1_000), activation_block: 100 })
    );
    assert_eq!(bot.process_new_block(head(100, 1_000)), Err(BlockError::Stale));
    assert_eq!(bot.process_new_block(head(101, 1_012)), Ok(()));
}

#[test]
fn events_before_setup_are_fatal() {
    let mut bot = SandoBot::new(Arc::new(()), config());
    assert_eq!(bot.process_event(Event::NewBlock(head(1, 12))), Err(BlockError::NotSetUp));
    assert_eq!(bot.process_event(Event::NewTransaction(tx(None))), Err(BlockError::NotSetUp));
    assert_eq!(bot.process_new_tx(tx(None)), Err(BlockError::NotSetUp));
    assert_eq!(bot.block_manager().tracking(), None);
}

#[test]
fn transaction_out_of_reach_ends_without_a_simulation() {
    let mut bot = synced_bot();
    let mut collaborators = Collaborators::answering(Ok(vec![0xA]));
    let ended = drive(&mut bot, Event::NewTransaction(tx(Some(100))), &mut collaborators);
    assert_eq!(ended, Ok("Unreachable".to_string()));
    assert_eq!(collaborators.simulations, 0);
    assert_eq!(collaborators.classifications(), 0);
}

#[test]
fn head_100_and_max_block_100_is_rejected_at_the_first_stage() {
    let mut bot = synced_bot();
    assert_eq!(
        bot.process_event(Event::NewTransaction(tx(Some(100)))),
        Ok(Step::Finished(Outcome::Unreachable))
    );
}

#[test]
fn head_100_and_max_block_101_passes_the_first_stage() {
    let mut bot = synced_bot();
    let pending = tx(Some(101));
    let expected =
        VictimCandidate::new(pending, TargetBlockConstraints { number: 101, timestamp: 1_012 });
    assert_eq!(
        bot.process_event(Event::NewTransaction(pending)),
        Ok(Step::AwaitStateDiff(expected))
    );
}

#[test]
fn first_stage_goes_by_the_head_of_the_last_update() {
    let mut bot = synced_bot();
    let pending = tx(Some(101));
    assert!(matches!(bot.process_new_tx(pending), Ok(Step::AwaitStateDiff(_))));
    assert_eq!(bot.process_new_block(head(101, 1_012)), Ok(()));
    assert_eq!(bot.process_new_tx(pending), Ok(Step::Finished(Outcome::Unreachable)));
}

#[test]
fn transaction_events_change_nothing() {
    let mut bot = synced_bot();
    let _ = bot.process_event(Event::NewTransaction(tx(None)));
    let _ = bot.process_event(Event::NewTransaction(tx(Some(1))));
    assert_eq!(
        bot.block_manager().tracking(),
        Some(Tracking { head: head(100, 1_000), activation_block: 100 })
    );
    assert_eq!(bot.pool_manager().pool_at(addr(0xA)), Some(Pool::ConstantProduct(cp(0xA))));
    assert_eq!(bot.pool_manager().pool_at(addr(0xB)), Some(Pool::ConcentratedLiquidity(cl(0xB))));
}

#[test]
fn failed_trace_drops_the_candidate_as_a_soft_failure() {
    let mut bot = synced_bot();
    let mut collaborators = Collaborators::answering(Err(TraceFailure::TimedOut));
    let ended = drive(&mut bot, Event::NewTransaction(tx(None)), &mut collaborators);
    assert_eq!(ended, Ok("StateDiffFailed(TimedOut)".to_string()));
    assert_eq!(collaborators.simulations, 1);
    assert_eq!(collaborators.classifications(), 0);

    let mut next = Collaborators::answering(Ok(vec![0xA]));
    let ended = drive(&mut bot, Event::NewTransaction(tx(None)), &mut next);
    assert!(ended.is_ok());
    assert_eq!(next.classifications(), 1);
}

#[test]
fn transaction_touching_no_tracked_pool_ends_without_a_classification() {
    let mut bot = synced_bot();
    let mut collaborators = Collaborators::answering(Ok(vec![0xC, 0xD]));
    let ended = drive(&mut bot, Event::NewTransaction(tx(None)), &mut collaborators);
    assert_eq!(ended, Ok("NoTouchedPools".to_string()));
    assert_eq!(collaborators.simulations, 1);
    assert_eq!(collaborators.classifications(), 0);

    let mut empty = Collaborators::answering(Ok(vec![]));
    let ended = drive(&mut bot, Event::NewTransaction(tx(None)), &mut empty);
    assert_eq!(ended, Ok("NoTouchedPools".to_string()));
    assert_eq!(empty.classifications(), 0);
}

#[test]
fn transaction_touching_both_variants_is_routed_to_both() {
    let mut bot = synced_bot();
    let mut collaborators = Collaborators::answering(Ok(vec![0xB, 0xFF, 0xA]));
    let ended = drive(&mut bot, Event::NewTransaction(tx(None)), &mut collaborators);
    assert!(ended.is_ok());
    assert_eq!(collaborators.simulations, 1);
    assert_eq!(collaborators.constant_product_calls, vec![cp(0xA)]);
    assert_eq!(collaborators.concentrated_liquidity_calls, vec![cl(0xB)]);
}

#[test]
fn resume_routes_the_touched_pools() {
    let bot = synced_bot();
    let candidate =
        VictimCandidate::new(tx(None), TargetBlockConstraints { number: 101, timestamp: 1_012 });
    assert_eq!(
        bot.resume_new_tx(candidate, Ok(diff_of(&[0xA, 0xB]))),
        Outcome::Classified(Routes {
            constant_product: vec![cp(0xA)],
            concentrated_liquidity: vec![cl(0xB)],
        })
    );
    let candidate =
        VictimCandidate::new(tx(None), TargetBlockConstraints { number: 101, timestamp: 1_012 });
    assert_eq!(
        bot.resume_new_tx(candidate, Ok(diff_of(&[0xB]))),
        Outcome::Classified(Routes { constant_product: vec![], concentrated_liquidity: vec![cl(0xB)] })
    );
}

#[test]
fn resume_of_a_candidate_out_of_reach_ends_before_the_trace_is_read() {
    let bot = synced_bot();
    let candidate =
        VictimCandidate::new(tx(Some(100)), TargetBlockConstraints { number: 101, timestamp: 1_012 });
    assert_eq!(bot.resume_new_tx(candidate, Ok(diff_of(&[0xA]))), Outcome::Unreachable);
    let candidate =
        VictimCandidate::new(tx(Some(100)), TargetBlockConstraints { number: 101, timestamp: 1_012 });
    assert_eq!(
        bot.resume_new_tx(candidate, Err(TraceFailure::CallFailed)),
        Outcome::Unreachable
    );
}

#[test]
fn resume_without_a_filled_registry_is_a_soft_failure() {
    let bot = SandoBot::new(Arc::new(()), config());
    let candidate =
        VictimCandidate::new(tx(None), TargetBlockConstraints { number: 101, timestamp: 1_012 });
    assert_eq!(
        bot.resume_new_tx(candidate, Ok(diff_of(&[0xA]))),
        Outcome::PoolLookupFailed(LookupError::RegistryUnavailable)
    );
    let candidate =
        VictimCandidate::new(tx(None), TargetBlockConstraints { number: 101, timestamp: 1_012 });
    assert_eq!(
        bot.resume_new_tx(candidate, Err(TraceFailure::NoStateDiff)),
        Outcome::StateDiffFailed(TraceFailure::NoStateDiff)
    );
}

#[test]
fn outcomes_tell_failures_from_empty_results() {
    let soft = [
        Outcome::StateDiffFailed(TraceFailure::CallFailed),
        Outcome::PoolLookupFailed(LookupError::RegistryUnavailable),
    ];
    for outcome in soft {
        assert!(outcome.is_soft_failure());
        assert!(!outcome.is_expected_empty());
    }
    for outcome in [Outcome::Unreachable, Outcome::NoTouchedPools] {
        assert!(outcome.is_expected_empty());
        assert!(!outcome.is_soft_failure());
    }
    let neither = [
        Outcome::BlockApplied,
        Outcome::Classified(Routes { constant_product: vec![cp(1)], concentrated_liquidity: vec![] }),
    ];
    for outcome in neither {
        assert!(!outcome.is_soft_failure());
        assert!(!outcome.is_expected_empty());
    }
}

#[test]
fn sync_state_twice_with_the_same_discovery_gives_the_same_registry() {
    let mut bot = synced_bot();
    assert_eq!(
        bot.sync_state(Some(vec![cp(0xA)]), Some(vec![cl(0xB)]), Some(head(100, 1_000))),
        Ok(())
    );
    let once = synced_bot();
    assert_eq!(bot.pool_manager(), once.pool_manager());
    assert_eq!(bot.block_manager(), once.block_manager());
}
