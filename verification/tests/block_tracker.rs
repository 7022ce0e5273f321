use strategy::block::{
    BlockError, BlockStateTracker, ChainHead, SetupError, TargetBlockConstraints, Tracking,
    BLOCK_INTERVAL_SECS,
};
use strategy::primitives::U256;

fn head(number: u64, timestamp: u64, base_fee: u128) -> ChainHead {
    ChainHead { number, timestamp, base_fee: U256 { hi: 0, lo: base_fee } }
}

fn tracker_at(number: u64, timestamp: u64) -> BlockStateTracker {
    let mut tracker = BlockStateTracker::new();
    assert_eq!(tracker.setup(Some(head(number, timestamp, 7))), Ok(()));
    tracker
}

#[test]
fn new_tracker_has_no_head_and_no_constraints() {
    let tracker = BlockStateTracker::new();
    assert_eq!(tracker.tracking(), None);
    assert_eq!(tracker.next_block_constraints(), None);
}

#[test]
fn setup_takes_the_fetched_head_and_its_number_as_activation_block() {
    let mut tracker = BlockStateTracker::new();
    let fetched = head(100, 1_700_000_000, 30);
    assert_eq!(tracker.setup(Some(fetched)), Ok(()));
    assert_eq!(tracker.tracking(), Some(Tracking { head: fetched, activation_block: 100 }));
}

#[test]
fn setup_without_a_head_fails_and_changes_nothing() {
    let mut tracker = BlockStateTracker::new();
    assert_eq!(tracker.setup(None), Err(SetupError::HeadUnavailable));
    assert_eq!(tracker.tracking(), None);

    let mut tracker = tracker_at(5, 60);
    let before = tracker.tracking();
    assert_eq!(tracker.setup(None), Err(SetupError::HeadUnavailable));
    assert_eq!(tracker.tracking(), before);
}

#[test]
fn update_before_setup_is_refused() {
    let mut tracker = BlockStateTracker::new();
    assert_eq!(tracker.update(head(1, 12, 1)), Err(BlockError::NotSetUp));
    assert_eq!(tracker.tracking(), None);
}

#[test]
fn next_block_is_one_number_and_one_interval_after_the_head() {
    assert_eq!(BLOCK_INTERVAL_SECS, 12);
    let tracker = tracker_at(100, 1_000);
    assert_eq!(
        tracker.next_block_constraints(),
        Some(TargetBlockConstraints { number: 101, timestamp: 1_012 })
    );
    assert_eq!(
        head(0, 0, 0).next_block(),
        TargetBlockConstraints { number: 1, timestamp: 12 }
    );
}

#[test]
fn next_block_of_the_largest_head_does_not_wrap() {
    let tracker = tracker_at(u64::MAX, u64::MAX);
    assert_eq!(
        tracker.next_block_constraints(),
        Some(TargetBlockConstraints {
            number: 18_446_744_073_709_551_616,
            timestamp: 18_446_744_073_709_551_627,
        })
    );
}

#[test]
fn update_replaces_number_timestamp_and_base_fee_together() {
    let mut tracker = tracker_at(100, 1_000);
    let block = head(101, 1_013, 99);
    assert_eq!(tracker.update(block), Ok(()));
    assert_eq!(tracker.tracking(), Some(Tracking { head: block, activation_block: 100 }));
}

#[test]
fn constraints_follow_each_of_rising_updates() {
    let mut tracker = tracker_at(100, 1_000);
    let blocks = [head(101, 1_012, 1), head(102, 1_024, 2), head(105, 1_060, 3), head(106, 1_072, 4)];
    for block in blocks {
        assert_eq!(tracker.update(block), Ok(()));
        assert_eq!(tracker.next_block_constraints(), Some(block.next_block()));
        assert_eq!(
            tracker.next_block_constraints(),
            Some(TargetBlockConstraints {
                number: block.number as u128 + 1,
                timestamp: block.timestamp as u128 + 12,
            })
        );
        assert_eq!(tracker.tracking().map(|state| state.head), Some(block));
    }
    assert_eq!(tracker.tracking().map(|state| state.activation_block), Some(100));
}

#[test]
fn stale_block_is_refused_and_the_head_stays() {
    let mut tracker = tracker_at(100, 1_000);
    let before = tracker.tracking();

    assert_eq!(tracker.update(head(100, 2_000, 5)), Err(BlockError::Stale));
    assert_eq!(tracker.tracking(), before);

    assert_eq!(tracker.update(head(99, 2_000, 5)), Err(BlockError::Stale));
    assert_eq!(tracker.tracking(), before);

    assert_eq!(tracker.update(head(0, 0, 0)), Err(BlockError::Stale));
    assert_eq!(tracker.tracking(), before);
    assert_eq!(
        tracker.next_block_constraints(),
        Some(TargetBlockConstraints { number: 101, timestamp: 1_012 })
    );
}

#[test]
fn refused_block_between_accepted_ones_leaves_no_trace() {
    let mut tracker = tracker_at(10, 0);
    assert_eq!(tracker.update(head(11, 12, 1)), Ok(()));
    assert_eq!(tracker.update(head(11, 99, 9)), Err(BlockError::Stale));
    assert_eq!(tracker.update(head(12, 24, 2)), Ok(()));
    assert_eq!(tracker.tracking(), Some(Tracking { head: head(12, 24, 2), activation_block: 10 }));
}

#[test]
fn setup_again_takes_the_new_head_as_activation_block() {
    let mut tracker = tracker_at(10, 0);
    assert_eq!(tracker.update(head(11, 12, 1)), Ok(()));
    assert_eq!(tracker.setup(Some(head(50, 600, 3))), Ok(()));
    assert_eq!(tracker.tracking(), Some(Tracking { head: head(50, 600, 3), activation_block: 50 }));
}
