//! The chain head and the constraints it puts on the next block.

use crate::primitives::U256;
use vstd::prelude::*;

verus! {

/// Seconds between one block and the next.
pub const BLOCK_INTERVAL_SECS: u64 = 12;

/// The most recently observed block.
#[derive(Clone, Copy, Debug, PartialEq, Eq, Structural)]
pub struct ChainHead {
    pub number: u64,
    pub timestamp: u64,
    pub base_fee: U256,
}

/// The block that a pending transaction has to fit into: the one right after
/// the head. Both fields are wide enough for the successor of any head.
#[derive(Clone, Copy, Debug, PartialEq, Eq, Structural)]
pub struct TargetBlockConstraints {
    pub number: u128,
    pub timestamp: u128,
}

impl ChainHead {
    /// The constraints of the block after this one.
    pub open spec fn target(self) -> TargetBlockConstraints {
        TargetBlockConstraints {
            number: (self.number + 1) as u128,
            timestamp: (self.timestamp + BLOCK_INTERVAL_SECS) as u128,
        }
    }

    /// The constraints of the block after this one.
    pub fn next_block(&self) -> (target: TargetBlockConstraints)
        ensures
            target == self.target(),
    {
        TargetBlockConstraints {
            number: self.number as u128 + 1,
            timestamp: self.timestamp as u128 + BLOCK_INTERVAL_SECS as u128,
        }
    }
}

/// What the tracker holds once it is set up.
#[derive(Clone, Copy, Debug, PartialEq, Eq, Structural)]
pub struct Tracking {
    /// The current head.
    pub head: ChainHead,
    /// The number of the head at the time of setup.
    pub activation_block: u64,
}

/// Why a block update was refused.
#[derive(Clone, Copy, Debug, PartialEq, Eq, Structural)]
pub enum BlockError {
    /// The tracker has no head yet.
    NotSetUp,
    /// The block's number is not above the head's.
    Stale,
}

/// Why the tracker could not be set up.
#[derive(Clone, Copy, Debug, PartialEq, Eq, Structural)]
pub enum SetupError {
    /// The current head could not be fetched.
    HeadUnavailable,
}

/// What an update does to the tracked state: the new state, or the reason
/// for which the state stays as it is.
pub open spec fn update_verdict(state: Option<Tracking>, block: ChainHead) -> Result<
    Tracking,
    BlockError,
> {
    match state {
        None => Err(BlockError::NotSetUp),
        Some(tracking) => if block.number <= tracking.head.number {
            Err(BlockError::Stale)
        } else {
            Ok(Tracking { head: block, activation_block: tracking.activation_block })
        },
    }
}

/// The state after offering `blocks` one after the other; a refused block
/// leaves the state as it was.
pub open spec fn after_updates(state: Option<Tracking>, blocks: Seq<ChainHead>) -> Option<Tracking>
    decreases blocks.len(),
{
    if blocks.len() == 0 {
        state
    } else {
        let prior = after_updates(state, blocks.drop_last());
        match update_verdict(prior, blocks.last()) {
            Ok(tracking) => Some(tracking),
            Err(_) => prior,
        }
    }
}

/// The constraints that a state yields.
pub open spec fn constraints_of(state: Option<Tracking>) -> Option<TargetBlockConstraints> {
    match state {
        Some(tracking) => Some(tracking.head.target()),
        None => None,
    }
}

/// After a run of updates whose numbers rise strictly above the head, the
/// head is the last block of the run, all of it, and the constraints are
/// those of that block.
pub proof fn lemma_head_follows_updates(state: Tracking, blocks: Seq<ChainHead>)
    requires
        blocks.len() > 0,
        state.head.number < blocks[0].number,
        forall|i: int, j: int|
            0 <= i < j < blocks.len() ==> (#[trigger] blocks[i]).number < (
            #[trigger] blocks[j]).number,
    ensures
        after_updates(Some(state), blocks) == Some(
            Tracking { head: blocks.last(), activation_block: state.activation_block },
        ),
        constraints_of(after_updates(Some(state), blocks)) == Some(blocks.last().target()),
    decreases blocks.len(),
{
    let front = blocks.drop_last();
    if front.len() == 0 {
        assert(after_updates(Some(state), front) == Some(state));
    } else {
        assert forall|i: int, j: int| 0 <= i < j < front.len() implies (#[trigger] front[i]).number
            < (#[trigger] front[j]).number by {
            assert(front[i] == blocks[i] && front[j] == blocks[j]);
        }
        lemma_head_follows_updates(state, front);
    }
}

/// Whatever is offered, the head's number never goes down, the activation
/// block stays, and a tracker that was set up stays set up.
pub proof fn lemma_head_never_goes_back(state: Tracking, blocks: Seq<ChainHead>)
    ensures
        after_updates(Some(state), blocks) is Some,
        after_updates(Some(state), blocks)->Some_0.head.number >= state.head.number,
        after_updates(Some(state), blocks)->Some_0.activation_block == state.activation_block,
    decreases blocks.len(),
{
    if blocks.len() > 0 {
        lemma_head_never_goes_back(state, blocks.drop_last());
    }
}

/// Keeps the chain head; the only place where it changes.
#[derive(Clone, Copy, Debug, PartialEq, Eq)]
pub struct BlockStateTracker {
    state: Option<Tracking>,
}

impl View for BlockStateTracker {
    type V = Option<Tracking>;

    /// `None` until the tracker is set up.
    closed spec fn view(&self) -> Option<Tracking> {
        self.state
    }
}

impl BlockStateTracker {
    /// A tracker that is not set up.
    pub fn new() -> (tracker: BlockStateTracker)
        ensures
            tracker@ is None,
    {
        BlockStateTracker { state: None }
    }

    /// Takes `fetched`, the current head as the chain client gave it, as the
    /// head and its number as the activation block. Where the fetch failed
    /// (`None`) the tracker stays as it is.
    pub fn setup(&mut self, fetched: Option<ChainHead>) -> (done: Result<(), SetupError>)
        ensures
            match fetched {
                Some(head) => done is Ok && final(self)@ == Some(
                    Tracking { head, activation_block: head.number },
                ),
                None => done == Err::<(), SetupError>(SetupError::HeadUnavailable) && final(self)@
                    == old(self)@,
            },
    {
        match fetched {
            Some(head) => {
                self.state = Some(Tracking { head, activation_block: head.number });
                Ok(())
            },
            None => Err(SetupError::HeadUnavailable),
        }
    }

    /// Replaces the head by `block`, all three fields at once, if the
    /// tracker is set up and `block` is above the head. Otherwise nothing
    /// changes and the reason comes back.
    pub fn update(&mut self, block: ChainHead) -> (done: Result<(), BlockError>)
        ensures
            match update_verdict(old(self)@, block) {
                Ok(tracking) => done is Ok && final(self)@ == Some(tracking),
                Err(reason) => done == Err::<(), BlockError>(reason) && final(self)@ == old(
                    self,
                )@,
            },
    {
        match self.state {
            None => Err(BlockError::NotSetUp),
            Some(tracking) => {
                if block.number <= tracking.head.number {
                    Err(BlockError::Stale)
                } else {
                    self.state = Some(
                        Tracking { head: block, activation_block: tracking.activation_block },
                    );
                    Ok(())
                }
            },
        }
    }

    /// The head and the activation block, once set up.
    pub fn tracking(&self) -> (state: Option<Tracking>)
        ensures
            state == self@,
    {
        self.state
    }

    /// The constraints of the block after the head; `None` before setup.
    pub fn next_block_constraints(&self) -> (target: Option<TargetBlockConstraints>)
        ensures
            target == constraints_of(self@),
    {
        match self.state {
            Some(tracking) => Some(tracking.head.next_block()),
            None => None,
        }
    }
}

} // verus!
