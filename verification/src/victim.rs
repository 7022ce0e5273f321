//! A pending transaction on its way through the pipeline: its declared
//! inclusion window, the block it is aimed at, and the state diff once it
//! has been traced.

use crate::address_set::{strictly_ascending, AddressSet};
use crate::block::TargetBlockConstraints;
use crate::primitives::{Address, TxHash, U256};
use vstd::prelude::*;

verus! {

/// The blocks that a transaction declares itself valid for. A bound that is
/// `None` is not declared; declared bounds are inclusive.
#[derive(Clone, Copy, Debug, PartialEq, Eq)]
pub struct InclusionWindow {
    pub min_block: Option<u64>,
    pub max_block: Option<u64>,
    pub min_timestamp: Option<u64>,
    pub max_timestamp: Option<u64>,
}

impl InclusionWindow {
    /// Whether a block with the number and timestamp of `target` lies
    /// within every declared bound.
    pub open spec fn admits(self, target: TargetBlockConstraints) -> bool {
        &&& self.min_block matches Some(bound) ==> bound <= target.number
        &&& self.max_block matches Some(bound) ==> target.number <= bound
        &&& self.min_timestamp matches Some(bound) ==> bound <= target.timestamp
        &&& self.max_timestamp matches Some(bound) ==> target.timestamp <= bound
    }

    /// The window that declares no bound.
    pub fn unbounded() -> (window: InclusionWindow)
        ensures
            window == (InclusionWindow {
                min_block: None,
                max_block: None,
                min_timestamp: None,
                max_timestamp: None,
            }),
            forall|target: TargetBlockConstraints| window.admits(target),
    {
        InclusionWindow { min_block: None, max_block: None, min_timestamp: None, max_timestamp: None }
    }

    /// Whether a block with the number and timestamp of `target` lies
    /// within every declared bound.
    pub fn contains(&self, target: &TargetBlockConstraints) -> (inside: bool)
        ensures
            inside == self.admits(*target),
    {
        let after_min_block = match self.min_block {
            Some(bound) => bound as u128 <= target.number,
            None => true,
        };
        let before_max_block = match self.max_block {
            Some(bound) => target.number <= bound as u128,
            None => true,
        };
        let after_min_timestamp = match self.min_timestamp {
            Some(bound) => bound as u128 <= target.timestamp,
            None => true,
        };
        let before_max_timestamp = match self.max_timestamp {
            Some(bound) => target.timestamp <= bound as u128,
            None => true,
        };
        after_min_block && before_max_block && after_min_timestamp && before_max_timestamp
    }
}

/// A pending transaction, as far as the strategy reads it.
#[derive(Clone, Copy, Debug, PartialEq, Eq)]
pub struct Transaction {
    pub hash: TxHash,
    pub from: Address,
    pub max_fee_per_gas: Option<U256>,
    pub max_priority_fee_per_gas: Option<U256>,
    pub window: InclusionWindow,
}

/// The addresses whose state a traced transaction changes.
#[derive(Debug, PartialEq, Eq)]
pub struct StateDiff {
    touched: AddressSet,
}

impl View for StateDiff {
    type V = Seq<Address>;

    /// The touched addresses in ascending order.
    closed spec fn view(&self) -> Seq<Address> {
        self.touched@
    }
}

impl StateDiff {
    /// The touched addresses are in strictly ascending order.
    pub open spec fn wf(&self) -> bool {
        strictly_ascending(self@)
    }

    /// The diff of a transaction that changes nothing.
    pub fn new() -> (diff: StateDiff)
        ensures
            diff.wf(),
            diff@ == Seq::<Address>::empty(),
    {
        StateDiff { touched: AddressSet::new() }
    }

    /// Records that the state at `address` changes.
    pub fn touch(&mut self, address: Address)
        requires
            old(self).wf(),
        ensures
            final(self).wf(),
            final(self)@.to_set() == old(self)@.to_set().insert(address),
    {
        let _ = self.touched.insert(address);
    }

    /// Whether the state at `address` changes.
    pub fn touches(&self, address: Address) -> (touched: bool)
        requires
            self.wf(),
        ensures
            touched == self@.contains(address),
    {
        self.touched.contains(address)
    }

    /// The number of touched addresses.
    pub fn len(&self) -> (n: usize)
        ensures
            n == self@.len(),
    {
        self.touched.len()
    }

    /// Whether no address is touched.
    pub fn is_empty(&self) -> (empty: bool)
        ensures
            empty == (self@.len() == 0),
    {
        self.touched.is_empty()
    }

    /// The touched address at position `index` of the ascending order.
    pub fn address_at(&self, index: usize) -> (address: Address)
        requires
            index < self@.len(),
        ensures
            address == self@[index as int],
    {
        self.touched.get(index)
    }
}

/// Why a transaction could not be traced.
#[derive(Clone, Copy, Debug, PartialEq, Eq, Structural)]
pub enum TraceFailure {
    /// The call to the node came back with an error.
    CallFailed,
    /// The node answered, but without a state diff.
    NoStateDiff,
    /// The call did not answer in time.
    TimedOut,
}

/// What a candidate is: its transaction, its target and, once traced, the
/// touched addresses in ascending order.
pub struct CandidateView {
    pub tx: Transaction,
    pub target: TargetBlockConstraints,
    pub state_diff: Option<Seq<Address>>,
}

impl CandidateView {
    /// The addresses that the candidate is known to touch: those of its
    /// state diff, none before it is traced.
    pub open spec fn touched(self) -> Set<Address> {
        match self.state_diff {
            Some(addresses) => addresses.to_set(),
            None => Set::empty(),
        }
    }
}

/// One pending transaction together with what the pipeline has derived for
/// it so far.
#[derive(Debug, PartialEq, Eq)]
pub struct VictimCandidate {
    tx: Transaction,
    target: TargetBlockConstraints,
    state_diff: Option<StateDiff>,
    eligible: bool,
}

impl View for VictimCandidate {
    type V = CandidateView;

    closed spec fn view(&self) -> CandidateView {
        CandidateView {
            tx: self.tx,
            target: self.target,
            state_diff: match self.state_diff {
                Some(diff) => Some(diff@),
                None => None,
            },
        }
    }
}

impl VictimCandidate {
    /// The eligibility flag agrees with the window, and the state diff, if
    /// there is one, is in order.
    pub closed spec fn wf(&self) -> bool {
        &&& self.eligible == self.tx.window.admits(self.target)
        &&& self.state_diff matches Some(diff) ==> diff.wf()
    }

    /// A candidate for `tx` aimed at `target`, not yet traced.
    pub fn new(tx: Transaction, target: TargetBlockConstraints) -> (candidate: VictimCandidate)
        ensures
            candidate.wf(),
            candidate@ == (CandidateView { tx, target, state_diff: None }),
    {
        let eligible = tx.window.contains(&target);
        VictimCandidate { tx, target, state_diff: None, eligible }
    }

    /// The transaction.
    pub fn tx(&self) -> (tx: Transaction)
        ensures
            tx == self@.tx,
    {
        self.tx
    }

    /// The block that the candidate is aimed at.
    pub fn target(&self) -> (target: TargetBlockConstraints)
        ensures
            target == self@.target,
    {
        self.target
    }

    /// The state diff, once the candidate is traced.
    pub fn state_diff(&self) -> (diff: Option<&StateDiff>)
        requires
            self.wf(),
        ensures
            match diff {
                Some(diff) => diff.wf() && self@.state_diff == Some(diff@),
                None => self@.state_diff is None,
            },
    {
        self.state_diff.as_ref()
    }

    /// Whether the transaction's own window lets it land in the target
    /// block.
    pub fn can_include_in_target_block(&self) -> (eligible: bool)
        requires
            self.wf(),
        ensures
            eligible == self@.tx.window.admits(self@.target),
    {
        self.eligible
    }

    /// Stores the outcome of tracing the transaction. A trace that came back
    /// becomes the candidate's state diff, empty or not; a failed call is
    /// handed back as the error and leaves the candidate untraced as before.
    pub fn fill_state_diffs(&mut self, traced: Result<StateDiff, TraceFailure>) -> (done: Result<
        (),
        TraceFailure,
    >)
        requires
            old(self).wf(),
            traced matches Ok(diff) ==> diff.wf(),
        ensures
            final(self).wf(),
            final(self)@.tx == old(self)@.tx,
            final(self)@.target == old(self)@.target,
            match traced {
                Ok(diff) => done is Ok && final(self)@.state_diff == Some(diff@),
                Err(failure) => done == Err::<(), TraceFailure>(failure) && final(self)@
                    == old(self)@,
            },
    {
        match traced {
            Ok(diff) => {
                self.state_diff = Some(diff);
                Ok(())
            },
            Err(failure) => Err(failure),
        }
    }
}

} // verus!
