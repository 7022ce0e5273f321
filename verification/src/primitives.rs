//! Plain identifiers and quantities that the strategy reads from the chain.

use vstd::prelude::*;

verus! {

/// A 160-bit account or contract address, split into its 32 high bits and
/// its 128 low bits.
#[derive(Clone, Copy, Debug, PartialEq, Eq, Structural)]
pub struct Address {
    pub hi: u32,
    pub lo: u128,
}

impl Address {
    /// The order of addresses as 160-bit numbers.
    pub open spec fn lt(self, other: Address) -> bool {
        self.hi < other.hi || (self.hi == other.hi && self.lo < other.lo)
    }

    /// Whether `self` comes before `other` as a 160-bit number.
    pub fn less_than(&self, other: &Address) -> (before: bool)
        ensures
            before == self.lt(*other),
    {
        self.hi < other.hi || (self.hi == other.hi && self.lo < other.lo)
    }
}

/// A 256-bit quantity, split into two 128-bit halves.
#[derive(Clone, Copy, Debug, PartialEq, Eq, Structural)]
pub struct U256 {
    pub hi: u128,
    pub lo: u128,
}

/// The hash that names a transaction.
#[derive(Clone, Copy, Debug, PartialEq, Eq, Structural)]
pub struct TxHash {
    pub hi: u128,
    pub lo: u128,
}

} // verus!
