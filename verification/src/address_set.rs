//! A set of addresses, kept as a strictly ascending vector so that membership
//! is a binary search.

use crate::primitives::Address;
use vstd::prelude::*;

verus! {

/// Every element comes before all the elements after it.
pub open spec fn strictly_ascending(s: Seq<Address>) -> bool {
    forall|i: int, j: int| 0 <= i < j < s.len() ==> (#[trigger] s[i]).lt(#[trigger] s[j])
}

/// Where `target` stands, or would stand, in the ascending sequence `s`:
/// everything before `pos` is smaller, nothing from `pos` on is.
pub open spec fn is_rank(s: Seq<Address>, target: Address, pos: int) -> bool {
    &&& 0 <= pos <= s.len()
    &&& forall|i: int| 0 <= i < pos ==> (#[trigger] s[i]).lt(target)
    &&& forall|i: int| pos <= i < s.len() ==> !(#[trigger] s[i]).lt(target)
}

/// In an ascending sequence an address is present exactly when it stands at
/// its rank.
pub proof fn lemma_rank_decides_membership(s: Seq<Address>, target: Address, pos: int)
    requires
        strictly_ascending(s),
        is_rank(s, target, pos),
    ensures
        s.contains(target) <==> (pos < s.len() && s[pos] == target),
{
}

/// Inserting an absent address at its rank keeps the sequence ascending.
pub proof fn lemma_insert_at_rank(s: Seq<Address>, target: Address, pos: int)
    requires
        strictly_ascending(s),
        is_rank(s, target, pos),
        !s.contains(target),
    ensures
        strictly_ascending(s.insert(pos, target)),
{
}

/// A finite set of addresses.
#[derive(Debug, PartialEq, Eq)]
pub struct AddressSet {
    items: Vec<Address>,
}

impl View for AddressSet {
    type V = Seq<Address>;

    /// The members in ascending order.
    closed spec fn view(&self) -> Seq<Address> {
        self.items@
    }
}

impl AddressSet {
    /// The members are in strictly ascending order, so none occurs twice.
    pub open spec fn wf(&self) -> bool {
        strictly_ascending(self@)
    }

    /// The empty set.
    pub fn new() -> (set: AddressSet)
        ensures
            set.wf(),
            set@ == Seq::<Address>::empty(),
    {
        AddressSet { items: Vec::new() }
    }

    /// The number of members.
    pub fn len(&self) -> (n: usize)
        ensures
            n == self@.len(),
    {
        self.items.len()
    }

    /// Whether the set has no member.
    pub fn is_empty(&self) -> (empty: bool)
        ensures
            empty == (self@.len() == 0),
    {
        self.items.len() == 0
    }

    /// The member at position `index` of the ascending order.
    pub fn get(&self, index: usize) -> (address: Address)
        requires
            index < self@.len(),
        ensures
            address == self@[index as int],
    {
        self.items[index]
    }

    /// The rank of `target`, and whether `target` is a member.
    pub fn search(&self, target: Address) -> (found: (usize, bool))
        requires
            self.wf(),
        ensures
            is_rank(self@, target, found.0 as int),
            found.1 == self@.contains(target),
            found.1 ==> found.0 < self@.len() && self@[found.0 as int] == target,
    {
        let mut lo: usize = 0;
        let mut hi: usize = self.items.len();
        while lo < hi
            invariant
                lo <= hi <= self.items@.len(),
                strictly_ascending(self.items@),
                forall|i: int| 0 <= i < lo ==> (#[trigger] self.items@[i]).lt(target),
                forall|i: int| hi <= i < self.items@.len() ==> !(#[trigger] self.items@[i]).lt(target),
            decreases hi - lo,
        {
            let mid: usize = lo + (hi - lo) / 2;
            if self.items[mid].less_than(&target) {
                lo = mid + 1;
            } else {
                hi = mid;
            }
        }
        let found: bool = lo < self.items.len() && self.items[lo] == target;
        proof {
            lemma_rank_decides_membership(self@, target, lo as int);
        }
        (lo, found)
    }

    /// Whether `target` is a member.
    pub fn contains(&self, target: Address) -> (present: bool)
        requires
            self.wf(),
        ensures
            present == self@.contains(target),
    {
        self.search(target).1
    }

    /// Adds `address`. Returns its position in the ascending order, and
    /// whether it was absent before.
    pub fn insert(&mut self, address: Address) -> (placed: (usize, bool))
        requires
            old(self).wf(),
        ensures
            final(self).wf(),
            is_rank(old(self)@, address, placed.0 as int),
            placed.1 == !old(self)@.contains(address),
            placed.1 ==> final(self)@ == old(self)@.insert(placed.0 as int, address),
            !placed.1 ==> final(self)@ == old(self)@,
            final(self)@.to_set() == old(self)@.to_set().insert(address),
    {
        let (pos, found) = self.search(address);
        if !found {
            proof {
                lemma_insert_at_rank(self@, address, pos as int);
            }
            self.items.insert(pos, address);
        }
        proof {
            let before = old(self)@;
            let after = self@;
            assert forall|a: Address| after.to_set().contains(a) <==> before.to_set().insert(
                address,
            ).contains(a) by {
                if !found {
                    if before.contains(a) {
                        let k = choose|k: int| 0 <= k < before.len() && before[k] == a;
                        if k < pos {
                            assert(after[k] == a);
                        } else {
                            assert(after[k + 1] == a);
                        }
                    }
                    assert(after[pos as int] == address);
                }
            }
        }
        (pos, !found)
    }
}

} // verus!
