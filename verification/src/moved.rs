//! A small set of board handles, kept in insertion order, used to report
//! which cards a push moved.
use vstd::prelude::*;

use crate::board::Index;

verus! {

/// `s` with `x` appended, unless `x` is already present.
pub open spec fn spec_insert_unique(s: Seq<Index>, x: Index) -> Seq<Index> {
    if s.contains(x) {
        s
    } else {
        s.push(x)
    }
}

/// `a` followed by every element of `b` not already present, in order.
pub open spec fn spec_union_seq(a: Seq<Index>, b: Seq<Index>) -> Seq<Index>
    decreases b.len(),
{
    if b.len() == 0 {
        a
    } else {
        spec_union_seq(spec_insert_unique(a, b[0]), b.drop_first())
    }
}

/// The handles of cards a push moved: a duplicate-free list in insertion
/// order.
#[derive(Debug)]
pub struct MovedSet {
    items: Vec<Index>,
}

impl View for MovedSet {
    type V = Seq<Index>;

    closed spec fn view(&self) -> Seq<Index> {
        self.items@
    }
}

impl MovedSet {
    /// The empty set.
    pub fn new() -> (r: MovedSet)
        ensures
            r@ == Seq::<Index>::empty(),
    {
        MovedSet { items: Vec::new() }
    }

    /// Whether the set is empty.
    pub fn is_empty(&self) -> (r: bool)
        ensures
            r == (self@.len() == 0),
    {
        self.items.len() == 0
    }

    /// How many handles the set holds.
    pub fn len(&self) -> (r: usize)
        ensures
            r == self@.len(),
    {
        self.items.len()
    }

    /// The handle at position `i`, in insertion order.
    pub fn get(&self, i: usize) -> (r: Index)
        requires
            i < self@.len(),
        ensures
            r == self@[i as int],
    {
        self.items[i]
    }

    /// Whether `x` is in the set.
    pub fn contains(&self, x: Index) -> (r: bool)
        ensures
            r == self@.contains(x),
    {
        let n = self.items.len();
        let mut i: usize = 0;
        while i < n
            invariant
                0 <= i <= n,
                n == self@.len(),
                forall|j: int| 0 <= j < i ==> self@[j] != x,
            decreases n - i,
        {
            if self.items[i] == x {
                return true;
            }
            i = i + 1;
        }
        false
    }

    /// Add `x` unless it is already present.
    pub fn insert(&mut self, x: Index)
        ensures
            final(self)@ == spec_insert_unique(old(self)@, x),
    {
        if !self.contains(x) {
            self.items.push(x);
        }
    }

    /// Add every handle of `other` not already present, in `other`'s order.
    pub fn union_with(&mut self, other: &MovedSet)
        ensures
            final(self)@ == spec_union_seq(old(self)@, other@),
    {
        let n = other.items.len();
        let mut i: usize = 0;
        proof {
            assert(other@.skip(0) =~= other@);
        }
        while i < n
            invariant
                0 <= i <= n,
                n == other@.len(),
                spec_union_seq(old(self)@, other@) == spec_union_seq(
                    self@,
                    other@.skip(i as int),
                ),
            decreases n - i,
        {
            self.insert(other.items[i]);
            proof {
                assert(other@.skip(i as int).drop_first() =~= other@.skip(i + 1));
                assert(other@.skip(i as int)[0] == other@[i as int]);
            }
            i = i + 1;
        }
        proof {
            assert(other@.skip(n as int) =~= Seq::<Index>::empty());
        }
    }
}

} // verus!
