//! Walking several views side by side.

use crate::access::{AccessIterator, ReadAccessIterator};
use vstd::prelude::*;

verus! {

/// The smaller of two counts.
pub open spec fn smaller(a: nat, b: nat) -> nat {
    if a <= b {
        a
    } else {
        b
    }
}

/// Two walks side by side: it hands out pairs until either walk ends.
pub struct TupleAccessIterator<A: AccessIterator, B: AccessIterator>(pub A, pub B);

impl<A: AccessIterator, B: AccessIterator> AccessIterator for TupleAccessIterator<A, B> {
    type Item = (A::Item, B::Item);

    open spec fn valid(&self) -> bool {
        self.0.valid() && self.1.valid()
    }

    /// As many pairs are to come as the shorter walk has items.
    open spec fn remaining(&self) -> nat {
        smaller(self.0.remaining(), self.1.remaining())
    }

    /// The next pair holds the next item of either walk.
    open spec fn upcoming(&self) -> Option<(A::Item, B::Item)> {
        match (self.0.upcoming(), self.1.upcoming()) {
            (Some(a), Some(b)) => Some((a, b)),
            _ => None,
        }
    }

    /// The first walk steps; the second steps where the first had an item.
    open spec fn rest(&self) -> Self {
        if self.0.upcoming() is Some {
            TupleAccessIterator(self.0.rest(), self.1.rest())
        } else {
            TupleAccessIterator(self.0.rest(), self.1)
        }
    }

    fn next(&mut self) -> (r: Option<(A::Item, B::Item)>) {
        let a = match self.0.next() {
            Some(a) => a,
            None => {
                return None;
            },
        };
        let b = match self.1.next() {
            Some(b) => b,
            None => {
                return None;
            },
        };
        Some((a, b))
    }
}

/// What can be walked as one: a tuple of walks.
pub trait Searchable {
    /// The walk of the whole.
    type Iter: AccessIterator;

    /// The number of items that the walk of the whole has.
    spec fn length(&self) -> nat;

    /// Whether every part can be walked.
    spec fn walkable(&self) -> bool;

    /// Returns the walk of the whole.
    fn query(self) -> (it: Self::Iter)
        requires
            self.walkable(),
        ensures
            it.valid(),
            it.remaining() == self.length(),
    ;
}

impl<A: AccessIterator, B: AccessIterator> Searchable for (A, B) {
    type Iter = TupleAccessIterator<A, B>;

    open spec fn length(&self) -> nat {
        smaller(self.0.remaining(), self.1.remaining())
    }

    open spec fn walkable(&self) -> bool {
        self.0.valid() && self.1.valid()
    }

    fn query(self) -> (it: TupleAccessIterator<A, B>)
        ensures
            it == TupleAccessIterator(self.0, self.1),
    {
        TupleAccessIterator(self.0, self.1)
    }
}

/// Walks `it` to its end and returns the number of items that it handed
/// out: as many as were to come.
pub fn count_items<I: AccessIterator>(it: &mut I) -> (n: usize)
    requires
        old(it).valid(),
        old(it).remaining() <= usize::MAX,
    ensures
        final(it).valid(),
        final(it).remaining() == 0,
        n == old(it).remaining(),
{
    let mut n: usize = 0;
    loop
        invariant
            it.valid(),
            n + it.remaining() == old(it).remaining(),
            old(it).remaining() <= usize::MAX,
        ensures
            it.valid(),
            it.remaining() == 0,
            n == old(it).remaining(),
        decreases it.remaining(),
    {
        match it.next() {
            Some(_) => {
                n += 1;
            },
            None => {
                break ;
            },
        }
    }
    n
}

/// Two walks of views over the same entities, side by side and both at
/// their start, hand out as many pairs as there are entities.
pub proof fn lemma_zip_length<'a, 'b, T, U>(
    first: ReadAccessIterator<'a, T>,
    second: ReadAccessIterator<'b, U>,
)
    requires
        first.valid(),
        second.valid(),
        first.position() == 0,
        second.position() == 0,
        first.entities() == second.entities(),
    ensures
        TupleAccessIterator(first, second).valid(),
        TupleAccessIterator(first, second).remaining() == first.entities().len(),
{
    first.lemma_remaining();
    second.lemma_remaining();
}

/// Three walks of views over the same entities, side by side and all at
/// their start, hand out as many triples as there are entities.
pub proof fn lemma_zip_length_nested<'a, 'b, 'c, T, U, W>(
    first: ReadAccessIterator<'a, T>,
    second: ReadAccessIterator<'b, U>,
    third: ReadAccessIterator<'c, W>,
)
    requires
        first.valid(),
        second.valid(),
        third.valid(),
        first.position() == 0,
        second.position() == 0,
        third.position() == 0,
        first.entities() == second.entities(),
        first.entities() == third.entities(),
    ensures
        TupleAccessIterator(TupleAccessIterator(first, second), third).remaining()
            == first.entities().len(),
{
    first.lemma_remaining();
    second.lemma_remaining();
    third.lemma_remaining();
}

} // verus!
