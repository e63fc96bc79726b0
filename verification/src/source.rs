//! The sequence-producer capability that the lookahead adapter wraps, and two
//! vector-backed producers that implement it.

use vstd::prelude::*;

verus! {

/// A forward-only, single-pass producer of elements.
///
/// The spec function `remaining` models the exact sequence of elements the
/// producer will still yield, in order, before it reports exhaustion.
/// `hint` models the size estimate the producer reports: its first component
/// is a true lower bound on the number of remaining elements, while its
/// second component is an optional upper-bound estimate that consumers must
/// not rely on.
pub trait SequenceProducer: Sized {
    type Item;

    /// The sequence of elements this producer will still yield, front first.
    spec fn remaining(&self) -> Seq<Self::Item>;

    /// The size estimate this producer currently reports: a lower bound and
    /// an optional upper bound on the number of remaining elements.
    spec fn hint(&self) -> (usize, Option<usize>);

    /// Yield the next element, or report exhaustion with `None`.
    /// Once exhausted, the producer stays exhausted.
    fn pull_next(&mut self) -> (r: Option<Self::Item>)
        ensures
            old(self).remaining().len() == 0 ==> {
                &&& r is None
                &&& final(self).remaining() == old(self).remaining()
            },
            old(self).remaining().len() > 0 ==> {
                &&& r == Some(old(self).remaining()[0])
                &&& final(self).remaining() == old(self).remaining().drop_first()
            },
    ;

    /// Report the current size estimate. The lower bound never exceeds the
    /// number of elements actually remaining.
    fn estimate_remaining(&self) -> (r: (usize, Option<usize>))
        ensures
            r == self.hint(),
            r.0 <= self.remaining().len(),
    ;
}

/// A producer that yields the elements of a vector, front first, and reports
/// an exact size estimate, as a standard in-memory collection would.
pub struct VecSource<T> {
    items: Vec<T>,
}

impl<T> VecSource<T> {
    /// Wrap a vector; its elements are yielded front first.
    pub fn new(items: Vec<T>) -> (r: VecSource<T>)
        ensures
            r.remaining() == items@,
    {
        VecSource { items }
    }
}

impl<T> SequenceProducer for VecSource<T> {
    type Item = T;

    closed spec fn remaining(&self) -> Seq<T> {
        self.items@
    }

    closed spec fn hint(&self) -> (usize, Option<usize>) {
        (self.items@.len() as usize, Some(self.items@.len() as usize))
    }

    fn pull_next(&mut self) -> (r: Option<T>) {
        if self.items.len() > 0 {
            let item = self.items.remove(0);
            proof {
                assert(self.items@ =~= old(self).items@.drop_first());
            }
            Some(item)
        } else {
            None
        }
    }

    fn estimate_remaining(&self) -> (r: (usize, Option<usize>)) {
        let n = self.items.len();
        (n, Some(n))
    }
}

/// A producer that yields the elements of a vector, front first, but reports
/// no size information at all: a lower bound of zero and an unknown upper
/// bound, as a producer of unpredictable length would.
pub struct UnhintedVecSource<T> {
    items: Vec<T>,
}

impl<T> UnhintedVecSource<T> {
    /// Wrap a vector; its elements are yielded front first.
    pub fn new(items: Vec<T>) -> (r: UnhintedVecSource<T>)
        ensures
            r.remaining() == items@,
    {
        UnhintedVecSource { items }
    }
}

impl<T> SequenceProducer for UnhintedVecSource<T> {
    type Item = T;

    closed spec fn remaining(&self) -> Seq<T> {
        self.items@
    }

    closed spec fn hint(&self) -> (usize, Option<usize>) {
        (0usize, None)
    }

    fn pull_next(&mut self) -> (r: Option<T>) {
        if self.items.len() > 0 {
            let item = self.items.remove(0);
            proof {
                assert(self.items@ =~= old(self).items@.drop_first());
            }
            Some(item)
        } else {
            None
        }
    }

    fn estimate_remaining(&self) -> (r: (usize, Option<usize>)) {
        (0, None)
    }
}

} // verus!
