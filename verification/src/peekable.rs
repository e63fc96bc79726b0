//! The lookahead adapter itself: a wrapper that composes a sequence producer
//! with an ordered buffer of already-pulled but not-yet-consumed elements.

use crate::source::SequenceProducer;
use vstd::prelude::*;
use vstd::std_specs::cmp::PartialEqSpec;

verus! {

/// A wrapper around a sequence producer that supports peeking forward any
/// number of elements without consuming them.
///
/// The logical remaining sequence, as a consumer calling only `next` would
/// observe it, is the buffer (front to back) followed by whatever the source
/// still yields; the spec function `remaining` models it. No element is ever
/// skipped, duplicated, or reordered.
pub struct FullyPeekableIterator<I: SequenceProducer> {
    iter: I,
    queue: Vec<I::Item>,
}

impl<I: SequenceProducer> FullyPeekableIterator<I> {
    /// The logical remaining sequence: buffered elements followed by the
    /// elements the source still yields.
    pub closed spec fn remaining(&self) -> Seq<I::Item> {
        self.queue@ + self.iter.remaining()
    }

    /// How many elements have been pulled from the source but not yet
    /// consumed; they form a prefix of `remaining`.
    pub closed spec fn buffered(&self) -> nat {
        self.queue@.len()
    }

    /// The sequence the wrapped source itself still yields: `remaining`
    /// without its buffered prefix.
    pub closed spec fn source_remaining(&self) -> Seq<I::Item> {
        self.iter.remaining()
    }

    /// The size estimate the wrapped source currently reports.
    pub closed spec fn source_hint(&self) -> (usize, Option<usize>) {
        self.iter.hint()
    }

    /// Create a new fully-peekable wrapper from an existing producer.
    pub fn new(iter: I) -> (r: FullyPeekableIterator<I>)
        ensures
            r.remaining() == iter.remaining(),
            r.buffered() == 0,
            r.source_hint() == iter.hint(),
    {
        let r = FullyPeekableIterator { iter, queue: Vec::new() };
        proof {
            assert(r.remaining() =~= r.iter.remaining());
        }
        r
    }

    /// Consume and return the next element of the logical sequence, or
    /// `None` if it is exhausted. This is the only operation that removes an
    /// element from the logical sequence.
    pub fn next(&mut self) -> (r: Option<I::Item>)
        ensures
            old(self).remaining().len() == 0 ==> {
                &&& r is None
                &&& final(self).remaining() == old(self).remaining()
            },
            old(self).remaining().len() > 0 ==> {
                &&& r == Some(old(self).remaining()[0])
                &&& final(self).remaining() == old(self).remaining().drop_first()
            },
            final(self).buffered() == if old(self).buffered() > 0 {
                (old(self).buffered() - 1) as nat
            } else {
                0nat
            },
            old(self).buffered() > 0 ==> final(self).source_remaining()
                == old(self).source_remaining(),
            old(self).buffered() > 0 ==> final(self).source_hint() == old(self).source_hint(),
            advance_effect(*old(self), *final(self), r),
    {
        if self.queue.len() > 0 {
            let item = self.queue.remove(0);
            proof {
                assert(self.queue@ + self.iter.remaining() =~= (old(self).queue@
                    + old(self).iter.remaining()).drop_first());
            }
            Some(item)
        } else {
            let r = self.iter.pull_next();
            proof {
                assert(old(self).remaining() =~= old(self).iter.remaining());
                assert(self.queue@ + self.iter.remaining() =~= self.iter.remaining());
                if old(self).iter.remaining().len() > 0 {
                    assert(self.iter.remaining() =~= old(self).iter.remaining().drop_first());
                }
            }
            r
        }
    }

    /// The bounds the wrapper reports on the length of its logical remaining
    /// sequence: the source's own estimate shifted up by the number of
    /// buffered elements. The lower bound saturates at `usize::MAX`; the
    /// upper bound becomes unknown when the source reports none or when the
    /// shifted value would not be representable.
    pub open spec fn spec_size_hint(&self) -> (usize, Option<usize>) {
        let lo = if self.source_hint().0 + self.buffered() <= usize::MAX as int {
            (self.source_hint().0 + self.buffered()) as usize
        } else {
            usize::MAX
        };
        let hi = match self.source_hint().1 {
            Some(h) => if h + self.buffered() <= usize::MAX as int {
                Some((h + self.buffered()) as usize)
            } else {
                None
            },
            None => None,
        };
        (lo, hi)
    }

    /// Report bounds on the length of the logical remaining sequence,
    /// recomputed fresh from the source's current estimate and the buffer
    /// length. The reported lower bound is a true lower bound.
    pub fn size_hint(&self) -> (r: (usize, Option<usize>))
        ensures
            r == self.spec_size_hint(),
            r.0 <= self.remaining().len(),
    {
        let peek_len = self.queue.len();
        let (lo, hi) = self.iter.estimate_remaining();
        let lo = lo.saturating_add(peek_len);
        let hi = match hi {
            Some(x) => x.checked_add(peek_len),
            None => None,
        };
        (lo, hi)
    }

    /// Test whether the logical sequence has another element to yield. May
    /// pull one element from the source into the buffer to find out, but
    /// consumes nothing.
    pub fn has_next(&mut self) -> (r: bool)
        ensures
            r == (old(self).remaining().len() > 0),
            final(self).remaining() == old(self).remaining(),
            final(self).buffered() == Self::fill_len(
                old(self).buffered(),
                old(self).remaining().len(),
                1,
            ),
            final(self).source_remaining() == old(self).remaining().skip(
                final(self).buffered() as int,
            ),
            old(self).buffered() > 0 ==> *final(self) == *old(self),
    {
        self.peek().is_some()
    }

    /// Peek forward to the next element without consuming it; a convenience
    /// form of `lift(0)`.
    pub fn peek(&mut self) -> (r: Option<&I::Item>)
        ensures
            final(self).remaining() == old(self).remaining(),
            final(self).buffered() == Self::fill_len(
                old(self).buffered(),
                old(self).remaining().len(),
                1,
            ),
            final(self).source_remaining() == old(self).remaining().skip(
                final(self).buffered() as int,
            ),
            old(self).remaining().len() > 0 ==> r.is_some() && *r.unwrap() == old(
                self,
            ).remaining()[0],
            old(self).remaining().len() == 0 ==> r.is_none(),
            old(self).buffered() > 0 ==> *final(self) == *old(self),
    {
        self.lift(0)
    }

    /// The length the buffer reaches when filled toward `want` elements: the
    /// buffer never shrinks, never grows past `want`, and cannot grow past
    /// the `total` elements the logical sequence holds.
    pub open spec fn fill_len(buf: nat, total: nat, want: nat) -> nat {
        let cap = if want <= total {
            want
        } else {
            total
        };
        if cap <= buf {
            buf
        } else {
            cap
        }
    }

    /// Peek forward to the element at `index` in the logical remaining
    /// sequence without consuming anything, pulling from the source just far
    /// enough to reach it. Returns `None` when the sequence ends before
    /// `index`. Never changes the logical sequence; when the buffer already
    /// reaches `index`, the wrapper is left entirely untouched.
    pub fn lift(&mut self, index: usize) -> (r: Option<&I::Item>)
        ensures
            final(self).remaining() == old(self).remaining(),
            final(self).buffered() == Self::fill_len(
                old(self).buffered(),
                old(self).remaining().len(),
                index as nat + 1,
            ),
            final(self).source_remaining() == old(self).remaining().skip(
                final(self).buffered() as int,
            ),
            index < old(self).remaining().len() ==> r.is_some() && *r.unwrap() == old(
                self,
            ).remaining()[index as int],
            index >= old(self).remaining().len() ==> r.is_none(),
            old(self).buffered() > index ==> *final(self) == *old(self),
            lift_effect(
                *old(self),
                *final(self),
                index as nat,
                (match r {
                    Some(v) => Some(*v),
                    None => None,
                }),
            ),
    {
        let mut exhausted = false;
        while !exhausted && self.queue.len() <= index
            invariant
                self.remaining() == old(self).remaining(),
                old(self).buffered() <= self.buffered(),
                old(self).buffered() > index ==> *self == *old(self),
                old(self).buffered() <= index ==> self.buffered() <= index + 1,
                exhausted ==> self.source_remaining().len() == 0,
            decreases index + 1 - self.queue.len(), (if exhausted {
                0int
            } else {
                1int
            }),
        {
            match self.iter.pull_next() {
                Some(item) => {
                    self.queue.push(item);
                    proof {
                        assert(self.queue@ + self.iter.remaining() =~= old(self).remaining());
                    }
                },
                None => {
                    exhausted = true;
                },
            }
        }
        proof {
            assert(self.source_remaining() =~= self.remaining().skip(self.buffered() as int));
        }
        if index < self.queue.len() {
            Some(&self.queue[index])
        } else {
            None
        }
    }

    /// Peek forward to the element at `index` mutably, without consuming
    /// anything, pulling from the source just far enough to reach it. A
    /// value written through the returned reference is what a later `next`
    /// call returns when it reaches that position; nothing else of the
    /// logical sequence changes.
    pub fn lift_mut(&mut self, index: usize) -> (r: Option<&mut I::Item>)
        ensures
            index < old(self).remaining().len() ==> {
                &&& r.is_some()
                &&& *r.unwrap() == old(self).remaining()[index as int]
                &&& final(self).remaining() == old(self).remaining().update(
                    index as int,
                    *final(r.unwrap()),
                )
            },
            index >= old(self).remaining().len() ==> {
                &&& r.is_none()
                &&& final(self).remaining() == old(self).remaining()
            },
            final(self).buffered() == Self::fill_len(
                old(self).buffered(),
                old(self).remaining().len(),
                index as nat + 1,
            ),
            final(self).source_remaining() == old(self).remaining().skip(
                final(self).buffered() as int,
            ),
    {
        let mut exhausted = false;
        while !exhausted && self.queue.len() <= index
            invariant
                self.remaining() == old(self).remaining(),
                old(self).buffered() <= self.buffered(),
                old(self).buffered() <= index ==> self.buffered() <= index + 1,
                old(self).buffered() > index ==> *self == *old(self),
                exhausted ==> self.source_remaining().len() == 0,
            decreases index + 1 - self.queue.len(), (if exhausted {
                0int
            } else {
                1int
            }),
        {
            match self.iter.pull_next() {
                Some(item) => {
                    self.queue.push(item);
                    proof {
                        assert(self.queue@ + self.iter.remaining() =~= old(self).remaining());
                    }
                },
                None => {
                    exhausted = true;
                },
            }
        }
        proof {
            assert(self.source_remaining() =~= self.remaining().skip(self.buffered() as int));
            if index < self.queue@.len() {
                assert forall|x: I::Item|
                    old(self).remaining().update(index as int, x) == self.queue@.update(
                        index as int,
                        x,
                    ) + self.iter.remaining() by {
                    assert(old(self).remaining().update(index as int, x) =~= self.queue@.update(
                        index as int,
                        x,
                    ) + self.iter.remaining());
                }
            }
        }
        if index < self.queue.len() {
            Some(&mut self.queue[index])
        } else {
            None
        }
    }

    /// Peek forward to the next element mutably without consuming it; a
    /// convenience form of `lift_mut(0)`.
    pub fn peek_mut(&mut self) -> (r: Option<&mut I::Item>)
        ensures
            old(self).remaining().len() > 0 ==> {
                &&& r.is_some()
                &&& *r.unwrap() == old(self).remaining()[0]
                &&& final(self).remaining() == old(self).remaining().update(
                    0,
                    *final(r.unwrap()),
                )
            },
            old(self).remaining().len() == 0 ==> {
                &&& r.is_none()
                &&& final(self).remaining() == old(self).remaining()
            },
            final(self).buffered() == Self::fill_len(
                old(self).buffered(),
                old(self).remaining().len(),
                1,
            ),
            final(self).source_remaining() == old(self).remaining().skip(
                final(self).buffered() as int,
            ),
    {
        self.lift_mut(0)
    }

    /// Peek forward to the half-open range `[start, end)` of the logical
    /// remaining sequence without consuming anything. One slot is returned
    /// per index in the range, `Some` where the sequence reaches that index
    /// and `None` beyond its end, in ascending index order. A degenerate
    /// range with `start >= end` yields an empty result; no range faults.
    pub fn lift_many(&mut self, start: usize, end: usize) -> (r: Vec<Option<&I::Item>>)
        ensures
            final(self).remaining() == old(self).remaining(),
            final(self).buffered() == Self::fill_len(
                old(self).buffered(),
                old(self).remaining().len(),
                if end > 0 {
                    end as nat
                } else {
                    1nat
                },
            ),
            final(self).source_remaining() == old(self).remaining().skip(
                final(self).buffered() as int,
            ),
            r@.len() == if start <= end {
                end - start
            } else {
                0int
            },
            forall|j: int|
                0 <= j < r@.len() ==> if start + j < old(self).remaining().len() {
                    (#[trigger] r@[j]).is_some() && *r@[j].unwrap() == old(self).remaining()[start
                        + j]
                } else {
                    r@[j].is_none()
                },
    {
        let fill_to = if end > 0 {
            end - 1
        } else {
            0
        };
        self.lift(fill_to);
        let n = if end > start {
            end - start
        } else {
            0
        };
        let mut result: Vec<Option<&I::Item>> = Vec::new();
        let mut j: usize = 0;
        while j < n
            invariant
                n == if end > start {
                    end - start
                } else {
                    0int
                },
                self.remaining() == old(self).remaining(),
                self.buffered() == Self::fill_len(
                    old(self).buffered(),
                    old(self).remaining().len(),
                    if end > 0 {
                        end as nat
                    } else {
                        1nat
                    },
                ),
                self.source_remaining() == old(self).remaining().skip(self.buffered() as int),
                j <= n,
                result@.len() == j,
                forall|k: int|
                    0 <= k < j ==> if start + k < old(self).remaining().len() {
                        (#[trigger] result@[k]).is_some() && *result@[k].unwrap() == old(
                            self,
                        ).remaining()[start + k]
                    } else {
                        result@[k].is_none()
                    },
            decreases n - j,
        {
            let i = start + j;
            if i < self.queue.len() {
                result.push(Some(&self.queue[i]));
            } else {
                result.push(None);
            }
            j = j + 1;
        }
        result
    }

    /// Peek forward to the first `n` elements without consuming anything; a
    /// convenience form of `lift_many(0, n)`.
    pub fn peek_many(&mut self, n: usize) -> (r: Vec<Option<&I::Item>>)
        ensures
            final(self).remaining() == old(self).remaining(),
            final(self).buffered() == Self::fill_len(
                old(self).buffered(),
                old(self).remaining().len(),
                if n > 0 {
                    n as nat
                } else {
                    1nat
                },
            ),
            final(self).source_remaining() == old(self).remaining().skip(
                final(self).buffered() as int,
            ),
            r@.len() == n,
            forall|j: int|
                0 <= j < r@.len() ==> if j < old(self).remaining().len() {
                    (#[trigger] r@[j]).is_some() && *r@[j].unwrap() == old(self).remaining()[j]
                } else {
                    r@[j].is_none()
                },
    {
        self.lift_many(0, n)
    }

    /// Consume and return the next element if the predicate holds on it.
    /// The predicate is evaluated exactly once when an element is available
    /// and not at all otherwise. A rejected element is restored to the front
    /// of the buffer, so the logical sequence is left exactly as it was.
    pub fn next_if<F: FnOnce(&I::Item) -> bool>(&mut self, func: F) -> (r: Option<I::Item>)
        requires
            old(self).remaining().len() > 0 ==> call_requires(
                func,
                (&old(self).remaining()[0],),
            ),
        ensures
            old(self).remaining().len() == 0 ==> {
                &&& r is None
                &&& final(self).remaining() == old(self).remaining()
            },
            old(self).remaining().len() > 0 ==> match r {
                Some(v) => {
                    &&& v == old(self).remaining()[0]
                    &&& call_ensures(func, (&old(self).remaining()[0],), true)
                    &&& final(self).remaining() == old(self).remaining().drop_first()
                    &&& final(self).buffered() == if old(self).buffered() > 0 {
                        (old(self).buffered() - 1) as nat
                    } else {
                        0nat
                    }
                },
                None => {
                    &&& call_ensures(func, (&old(self).remaining()[0],), false)
                    &&& final(self).remaining() == old(self).remaining()
                    &&& final(self).buffered() == Self::fill_len(
                        old(self).buffered(),
                        old(self).remaining().len(),
                        1,
                    )
                },
            },
    {
        match self.next() {
            Some(matched) => {
                if func(&matched) {
                    Some(matched)
                } else {
                    let ghost mid = *self;
                    self.queue.insert(0, matched);
                    proof {
                        assert(seq![matched] + old(self).remaining().drop_first() =~= old(
                            self,
                        ).remaining());
                        assert(self.queue@ + self.iter.remaining() =~= seq![matched] + (mid.queue@
                            + mid.iter.remaining()));
                    }
                    None
                }
            },
            None => None,
        }
    }

    /// Consume and return the next element if it is equal to `expected`,
    /// judged by the element type's equality; a rejected element is restored
    /// to the front of the buffer and the logical sequence is unchanged.
    pub fn next_if_eq<T>(&mut self, expected: &T) -> (r: Option<I::Item>) where
        I::Item: PartialEq<T>,

        ensures
            old(self).remaining().len() == 0 ==> {
                &&& r is None
                &&& final(self).remaining() == old(self).remaining()
            },
            old(self).remaining().len() > 0 ==> match r {
                Some(v) => {
                    &&& v == old(self).remaining()[0]
                    &&& final(self).remaining() == old(self).remaining().drop_first()
                },
                None => final(self).remaining() == old(self).remaining(),
            },
            old(self).remaining().len() > 0 && <I::Item as PartialEqSpec<T>>::obeys_eq_spec()
                ==> if old(self).remaining()[0].eq_spec(expected) {
                r == Some(old(self).remaining()[0])
            } else {
                r is None
            },
    {
        let func = |next: &I::Item| -> (res: bool)
            ensures
                <I::Item as PartialEqSpec<T>>::obeys_eq_spec() ==> res == next.eq_spec(expected),
            { next == expected };
        self.next_if(func)
    }
}

/// What `next` does to the wrapper, stated over the model: on an empty
/// logical sequence it yields nothing and changes nothing; otherwise it
/// yields exactly the front element and the rest of the sequence stays, in
/// order.
pub open spec fn advance_effect<I: SequenceProducer>(
    pre: FullyPeekableIterator<I>,
    post: FullyPeekableIterator<I>,
    r: Option<I::Item>,
) -> bool {
    if pre.remaining().len() == 0 {
        r is None && post.remaining() == pre.remaining()
    } else {
        r == Some(pre.remaining()[0]) && post.remaining() == pre.remaining().drop_first()
    }
}

/// What `lift` does to the wrapper, stated over the model: the logical
/// sequence is untouched, the buffer is filled just far enough toward
/// `index + 1` elements, and the element at `index` is returned exactly when
/// the sequence reaches it.
pub open spec fn lift_effect<I: SequenceProducer>(
    pre: FullyPeekableIterator<I>,
    post: FullyPeekableIterator<I>,
    index: nat,
    r: Option<I::Item>,
) -> bool {
    &&& post.remaining() == pre.remaining()
    &&& post.buffered() == FullyPeekableIterator::<I>::fill_len(
        pre.buffered(),
        pre.remaining().len(),
        index + 1,
    )
    &&& post.source_remaining() == pre.remaining().skip(post.buffered() as int)
    &&& if index < pre.remaining().len() {
        r == Some(pre.remaining()[index as int])
    } else {
        r is None
    }
}

/// The buffered elements always form a prefix of the logical remaining
/// sequence, and the source still yields exactly the rest: no element is
/// skipped, duplicated, or reordered between the buffer and the source.
pub proof fn lemma_buffer_is_prefix<I: SequenceProducer>(s: &FullyPeekableIterator<I>)
    ensures
        s.buffered() <= s.remaining().len(),
        s.source_remaining() == s.remaining().skip(s.buffered() as int),
        s.remaining().len() == s.buffered() + s.source_remaining().len(),
{
    assert(s.source_remaining() =~= s.remaining().skip(s.buffered() as int));
}

/// An adapter trait that turns any sequence producer into a fully-peekable
/// wrapper around itself.
pub trait IntoFullyPeekableIterator: SequenceProducer {
    /// Wrap this producer in a fully-peekable adapter with an empty buffer.
    fn fully_peekable(self) -> (r: FullyPeekableIterator<Self>)
        ensures
            r.remaining() == self.remaining(),
            r.buffered() == 0,
            r.source_hint() == self.hint(),
    ;
}

impl<I: SequenceProducer> IntoFullyPeekableIterator for I {
    fn fully_peekable(self) -> (r: FullyPeekableIterator<I>) {
        FullyPeekableIterator::new(self)
    }
}

} // verus!
