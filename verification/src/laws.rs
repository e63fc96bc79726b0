//! Laws of the lookahead adapter, stated over the model and proved once and
//! for all: consumption preserves order whatever peeking is interleaved,
//! peeking is idempotent, and the size estimate tracks consumption exactly
//! over a source whose own estimate is exact.

use crate::peekable::FullyPeekableIterator;
use crate::peekable::advance_effect;
use crate::peekable::lemma_buffer_is_prefix;
use crate::peekable::lift_effect;
use crate::source::SequenceProducer;
use vstd::prelude::*;

verus! {

/// How many of the flags in `flags` are set.
pub open spec fn count_set(flags: Seq<bool>) -> int
    decreases flags.len(),
{
    if flags.len() == 0 {
        0
    } else {
        count_set(flags.drop_last()) + if flags.last() {
            1int
        } else {
            0int
        }
    }
}

/// `c`, capped at `n`.
pub open spec fn capped(c: int, n: int) -> int {
    if c <= n {
        c
    } else {
        n
    }
}

/// After `k` steps, of which each is either a consuming step obeying
/// `advance_effect` or a step that leaves the logical sequence unchanged,
/// the logical sequence is the initial one with one element dropped per
/// consuming step, until exhaustion.
pub proof fn lemma_remaining_after_steps<I: SequenceProducer>(
    states: Seq<FullyPeekableIterator<I>>,
    outs: Seq<Option<I::Item>>,
    is_advance: Seq<bool>,
    k: int,
)
    requires
        states.len() == outs.len() + 1,
        is_advance.len() == outs.len(),
        forall|i: int|
            0 <= i < outs.len() ==> if is_advance[i] {
                advance_effect(states[i], states[i + 1], outs[i])
            } else {
                states[i + 1].remaining() == states[i].remaining()
            },
        0 <= k < states.len(),
    ensures
        states[k].remaining() == states[0].remaining().skip(
            capped(count_set(is_advance.take(k)), states[0].remaining().len() as int),
        ),
    decreases k,
{
    let s0 = states[0].remaining();
    let n = s0.len() as int;
    if k == 0 {
        assert(count_set(is_advance.take(0)) == 0);
        assert(s0.skip(0) =~= s0);
    } else {
        lemma_remaining_after_steps(states, outs, is_advance, k - 1);
        let c1 = count_set(is_advance.take(k - 1));
        let c2 = count_set(is_advance.take(k));
        assert(is_advance.take(k).drop_last() =~= is_advance.take(k - 1));
        assert(is_advance.take(k).last() == is_advance[k - 1]);
        assert(c2 == c1 + if is_advance[k - 1] {
            1int
        } else {
            0int
        });
        assert(0 <= c1) by {
            lemma_count_set_bounds(is_advance.take(k - 1));
        }
        if is_advance[k - 1] {
            let cc1 = capped(c1, n);
            if states[k - 1].remaining().len() == 0 {
                assert(s0.skip(cc1).len() == 0);
                assert(capped(c2, n) == n);
                assert(states[k].remaining() == s0.skip(cc1));
                assert(s0.skip(cc1) =~= s0.skip(n));
            } else {
                assert(s0.skip(cc1).len() > 0);
                assert(cc1 < n);
                assert(states[k].remaining() == s0.skip(cc1).drop_first());
                assert(s0.skip(cc1).drop_first() =~= s0.skip(cc1 + 1));
                assert(capped(c2, n) == cc1 + 1);
            }
        }
    }
}

/// The count of set flags lies between zero and the number of flags.
pub proof fn lemma_count_set_bounds(flags: Seq<bool>)
    ensures
        0 <= count_set(flags) <= flags.len(),
    decreases flags.len(),
{
    if flags.len() > 0 {
        lemma_count_set_bounds(flags.drop_last());
    }
}

/// Order preservation: over any run of steps, each either a consuming step
/// obeying `advance_effect` or a step that leaves the logical sequence
/// unchanged (as every peeking operation does by its contract), the
/// consuming steps yield exactly the elements of the initial logical
/// sequence, in their original order, and `None` once it is exhausted.
pub proof fn lemma_order_preservation<I: SequenceProducer>(
    states: Seq<FullyPeekableIterator<I>>,
    outs: Seq<Option<I::Item>>,
    is_advance: Seq<bool>,
)
    requires
        states.len() == outs.len() + 1,
        is_advance.len() == outs.len(),
        forall|i: int|
            0 <= i < outs.len() ==> if is_advance[i] {
                advance_effect(states[i], states[i + 1], outs[i])
            } else {
                states[i + 1].remaining() == states[i].remaining()
            },
    ensures
        forall|i: int|
            0 <= i < outs.len() && is_advance[i] ==> #[trigger] outs[i] == if count_set(
                is_advance.take(i),
            ) < states[0].remaining().len() {
                Some(states[0].remaining()[count_set(is_advance.take(i))])
            } else {
                None
            },
        states.last().remaining() == states[0].remaining().skip(
            capped(count_set(is_advance), states[0].remaining().len() as int),
        ),
{
    let s0 = states[0].remaining();
    let n = s0.len() as int;
    assert forall|i: int| 0 <= i < outs.len() && is_advance[i] implies #[trigger] outs[i]
        == if count_set(is_advance.take(i)) < n {
        Some(s0[count_set(is_advance.take(i))])
    } else {
        None
    } by {
        lemma_remaining_after_steps(states, outs, is_advance, i);
        lemma_count_set_bounds(is_advance.take(i));
        let c = count_set(is_advance.take(i));
        assert(states[i].remaining() == s0.skip(capped(c, n)));
        if c < n {
            assert(s0.skip(c).len() > 0);
            assert(outs[i] == Some(s0.skip(c)[0]));
            assert(s0.skip(c)[0] == s0[c]);
        } else {
            assert(s0.skip(n).len() == 0);
        }
    }
    lemma_remaining_after_steps(states, outs, is_advance, states.len() - 1);
    assert(is_advance.take(is_advance.len() as int) =~= is_advance);
}

/// The count of set flags in a prefix of an all-set sequence is the length
/// of the prefix.
pub proof fn lemma_count_set_all(flags: Seq<bool>)
    requires
        forall|i: int| 0 <= i < flags.len() ==> flags[i],
    ensures
        count_set(flags) == flags.len(),
    decreases flags.len(),
{
    if flags.len() > 0 {
        lemma_count_set_all(flags.drop_last());
    }
}

/// Draining: a run of consuming steps alone, long enough to exhaust the
/// initial logical sequence, yields exactly that sequence in order, then
/// `None` forever after.
pub proof fn lemma_drain_yields_all<I: SequenceProducer>(
    states: Seq<FullyPeekableIterator<I>>,
    outs: Seq<Option<I::Item>>,
)
    requires
        states.len() == outs.len() + 1,
        forall|i: int| 0 <= i < outs.len() ==> advance_effect(states[i], states[i + 1], outs[i]),
        outs.len() >= states[0].remaining().len(),
    ensures
        forall|i: int|
            0 <= i < states[0].remaining().len() ==> #[trigger] outs[i] == Some(
                states[0].remaining()[i],
            ),
        forall|i: int|
            states[0].remaining().len() <= i < outs.len() ==> #[trigger] outs[i] is None,
        states.last().remaining().len() == 0,
{
    let all = Seq::<bool>::new(outs.len(), |i: int| true);
    lemma_order_preservation(states, outs, all);
    assert forall|i: int| 0 <= i <= outs.len() implies #[trigger] count_set(all.take(i)) == i by {
        lemma_count_set_all(all.take(i));
    }
    assert(count_set(all.take(outs.len() as int)) == outs.len());
    assert(all.take(all.len() as int) =~= all);
}

/// Peek idempotence: a second `lift` of the same index, with nothing
/// consumed in between, returns the same value and changes nothing of the
/// model; and a single `lift` of index `k` never buffers beyond `k + 1`
/// elements, so the source is pulled at most `k + 1` times in total.
pub proof fn lemma_peek_idempotent<I: SequenceProducer>(
    s0: FullyPeekableIterator<I>,
    s1: FullyPeekableIterator<I>,
    s2: FullyPeekableIterator<I>,
    k: nat,
    r1: Option<I::Item>,
    r2: Option<I::Item>,
)
    requires
        lift_effect(s0, s1, k, r1),
        lift_effect(s1, s2, k, r2),
    ensures
        r2 == r1,
        s2.remaining() == s1.remaining(),
        s2.buffered() == s1.buffered(),
        s2.source_remaining() == s1.source_remaining(),
        s1.buffered() <= s0.buffered() || s1.buffered() <= k + 1,
{
}

/// Size estimate consistency: over a source whose estimate is exact, the
/// wrapper's estimate is exactly the length of its logical remaining
/// sequence, however that length is split between buffer and source; so
/// after any number of consumed elements, the bounds both equal what is
/// left.
pub proof fn lemma_size_estimate_consistency<I: SequenceProducer>(s: FullyPeekableIterator<I>)
    requires
        s.source_hint().0 == s.source_remaining().len(),
        s.source_hint().1 == Some(s.source_hint().0),
        s.remaining().len() <= usize::MAX,
    ensures
        s.spec_size_hint().0 == s.remaining().len(),
        s.spec_size_hint().1 == Some(s.spec_size_hint().0),
{
    lemma_buffer_is_prefix(&s);
}

} // verus!
