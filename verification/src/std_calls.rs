//! The functions of the standard library that the queue calls and that
//! vstd gives no contract. Each function here makes one such call; Verus
//! takes its contract on trust.

use std::collections::vec_deque::Iter;
use std::collections::VecDeque;
use std::ops::Range;
use vstd::prelude::*;
use vstd::std_specs::iter::IteratorSpec;

verus! {

/// `VecDeque::swap`: exchanges the values at positions `i` and `j` and
/// touches nothing else. The standard library panics when `i` or `j` is out
/// of bounds, so both are required to be positions of the deque.
#[verifier::external_body]
pub(crate) fn deque_swap<T>(deq: &mut VecDeque<T>, i: usize, j: usize)
    requires
        i < old(deq)@.len(),
        j < old(deq)@.len(),
    ensures
        final(deq)@ == old(deq)@.update(i as int, old(deq)@[j as int]).update(
            j as int,
            old(deq)@[i as int],
        ),
{
    deq.swap(i, j)
}

/// `VecDeque::capacity`: the number of values the deque can hold without
/// reallocating. All that is claimed is that the values it holds now are
/// among them.
#[verifier::external_body]
pub(crate) fn deque_capacity<T>(deq: &VecDeque<T>) -> (capacity: usize)
    ensures
        capacity >= deq@.len(),
{
    deq.capacity()
}

/// `VecDeque::range`: a fresh iterator over the values at the positions of
/// `range`, in order. The standard library panics when the range starts
/// after its end or ends after the deque's length, so neither is admitted.
/// The last two clauses say of this iterator what vstd says of the one that
/// `VecDeque::iter` returns: it comes to an end, and nothing was taken from
/// it yet.
#[verifier::external_body]
pub(crate) fn deque_range<T>(deq: &VecDeque<T>, range: Range<usize>) -> (it: Iter<'_, T>)
    requires
        range.start <= range.end <= deq@.len(),
    ensures
        it.remaining() == deq@.subrange(range.start as int, range.end as int).as_ref(),
        it.decrease() is Some,
        it.initial_value_relation(&it),
{
    deq.range(range)
}

/// `Iterator::size_hint`: the lower of the two bounds on how many values
/// `iter` will still yield. An iterator may answer anything here, so nothing
/// is claimed of the result.
#[verifier::external_body]
pub(crate) fn size_hint_lower<I: Iterator>(iter: &I) -> usize {
    iter.size_hint().0
}

} // verus!
