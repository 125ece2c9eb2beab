//! What holds of every queue, whatever was pushed and popped: stated over
//! the model and proved once, for callers to rely on.

use crate::model::{
    after_pops, at, extend_unique, front, lemma_extend_unique, push_unique, without,
    without_front,
};
use crate::queue::FIFOSet;
use vstd::prelude::*;
use vstd::std_specs::hash::obeys_key_model;

verus! {

/// After a run of pushes into an empty queue, the queue holds as many
/// values as the run has distinct ones, none of them twice, and it holds a
/// value exactly if the run pushed it.
pub proof fn lemma_pushes_keep_distinct<T>(items: Seq<T>)
    ensures
        extend_unique(Seq::<T>::empty(), items).no_duplicates(),
        extend_unique(Seq::<T>::empty(), items).len() == items.to_set().len(),
        forall|v: T| extend_unique(Seq::<T>::empty(), items).contains(v) <==> items.contains(v),
{
    let r = extend_unique(Seq::<T>::empty(), items);
    lemma_extend_unique(Seq::<T>::empty(), items);
    assert(r.to_set() =~= items.to_set());
    r.unique_seq_to_set();
}

/// A run of pushes in which no value comes twice is held as it was pushed.
pub proof fn lemma_distinct_pushes_keep_order<T>(items: Seq<T>)
    requires
        items.no_duplicates(),
    ensures
        extend_unique(Seq::<T>::empty(), items) == items,
    decreases items.len(),
{
    if items.len() > 0 {
        lemma_distinct_pushes_keep_order(items.drop_last());
    }
}

/// `n` pops take the first `n` values, or all of them where there are
/// fewer.
pub proof fn lemma_after_pops<T>(s: Seq<T>, n: nat)
    ensures
        n <= s.len() ==> after_pops(s, n) == s.skip(n as int),
        n >= s.len() ==> after_pops(s, n) == Seq::<T>::empty(),
    decreases n,
{
    if n > 0 {
        lemma_after_pops(s, (n - 1) as nat);
    }
}

/// First in, first out: where no value was pushed twice, the values come
/// out in the order in which they went in. The pop that follows `k` earlier
/// ones returns the value of push number `k`, and once there were as many
/// pops as pushes a pop returns nothing.
pub proof fn lemma_fifo_order<T>(items: Seq<T>, k: nat)
    requires
        items.no_duplicates(),
    ensures
        k < items.len() ==> front(after_pops(extend_unique(Seq::<T>::empty(), items), k)) == Some(
            items[k as int],
        ),
        k >= items.len() ==> front(after_pops(extend_unique(Seq::<T>::empty(), items), k))
            is None,
{
    lemma_distinct_pushes_keep_order(items);
    lemma_after_pops(items, k);
}

/// A second push of the same value changes nothing: not the length, not
/// the order, not the value at any position.
pub proof fn lemma_push_twice<T>(s: Seq<T>, v: T)
    ensures
        push_unique(push_unique(s, v), v) == push_unique(s, v),
        push_unique(push_unique(s, v), v).len() == push_unique(s, v).len(),
        forall|i: int| at(push_unique(push_unique(s, v), v), i) == at(push_unique(s, v), i),
{
    let once = push_unique(s, v);
    if !s.contains(v) {
        assert(once[s.len() as int] == v);
    }
}

/// The invariant, read both ways: the sequence and the membership index
/// have the same number of values, and a value is in one exactly if it is
/// in the other.
pub proof fn lemma_invariant_round_trip<T>(q: FIFOSet<T>)
    requires
        q.wf(),
        obeys_key_model::<T>(),
    ensures
        q@.no_duplicates(),
        q.members().finite(),
        q.members().len() == q@.len(),
        forall|v: T| q.members().contains(v) <==> q@.contains(v),
{
    q@.unique_seq_to_set();
    vstd::seq_lib::seq_to_set_is_finite(q@);
}

/// Taking out the value at a position `i` of the queue makes the queue
/// shorter by one, and what was at `j + 1` is at `j` afterwards for every
/// `j` from `i` on; in front of `i` nothing moves.
pub proof fn lemma_remove_shifts<T>(s: Seq<T>, i: int, j: int)
    requires
        0 <= i < s.len(),
    ensures
        without(s, i).len() == s.len() - 1,
        j >= i ==> at(without(s, i), j) == at(s, j + 1),
        j < i ==> at(without(s, i), j) == at(s, j),
{
}

} // verus!
