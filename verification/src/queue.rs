//! The queue itself: a double-ended buffer that keeps the order, and a hash
//! set that answers membership, changed together by every operation.
//!
//! Each contract speaks of the queue's view, the sequence of its values
//! from the oldest to the newest. What depends on the order alone holds for
//! every `T`. What depends on the hash set (that a push skips a value
//! already held, what `contains` answers) is stated for the types of which
//! `obeys_key_model` holds.

use crate::model::{
    at, extend_unique, front, lemma_extend_unique, lemma_extend_unique_front, lemma_push_unique,
    lemma_swapped, lemma_without, lemma_without_front, push_unique, range_of, swapped, without,
    without_front,
};
use crate::std_calls::{deque_capacity, deque_range, deque_swap, size_hint_lower};
use std::collections::vec_deque::Iter;
use std::collections::HashSet;
use std::collections::VecDeque;
use std::hash::Hash;
use std::ops::Range;
use vstd::prelude::*;
use vstd::std_specs::hash::obeys_key_model;
use vstd::std_specs::iter::IteratorSpec;

verus! {

/// A FIFO queue with unique values.
///
/// Its view is the sequence of the values it holds, the one that has waited
/// longest first. The operations that change a queue ask for a well-formed
/// one ([`FIFOSet::wf`]) and leave it well-formed; every queue that the
/// constructors make is.
pub struct FIFOSet<T> {
    deq: VecDeque<T>,
    set: HashSet<T>,
}

impl<T> View for FIFOSet<T> {
    type V = Seq<T>;

    closed spec fn view(&self) -> Seq<T> {
        self.deq@
    }
}

impl<T> FIFOSet<T> {
    /// The values that the membership index holds.
    pub closed spec fn members(&self) -> Set<T> {
        self.set@
    }

    /// The invariant of the queue: no value occurs twice in the sequence,
    /// and the membership index holds exactly the values of the sequence.
    ///
    /// The index is a hash set, so this is owed only for a `T` whose `==`
    /// and hash go by the value itself (`obeys_key_model`, which vstd states
    /// of the primitive types).
    pub open spec fn wf(&self) -> bool {
        obeys_key_model::<T>() ==> {
            &&& self@.no_duplicates()
            &&& self.members() == self@.to_set()
        }
    }

    /// `q[i]` in specifications: the value at position `i`.
    pub open spec fn spec_index(&self, i: int) -> T
        recommends
            0 <= i < self@.len(),
    {
        self@[i]
    }
}

impl<T: Eq + Hash> FIFOSet<T> {
    /// An empty queue.
    pub fn new() -> (q: Self)
        ensures
            q.wf(),
            q@ == Seq::<T>::empty(),
            q.members() == Set::<T>::empty(),
    {
        let q = Self { deq: VecDeque::new(), set: HashSet::new() };
        assert(q.set@ =~= q.deq@.to_set());
        q
    }

    /// An empty queue with room for `capacity` values in both of its parts.
    pub fn with_capacity(capacity: usize) -> (q: Self)
        ensures
            q.wf(),
            q@ == Seq::<T>::empty(),
            q.members() == Set::<T>::empty(),
    {
        let q = Self {
            deq: VecDeque::with_capacity(capacity),
            set: HashSet::with_capacity(capacity),
        };
        assert(q.set@ =~= q.deq@.to_set());
        q
    }

    /// The value at position `index`, counted from the front; `None` where
    /// the queue has no such position.
    pub fn get(&self, index: usize) -> (r: Option<&T>)
        ensures
            index < self@.len() ==> r == Some(&self@[index as int]),
            index >= self@.len() ==> r is None,
    {
        if index < self.deq.len() {
            Some(&self.deq[index])
        } else {
            None
        }
    }

    /// Exchanges the values at positions `i` and `j`. The membership index
    /// is not touched. Where `i` or `j` is no position of the queue, nothing
    /// changes.
    pub fn swap(&mut self, i: usize, j: usize)
        requires
            old(self).wf(),
        ensures
            final(self).wf(),
            final(self)@ == swapped(old(self)@, i as int, j as int),
            final(self).members() == old(self).members(),
            forall|x: T| final(self)@.contains(x) <==> old(self)@.contains(x),
    {
        proof {
            lemma_swapped(self@, i as int, j as int);
        }
        let n: usize = self.deq.len();
        if i < n && j < n {
            deque_swap(&mut self.deq, i, j);
        }
    }

    /// The number of values the queue can hold without reallocating.
    pub fn capacity(&self) -> (capacity: usize)
        ensures
            capacity >= self@.len(),
    {
        deque_capacity(&self.deq)
    }

    /// Makes room for `additional` more values. What the queue holds stays
    /// as it is.
    pub fn reserve(&mut self, additional: usize)
        requires
            old(self).wf(),
        ensures
            final(self).wf(),
            final(self)@ == old(self)@,
            final(self).members() == old(self).members(),
    {
        self.deq.reserve(additional);
        self.set.reserve(additional);
    }

    /// An iterator over the values, oldest first. It borrows the queue, so
    /// the queue stays as it is while the iterator is in use.
    pub fn iter(&self) -> (it: Iter<'_, T>)
        ensures
            it.remaining() == self@.as_ref(),
            it.decrease() is Some,
            it.initial_value_relation(&it),
    {
        self.deq.iter()
    }

    /// The number of values in the queue.
    pub fn len(&self) -> (n: usize)
        ensures
            n == self@.len(),
    {
        self.deq.len()
    }

    /// Whether the queue holds no value.
    pub fn is_empty(&self) -> (b: bool)
        ensures
            b == (self@.len() == 0),
    {
        self.deq.len() == 0
    }

    /// An iterator over the values at the positions from `range.start` up
    /// to, not including, `range.end`, oldest first. A range that does not
    /// lie within the queue yields nothing.
    pub fn range(&self, range: Range<usize>) -> (it: Iter<'_, T>)
        ensures
            it.remaining() == range_of(self@, range.start as int, range.end as int).as_ref(),
            it.decrease() is Some,
            it.initial_value_relation(&it),
    {
        if range.start <= range.end && range.end <= self.deq.len() {
            deque_range(&self.deq, range)
        } else {
            deque_range(&self.deq, 0..0)
        }
    }

    /// Takes every value out of the queue.
    pub fn clear(&mut self)
        ensures
            final(self).wf(),
            final(self)@ == Seq::<T>::empty(),
            final(self).members() == Set::<T>::empty(),
            final(self)@.len() == 0,
            forall|v: T| !final(self)@.contains(v),
    {
        self.deq.clear();
        self.set.clear();
        assert(self.set@ =~= self.deq@.to_set());
    }

    /// Whether the queue holds `x`, as the membership index answers it.
    pub fn contains(&self, x: &T) -> (b: bool)
        ensures
            obeys_key_model::<T>() ==> b == self.members().contains(*x),
            obeys_key_model::<T>() && self.wf() ==> b == self@.contains(*x),
    {
        self.set.contains(x)
    }

    /// The value that has waited longest, left in place; `None` where the
    /// queue is empty.
    pub fn peek(&self) -> (r: Option<&T>)
        ensures
            self@.len() > 0 ==> r == Some(&self@[0]),
            self@.len() == 0 ==> r is None,
    {
        if self.deq.len() > 0 {
            Some(&self.deq[0])
        } else {
            None
        }
    }

    /// Retrieve the item that has been in the queue longest.
    pub fn pop(&mut self) -> (r: Option<T>)
        requires
            old(self).wf(),
        ensures
            final(self).wf(),
            r == front(old(self)@),
            final(self)@ == without_front(old(self)@),
            obeys_key_model::<T>() && r is Some ==> final(self).members() == old(
                self,
            ).members().remove(r.unwrap()),
            obeys_key_model::<T>() && r is None ==> final(self).members() == old(self).members(),
            obeys_key_model::<T>() ==> forall|x: T|
                final(self)@.contains(x) <==> (old(self)@.contains(x) && r != Some(x)),
    {
        proof {
            lemma_without_front(self@);
            if obeys_key_model::<T>() && self@.len() > 0 {
                lemma_without(self@, 0);
            }
        }
        let next = self.deq.pop_front();

        if let Some(value) = next.as_ref() {
            self.set.remove(value);
        }

        next
    }

    /// Takes out the value at position `index`, counted from the front, and
    /// returns it; the values behind it move down by one. `None`, and
    /// nothing changes, where the queue has no such position.
    pub fn remove(&mut self, index: usize) -> (r: Option<T>)
        requires
            old(self).wf(),
        ensures
            final(self).wf(),
            r == at(old(self)@, index as int),
            final(self)@ == without(old(self)@, index as int),
            r is Some ==> final(self)@.len() == old(self)@.len() - 1,
            forall|j: int|
                0 <= j < index && j < final(self)@.len() ==> final(self)@[j] == old(self)@[j],
            forall|j: int|
                index <= j < final(self)@.len() ==> final(self)@[j] == old(self)@[j + 1],
            obeys_key_model::<T>() && r is Some ==> final(self).members() == old(
                self,
            ).members().remove(r.unwrap()),
            obeys_key_model::<T>() && r is None ==> final(self).members() == old(self).members(),
            obeys_key_model::<T>() ==> forall|x: T|
                final(self)@.contains(x) <==> (old(self)@.contains(x) && r != Some(x)),
    {
        proof {
            if obeys_key_model::<T>() && index < self@.len() {
                lemma_without(self@, index as int);
            }
        }
        let removed = self.deq.remove(index);

        if let Some(value) = removed.as_ref() {
            self.set.remove(value);
        }

        removed
    }
}

impl<T: Copy + Eq + Hash> FIFOSet<T> {
    /// Add an item to the queue. A value that the queue already holds is
    /// not added again, and keeps its place.
    pub fn push(&mut self, element: T)
        requires
            old(self).wf(),
        ensures
            final(self).wf(),
            final(self)@ == old(self)@ || final(self)@ == old(self)@.push(element),
            obeys_key_model::<T>() ==> final(self)@ == push_unique(old(self)@, element),
            obeys_key_model::<T>() ==> final(self).members() == old(self).members().insert(element),
            obeys_key_model::<T>() ==> forall|x: T|
                final(self)@.contains(x) <==> (old(self)@.contains(x) || x == element),
    {
        proof {
            lemma_push_unique(self@, element);
        }
        if self.set.insert(element) {
            self.deq.push_back(element);
        }
    }

    /// Pushes the values that `iter` yields, in the order in which it
    /// yields them. The iterator has to be one that ends: it yields the
    /// values of `iter.remaining()` and then `None`.
    pub fn extend<I: Iterator<Item = T>>(&mut self, iter: I)
        requires
            old(self).wf(),
            iter.obeys_prophetic_iter_laws(),
            iter.decrease() is Some,
        ensures
            final(self).wf(),
            old(self)@.is_prefix_of(final(self)@),
            obeys_key_model::<T>() ==> final(self)@ == extend_unique(
                old(self)@,
                iter.remaining(),
            ),
            obeys_key_model::<T>() ==> forall|x: T|
                final(self)@.contains(x) <==> (old(self)@.contains(x) || iter.remaining().contains(
                    x,
                )),
    {
        proof {
            lemma_extend_unique(self@, iter.remaining());
        }
        let ghost start = self@;
        let ghost all = iter.remaining();
        let mut iter = iter;
        loop
            invariant
                iter.obeys_prophetic_iter_laws(),
                iter.decrease() is Some,
                self.wf(),
                start.is_prefix_of(self@),
                obeys_key_model::<T>() ==> extend_unique(self@, iter.remaining())
                    == extend_unique(start, all),
            ensures
                self.wf(),
                start.is_prefix_of(self@),
                obeys_key_model::<T>() ==> self@ == extend_unique(start, all),
            decreases iter.decrease()->0,
        {
            let ghost rest = iter.remaining();
            match iter.next() {
                Some(item) => {
                    proof {
                        lemma_extend_unique_front(self@, rest);
                    }
                    self.push(item);
                },
                None => {
                    break;
                },
            }
        }
    }

    /// A queue of the values that `iter` yields, each at the place of its
    /// first occurrence. The iterator has to be one that ends, as for
    /// [`FIFOSet::extend`]. Room is made at the start for as many values as
    /// the iterator announces.
    pub fn from_iter<I: Iterator<Item = T>>(iter: I) -> (q: Self)
        requires
            iter.obeys_prophetic_iter_laws(),
            iter.decrease() is Some,
        ensures
            q.wf(),
            obeys_key_model::<T>() ==> q@ == extend_unique(Seq::<T>::empty(), iter.remaining()),
            obeys_key_model::<T>() ==> forall|x: T| q@.contains(x) <==> iter.remaining().contains(x),
    {
        let lower: usize = size_hint_lower(&iter);
        let mut q = FIFOSet::with_capacity(lower);
        q.extend(iter);
        q
    }
}

impl<T> std::ops::Index<usize> for FIFOSet<T> {
    type Output = T;

    /// The value at position `index`, which must be a position of the
    /// queue.
    fn index(&self, index: usize) -> (r: &T)
        ensures
            *r == self@[index as int],
    {
        &self.deq[index]
    }
}

impl<T> vstd::std_specs::core::IndexSpecImpl<usize> for FIFOSet<T> {
    open spec fn index_req(&self, index: &usize) -> bool {
        *index < self@.len()
    }
}

impl<T> Default for FIFOSet<T> {
    /// An empty queue.
    fn default() -> (q: Self)
        ensures
            q.wf(),
            q@ == Seq::<T>::empty(),
            q.members() == Set::<T>::empty(),
    {
        let q = Self { deq: VecDeque::new(), set: HashSet::new() };
        assert(q.set@ =~= q.deq@.to_set());
        q
    }
}

} // verus!
