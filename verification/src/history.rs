//! Histories: what the queue holds after any finite run of the operations
//! that add or take values, starting from the empty queue.

use crate::model::{
    at, front, lemma_push_unique, lemma_without, lemma_without_front, push_unique, without,
    without_front,
};
use vstd::prelude::*;

verus! {

/// One operation that adds or takes values. The queue's `push`, `pop`,
/// `remove` and `clear` do to its view what [`apply`] says of these.
pub enum Step<T> {
    Push(T),
    Pop,
    Remove(usize),
    Clear,
}

/// The sequence that `step` makes of `s`.
pub open spec fn apply<T>(s: Seq<T>, step: Step<T>) -> Seq<T> {
    match step {
        Step::Push(v) => push_unique(s, v),
        Step::Pop => without_front(s),
        Step::Remove(index) => without(s, index as int),
        Step::Clear => Seq::empty(),
    }
}

/// The membership index that `step` makes of `m`, where the sequence is `s`
/// before the step: a push inserts its value, a pop or a removal removes
/// the value it takes, if it takes one.
pub open spec fn apply_to_index<T>(m: Set<T>, s: Seq<T>, step: Step<T>) -> Set<T> {
    match step {
        Step::Push(v) => m.insert(v),
        Step::Pop => match front(s) {
            Some(v) => m.remove(v),
            None => m,
        },
        Step::Remove(index) => match at(s, index as int) {
            Some(v) => m.remove(v),
            None => m,
        },
        Step::Clear => Set::empty(),
    }
}

/// Whether `step`, done on `s`, takes `v` out.
pub open spec fn takes<T>(s: Seq<T>, step: Step<T>, v: T) -> bool {
    match step {
        Step::Push(_) => false,
        Step::Pop => front(s) == Some(v),
        Step::Remove(index) => at(s, index as int) == Some(v),
        Step::Clear => s.contains(v),
    }
}

/// What the queue holds after the steps of `steps`, done first to last on
/// an empty queue.
pub open spec fn run<T>(steps: Seq<Step<T>>) -> Seq<T>
    decreases steps.len(),
{
    if steps.len() == 0 {
        Seq::empty()
    } else {
        apply(run(steps.drop_last()), steps.last())
    }
}

/// What the membership index holds after the steps of `steps`, done first
/// to last on an empty queue.
pub open spec fn run_index<T>(steps: Seq<Step<T>>) -> Set<T>
    decreases steps.len(),
{
    if steps.len() == 0 {
        Set::empty()
    } else {
        apply_to_index(run_index(steps.drop_last()), run(steps.drop_last()), steps.last())
    }
}

/// Step number `i` pushes `v`, and no later step takes `v` out.
pub open spec fn pushed_and_kept<T>(steps: Seq<Step<T>>, v: T, i: int) -> bool {
    &&& 0 <= i < steps.len()
    &&& steps[i] == Step::Push(v)
    &&& forall|j: int| i < j < steps.len() ==> !#[trigger] takes(run(steps.take(j)), steps[j], v)
}

/// One step keeps a sequence free of repeated values, and the values it
/// holds afterwards are those it held and the step did not take, and the
/// one the step pushed.
pub proof fn lemma_apply<T>(s: Seq<T>, step: Step<T>)
    requires
        s.no_duplicates(),
    ensures
        apply(s, step).no_duplicates(),
        forall|v: T|
            apply(s, step).contains(v) <==> (step == Step::Push(v) || (s.contains(v) && !takes(
                s,
                step,
                v,
            ))),
{
    match step {
        Step::Push(w) => {
            lemma_push_unique(s, w);
        },
        Step::Pop => {
            lemma_without_front(s);
            if s.len() > 0 {
                lemma_without(s, 0);
            }
        },
        Step::Remove(index) => {
            if index < s.len() {
                lemma_without(s, index as int);
            }
        },
        Step::Clear => {},
    }
}

/// Whatever the steps, no value occurs twice in what the queue holds
/// after them.
pub proof fn lemma_run_no_duplicates<T>(steps: Seq<Step<T>>)
    ensures
        run(steps).no_duplicates(),
    decreases steps.len(),
{
    if steps.len() > 0 {
        lemma_run_no_duplicates(steps.drop_last());
        lemma_apply(run(steps.drop_last()), steps.last());
    }
}

/// Whatever the steps, the sequence and the membership index stay in step:
/// after them the index holds exactly the values of the sequence, and as
/// many.
pub proof fn lemma_run_index<T>(steps: Seq<Step<T>>)
    ensures
        run_index(steps) == run(steps).to_set(),
        run_index(steps).finite(),
        run_index(steps).len() == run(steps).len(),
        forall|v: T| run_index(steps).contains(v) <==> run(steps).contains(v),
    decreases steps.len(),
{
    if steps.len() > 0 {
        let before = run(steps.drop_last());
        lemma_run_index(steps.drop_last());
        lemma_run_no_duplicates(steps.drop_last());
        lemma_apply(before, steps.last());
    }
    lemma_run_no_duplicates(steps);
    run(steps).unique_seq_to_set();
    vstd::seq_lib::seq_to_set_is_finite(run(steps));
}

/// After a clear the queue holds nothing, whatever it held before.
pub proof fn lemma_clear_resets<T>(steps: Seq<Step<T>>)
    ensures
        run(steps.push(Step::Clear)).len() == 0,
        run_index(steps.push(Step::Clear)) == Set::<T>::empty(),
        forall|v: T| !run(steps.push(Step::Clear)).contains(v),
{
}

/// After any steps, the queue holds `v` exactly if some step pushed `v`
/// and no step after that one took `v` out.
pub proof fn lemma_held_iff_pushed_and_kept<T>(steps: Seq<Step<T>>, v: T)
    ensures
        run(steps).contains(v) <==> exists|i: int| pushed_and_kept(steps, v, i),
    decreases steps.len(),
{
    if steps.len() > 0 {
        let n: int = steps.len() - 1;
        let head = steps.drop_last();
        let last = steps.last();
        let before = run(head);
        lemma_held_iff_pushed_and_kept(head, v);
        lemma_run_no_duplicates(head);
        lemma_apply(before, last);
        assert forall|j: int| 0 <= j < n implies #[trigger] steps.take(j) == head.take(j) by {}
        if run(steps).contains(v) {
            if last == Step::Push(v) {
                assert(pushed_and_kept(steps, v, n));
            } else {
                let i: int = choose|i: int| pushed_and_kept(head, v, i);
                assert forall|j: int| i < j < steps.len() implies !#[trigger] takes(
                    run(steps.take(j)),
                    steps[j],
                    v,
                ) by {
                    if j < n {
                        assert(!takes(run(head.take(j)), head[j], v));
                    }
                }
                assert(pushed_and_kept(steps, v, i));
            }
        }
        if exists|i: int| pushed_and_kept(steps, v, i) {
            let i: int = choose|i: int| pushed_and_kept(steps, v, i);
            if i < n {
                assert forall|j: int| i < j < head.len() implies !#[trigger] takes(
                    run(head.take(j)),
                    head[j],
                    v,
                ) by {
                    assert(!takes(run(steps.take(j)), steps[j], v));
                }
                assert(pushed_and_kept(head, v, i));
            }
        }
    }
}

} // verus!
