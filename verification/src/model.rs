//! The queue as mathematics: a sequence, oldest value first, in which no
//! value occurs twice. Every contract of the queue is stated over the
//! functions of this module.

use vstd::prelude::*;

verus! {

/// `s` with `v` appended at the back, unless `s` already holds `v`.
pub open spec fn push_unique<T>(s: Seq<T>, v: T) -> Seq<T> {
    if s.contains(v) {
        s
    } else {
        s.push(v)
    }
}

/// `s` after the values of `items` were pushed one by one, first to last.
pub open spec fn extend_unique<T>(s: Seq<T>, items: Seq<T>) -> Seq<T>
    decreases items.len(),
{
    if items.len() == 0 {
        s
    } else {
        push_unique(extend_unique(s, items.drop_last()), items.last())
    }
}

/// The value that has waited longest, if there is one.
pub open spec fn front<T>(s: Seq<T>) -> Option<T> {
    if s.len() == 0 {
        None
    } else {
        Some(s[0])
    }
}

/// `s` without its front; an empty `s` stays as it is.
pub open spec fn without_front<T>(s: Seq<T>) -> Seq<T> {
    if s.len() == 0 {
        s
    } else {
        s.subrange(1, s.len() as int)
    }
}

/// `s` after `n` pops.
pub open spec fn after_pops<T>(s: Seq<T>, n: nat) -> Seq<T>
    decreases n,
{
    if n == 0 {
        s
    } else {
        without_front(after_pops(s, (n - 1) as nat))
    }
}

/// The value at position `i`, if `i` is a position of `s`.
pub open spec fn at<T>(s: Seq<T>, i: int) -> Option<T> {
    if 0 <= i < s.len() {
        Some(s[i])
    } else {
        None
    }
}

/// `s` without the value at position `i`, the later values moved down by
/// one; `s` itself where `i` is no position of `s`.
pub open spec fn without<T>(s: Seq<T>, i: int) -> Seq<T> {
    if 0 <= i < s.len() {
        s.remove(i)
    } else {
        s
    }
}

/// `s` with the values at positions `i` and `j` exchanged; `s` itself where
/// one of the two is no position of `s`.
pub open spec fn swapped<T>(s: Seq<T>, i: int, j: int) -> Seq<T> {
    if 0 <= i < s.len() && 0 <= j < s.len() {
        s.update(i, s[j]).update(j, s[i])
    } else {
        s
    }
}

/// The values of `s` at the positions from `start` up to, not including,
/// `end`; nothing where these do not lie within `s`.
pub open spec fn range_of<T>(s: Seq<T>, start: int, end: int) -> Seq<T> {
    if 0 <= start <= end <= s.len() {
        s.subrange(start, end)
    } else {
        Seq::empty()
    }
}

/// Pushing keeps a sequence free of repeated values, and adds the pushed
/// value to the set of values it holds.
pub proof fn lemma_push_unique<T>(s: Seq<T>, v: T)
    ensures
        s.no_duplicates() ==> push_unique(s, v).no_duplicates(),
        push_unique(s, v).to_set() == s.to_set().insert(v),
        push_unique(s, v).contains(v),
        forall|x: T| push_unique(s, v).contains(x) <==> (s.contains(x) || x == v),
{
    let r = push_unique(s, v);
    assert forall|x: T| r.contains(x) <==> (s.contains(x) || x == v) by {
        if !s.contains(v) {
            if s.contains(x) {
                let k: int = choose|k: int| 0 <= k < s.len() && s[k] == x;
                assert(r[k] == x);
            }
            assert(r[s.len() as int] == v);
        }
    }
}

/// Pushing the first of `items` and then the rest is pushing all of them.
pub proof fn lemma_extend_unique_front<T>(s: Seq<T>, items: Seq<T>)
    requires
        items.len() > 0,
    ensures
        extend_unique(s, items) == extend_unique(push_unique(s, items[0]), items.drop_first()),
    decreases items.len(),
{
    let first = push_unique(s, items[0]);
    let rest = items.drop_first();
    if items.len() == 1 {
        assert(extend_unique(s, items.drop_last()) == s);
        assert(extend_unique(first, rest) == first);
    } else {
        lemma_extend_unique_front(s, items.drop_last());
        assert(items.drop_last().drop_first() == rest.drop_last());
        assert(rest.last() == items.last());
    }
}

/// What a run of pushes leaves: `s` in front, no value twice, and
/// exactly the values of `s` and of `items`.
pub proof fn lemma_extend_unique<T>(s: Seq<T>, items: Seq<T>)
    ensures
        s.no_duplicates() ==> extend_unique(s, items).no_duplicates(),
        s.is_prefix_of(extend_unique(s, items)),
        forall|x: T| extend_unique(s, items).contains(x) <==> (s.contains(x) || items.contains(x)),
        extend_unique(s, items).to_set() == s.to_set().union(items.to_set()),
    decreases items.len(),
{
    if items.len() > 0 {
        let head = items.drop_last();
        lemma_extend_unique(s, head);
        lemma_push_unique(extend_unique(s, head), items.last());
        assert forall|x: T| items.contains(x) <==> (head.contains(x) || x == items.last()) by {
            if items.contains(x) {
                let k: int = choose|k: int| 0 <= k < items.len() && items[k] == x;
                if k < head.len() {
                    assert(head[k] == x);
                }
            }
        }
    }
}

/// Taking a value out keeps a sequence free of repeated values, and takes
/// that value out of the set of values it holds.
pub proof fn lemma_without<T>(s: Seq<T>, i: int)
    requires
        s.no_duplicates(),
        0 <= i < s.len(),
    ensures
        without(s, i).no_duplicates(),
        without(s, i).len() == s.len() - 1,
        !without(s, i).contains(s[i]),
        without(s, i).to_set() == s.to_set().remove(s[i]),
        forall|x: T| without(s, i).contains(x) <==> (s.contains(x) && x != s[i]),
{
    let r = without(s, i);
    assert forall|x: T| r.contains(x) <==> (s.contains(x) && x != s[i]) by {
        if s.contains(x) && x != s[i] {
            let k: int = choose|k: int| 0 <= k < s.len() && s[k] == x;
            if k < i {
                assert(r[k] == x);
            } else {
                assert(r[k - 1] == x);
            }
        }
    }
}

/// A pop is the removal at position 0.
pub proof fn lemma_without_front<T>(s: Seq<T>)
    ensures
        without_front(s) == without(s, 0),
{
}

/// Exchanging two values keeps a sequence free of repeated values and
/// leaves the set of values it holds as it is.
pub proof fn lemma_swapped<T>(s: Seq<T>, i: int, j: int)
    ensures
        swapped(s, i, j).len() == s.len(),
        s.no_duplicates() ==> swapped(s, i, j).no_duplicates(),
        forall|x: T| swapped(s, i, j).contains(x) <==> s.contains(x),
        swapped(s, i, j).to_set() == s.to_set(),
{
    if 0 <= i < s.len() && 0 <= j < s.len() {
        let r = swapped(s, i, j);
        let p = |k: int|
            if k == i {
                j
            } else if k == j {
                i
            } else {
                k
            };
        assert forall|k: int| 0 <= k < s.len() implies #[trigger] r[k] == s[p(k)] by {}
        assert forall|x: T| r.contains(x) <==> s.contains(x) by {
            if s.contains(x) {
                let k: int = choose|k: int| 0 <= k < s.len() && s[k] == x;
                assert(r[p(k)] == x);
            }
        }
    }
}

} // verus!
