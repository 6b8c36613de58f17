//! Counting how often a value occurs in a sequence.

use vstd::prelude::*;

verus! {

/// How many times `x` occurs in `s`.
pub open spec fn occurrences<T>(s: Seq<T>, x: T) -> nat {
    s.to_multiset().count(x)
}

/// Nothing occurs in the empty sequence.
pub proof fn lemma_occurrences_empty<T>(x: T)
    ensures
        occurrences(Seq::<T>::empty(), x) == 0,
{
    broadcast use vstd::seq_lib::group_to_multiset_ensures;

    assert(Seq::<T>::empty().to_multiset().len() == 0);
}

/// Appending `y` adds one occurrence of `y` and of nothing else.
pub proof fn lemma_occurrences_push<T>(s: Seq<T>, y: T, x: T)
    ensures
        occurrences(s.push(y), x) == occurrences(s, x) + if y == x {
            1nat
        } else {
            0nat
        },
{
    broadcast use vstd::seq_lib::group_to_multiset_ensures;

}

/// Taking the element at `i` out removes one occurrence of it and of nothing
/// else.
pub proof fn lemma_occurrences_remove<T>(s: Seq<T>, i: int, x: T)
    requires
        0 <= i < s.len(),
    ensures
        occurrences(s.remove(i), x) == occurrences(s, x) - if s[i] == x {
            1int
        } else {
            0int
        },
{
    broadcast use vstd::seq_lib::group_to_multiset_ensures;

    assert(s.contains(s[i]));
}

/// Dropping the first element removes one occurrence of it and of nothing else.
pub proof fn lemma_occurrences_drop_first<T>(s: Seq<T>, x: T)
    requires
        s.len() > 0,
    ensures
        occurrences(s.drop_first(), x) == occurrences(s, x) - if s[0] == x {
            1int
        } else {
            0int
        },
{
    assert(s.drop_first() =~= s.remove(0));
    lemma_occurrences_remove(s, 0, x);
}

/// Replacing the element at `i` by `y` moves one occurrence from the old
/// element to `y`.
pub proof fn lemma_occurrences_update<T>(s: Seq<T>, i: int, y: T, x: T)
    requires
        0 <= i < s.len(),
    ensures
        occurrences(s.update(i, y), x) == occurrences(s, x) - (if s[i] == x {
            1int
        } else {
            0int
        }) + if y == x {
            1int
        } else {
            0int
        },
{
    broadcast use vstd::seq_lib::group_to_multiset_ensures;

    assert(s.update(i, y) =~= s.remove(i).insert(i, y));
    lemma_occurrences_remove(s, i, x);
}

/// A value occurs in a sequence exactly if some position holds it.
pub proof fn lemma_occurrences_positive<T>(s: Seq<T>, x: T)
    ensures
        occurrences(s, x) > 0 <==> s.contains(x),
{
    broadcast use vstd::seq_lib::group_to_multiset_ensures;

}

/// No value occurs more often than the sequence is long, and one that is not
/// at every position occurs less often than that.
pub proof fn lemma_occurrences_at_most_len<T>(s: Seq<T>, x: T)
    ensures
        occurrences(s, x) <= s.len(),
        (exists|i: int| 0 <= i < s.len() && s[i] != x) ==> occurrences(s, x) < s.len(),
    decreases s.len(),
{
    if s.len() == 0 {
        assert(s =~= Seq::<T>::empty());
        lemma_occurrences_empty(x);
    } else {
        let rest = s.drop_last();
        lemma_occurrences_at_most_len(rest, x);
        assert(s =~= rest.push(s.last()));
        lemma_occurrences_push(rest, s.last(), x);
        if exists|i: int| 0 <= i < s.len() && s[i] != x {
            let i = choose|i: int| 0 <= i < s.len() && s[i] != x;
            if i < rest.len() {
                assert(rest[i] != x);
            }
        }
    }
}

/// If every position holds `x`, it occurs as often as the sequence is long.
pub proof fn lemma_occurrences_all<T>(s: Seq<T>, x: T)
    requires
        forall|i: int| 0 <= i < s.len() ==> s[i] == x,
    ensures
        occurrences(s, x) == s.len(),
    decreases s.len(),
{
    if s.len() == 0 {
        assert(s =~= Seq::<T>::empty());
        lemma_occurrences_empty(x);
    } else {
        let rest = s.drop_last();
        lemma_occurrences_all(rest, x);
        assert(s =~= rest.push(s.last()));
        lemma_occurrences_push(rest, s.last(), x);
    }
}

} // verus!
