//! Lists of indices with at most one entry per member.

use vstd::prelude::*;

verus! {

/// Index of the first occurrence of `x` at or after `from`; the length of
/// the list if there is none.
pub open spec fn position(s: Seq<usize>, x: usize, from: int) -> int
    decreases s.len() - from,
{
    if from < 0 || from >= s.len() {
        s.len() as int
    } else if s[from] == x {
        from
    } else {
        position(s, x, from + 1)
    }
}

/// The list without the first occurrence of `x`.
pub open spec fn without(s: Seq<usize>, x: usize) -> Seq<usize> {
    if position(s, x, 0) < s.len() {
        s.remove(position(s, x, 0))
    } else {
        s
    }
}

/// A search result is the length of the list or the index of the first occurrence.
pub proof fn lemma_position(s: Seq<usize>, x: usize, from: int)
    requires
        0 <= from <= s.len(),
    ensures
        from <= position(s, x, from) <= s.len(),
        position(s, x, from) < s.len() ==> s[position(s, x, from)] == x,
        forall|j: int| from <= j < position(s, x, from) ==> s[j] != x,
    decreases s.len() - from,
{
    if from < s.len() && s[from] != x {
        lemma_position(s, x, from + 1);
    }
}

/// Taking a member out of a list without repetitions leaves a list that
/// does not hold it, so taking it out again changes nothing.
pub proof fn lemma_without_idempotent(s: Seq<usize>, x: usize)
    requires
        s.no_duplicates(),
    ensures
        !without(s, x).contains(x),
        without(without(s, x), x) == without(s, x),
        without(s, x).no_duplicates(),
        forall|y: usize| y != x ==> without(s, x).contains(y) == s.contains(y),
{
    lemma_position(s, x, 0);
    let i = position(s, x, 0);
    let w = without(s, x);
    if i < s.len() {
        assert forall|j: int| 0 <= j < w.len() implies w[j] != x by {
            let oj = if j < i { j } else { j + 1 };
            assert(w[j] == s[oj]);
        }
        assert forall|a: int, b: int| 0 <= a < w.len() && 0 <= b < w.len() && a != b implies w[a]
            != w[b] by {
            let oa = if a < i { a } else { a + 1 };
            let ob = if b < i { b } else { b + 1 };
            assert(w[a] == s[oa] && w[b] == s[ob]);
        }
        assert forall|y: usize| y != x implies w.contains(y) == s.contains(y) by {
            if s.contains(y) {
                let k = choose|k: int| 0 <= k < s.len() && s[k] == y;
                let nk = if k < i { k } else { k - 1 };
                assert(w[nk] == y);
            }
            if w.contains(y) {
                let k = choose|k: int| 0 <= k < w.len() && w[k] == y;
                let ok = if k < i { k } else { k + 1 };
                assert(s[ok] == y);
            }
        }
    } else {
        assert forall|j: int| 0 <= j < w.len() implies w[j] != x by {}
    }
    lemma_position(w, x, 0);
    assert(position(w, x, 0) == w.len()) by {
        if position(w, x, 0) < w.len() {
            assert(w[position(w, x, 0)] == x);
        }
    }
}

/// Finds the first occurrence of `x`.
pub fn find(v: &Vec<usize>, x: usize) -> (r: Option<usize>)
    ensures
        r.is_some() == (position(v@, x, 0) < v@.len()),
        r.is_some() ==> r.unwrap() == position(v@, x, 0) && v@[r.unwrap() as int] == x,
        r.is_some() == v@.contains(x),
{
    let mut i: usize = 0;
    proof {
        lemma_position(v@, x, 0);
    }
    while i < v.len() && v[i] != x
        invariant
            i <= v@.len(),
            position(v@, x, 0) == position(v@, x, i as int),
        decreases v@.len() - i,
    {
        i = i + 1;
    }
    proof {
        if v@.contains(x) {
            let k = choose|k: int| 0 <= k < v@.len() && v@[k] == x;
            assert(position(v@, x, 0) <= k);
        }
    }
    if i < v.len() {
        Some(i)
    } else {
        None
    }
}

/// Takes the first occurrence of `x` out of the list and says whether there was one.
pub fn remove_value(v: &mut Vec<usize>, x: usize) -> (found: bool)
    ensures
        final(v)@ == without(old(v)@, x),
        found == old(v)@.contains(x),
{
    match find(v, x) {
        Some(i) => {
            v.remove(i);
            true
        },
        None => false,
    }
}

/// Removing a member keeps every remaining index below the bound.
pub proof fn lemma_without_keeps_bound(s: Seq<usize>, x: usize, bound: int)
    requires
        crate::defs::ids_below(s, bound),
    ensures
        crate::defs::ids_below(without(s, x), bound),
{
    lemma_position(s, x, 0);
    let i = position(s, x, 0);
    let w = without(s, x);
    assert forall|j: int| 0 <= j < w.len() implies (#[trigger] w[j]) < bound by {
        if i < s.len() {
            let oj = if j < i { j } else { j + 1 };
            assert(w[j] == s[oj]);
        }
    }
}

} // verus!
