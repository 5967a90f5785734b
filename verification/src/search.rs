//! Searching and filtering sequences.

use vstd::prelude::*;

verus! {

/// Index of the first element at or after `from` that satisfies `p`.
pub open spec fn find_from<T>(s: Seq<T>, p: spec_fn(T) -> bool, from: int) -> Option<int>
    decreases s.len() - from,
{
    if from < 0 || from >= s.len() {
        None
    } else if p(s[from]) {
        Some(from)
    } else {
        find_from(s, p, from + 1)
    }
}

/// Index of the first element that satisfies `p`.
pub open spec fn find<T>(s: Seq<T>, p: spec_fn(T) -> bool) -> Option<int> {
    find_from(s, p, 0)
}

/// The predicate that holds of `x` alone.
pub open spec fn equal_to<T>(x: T) -> spec_fn(T) -> bool {
    |y: T| y == x
}

/// What [`find_from`] promises about its result.
pub proof fn lemma_find_from<T>(s: Seq<T>, p: spec_fn(T) -> bool, from: int)
    requires
        0 <= from,
    ensures
        match find_from(s, p, from) {
            Some(i) => from <= i < s.len() && p(s[i]) && forall|j: int|
                from <= j < i ==> !p(#[trigger] s[j]),
            None => forall|j: int| from <= j < s.len() ==> !p(#[trigger] s[j]),
        },
    decreases s.len() - from,
{
    if from < s.len() && !p(s[from]) {
        lemma_find_from(s, p, from + 1);
    }
}

/// Searches over two sequences that answer alike at every place find the same place.
pub proof fn lemma_find_map<A, B>(
    s: Seq<A>,
    t: Seq<B>,
    p: spec_fn(A) -> bool,
    q: spec_fn(B) -> bool,
)
    requires
        s.len() == t.len(),
        forall|i: int| 0 <= i < s.len() ==> p(#[trigger] s[i]) == q(t[i]),
    ensures
        find(s, p) == find(t, q),
{
    lemma_find_from(s, p, 0);
    lemma_find_from(t, q, 0);
    match (find(s, p), find(t, q)) {
        (Some(x), Some(y)) => {
            assert(p(s[x]) == q(t[x]));
            assert(p(s[y]) == q(t[y]));
            if x < y {
                assert(!q(t[x]));
            } else if y < x {
                assert(!p(s[y]));
            }
        },
        (Some(x), None) => {
            assert(p(s[x]) == q(t[x]));
            assert(!q(t[x]));
        },
        (None, Some(y)) => {
            assert(p(s[y]) == q(t[y]));
            assert(!p(s[y]));
        },
        (None, None) => {},
    }
}

} // verus!
