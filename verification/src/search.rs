//! The first of a sequence that meets a condition.

use vstd::prelude::*;

verus! {

/// The index of the first element of `s` for which `p` holds.
pub open spec fn first_index<A>(s: Seq<A>, p: spec_fn(A) -> bool) -> Option<int>
    decreases s.len(),
{
    if s.len() == 0 {
        None
    } else {
        match first_index(s.drop_last(), p) {
            Some(i) => Some(i),
            None => if p(s.last()) {
                Some(s.len() - 1)
            } else {
                None
            },
        }
    }
}

/// The first element of `s` for which `p` holds.
pub open spec fn first_where<A>(s: Seq<A>, p: spec_fn(A) -> bool) -> Option<A> {
    match first_index(s, p) {
        Some(i) => Some(s[i]),
        None => None,
    }
}

/// `first_index` gives the smallest index at which `p` holds, and gives none
/// exactly where `p` holds nowhere.
pub proof fn first_index_is_first<A>(s: Seq<A>, p: spec_fn(A) -> bool)
    ensures
        match first_index(s, p) {
            Some(i) => 0 <= i < s.len() && p(s[i]) && forall|j: int|
                0 <= j < i ==> !p(#[trigger] s[j]),
            None => forall|j: int| 0 <= j < s.len() ==> !p(#[trigger] s[j]),
        },
    decreases s.len(),
{
    if s.len() > 0 {
        let init = s.drop_last();
        first_index_is_first(init, p);
        assert(forall|j: int| 0 <= j < init.len() ==> init[j] == #[trigger] s[j]);
    }
}

/// An index at which `p` holds, and before which it does not, is the first.
pub(crate) proof fn lemma_first_index_found<A>(s: Seq<A>, p: spec_fn(A) -> bool, i: int)
    requires
        0 <= i < s.len(),
        p(s[i]),
        forall|j: int| 0 <= j < i ==> !p(#[trigger] s[j]),
    ensures
        first_index(s, p) == Some(i),
{
    first_index_is_first(s, p);
}

/// Where `p` holds nowhere there is no first index.
pub(crate) proof fn lemma_first_index_absent<A>(s: Seq<A>, p: spec_fn(A) -> bool)
    requires
        forall|j: int| 0 <= j < s.len() ==> !p(#[trigger] s[j]),
    ensures
        first_index(s, p) is None,
{
    first_index_is_first(s, p);
}

/// What is kept of the first `n` elements comes first in what is kept of all.
pub(crate) proof fn lemma_filter_map_prefix<A, B>(s: Seq<A>, f: spec_fn(A) -> Option<B>, n: int)
    requires
        0 <= n <= s.len(),
    ensures
        s.take(n).filter_map(f).is_prefix_of(s.filter_map(f)),
    decreases s.len() - n,
{
    if n == s.len() {
        assert(s.take(n) =~= s);
    } else {
        lemma_filter_map_prefix(s, f, n + 1);
        lemma_filter_map_step(s, f, n);
    }
}

/// What is kept of the first `n + 1` elements, from what is kept of the first `n`.
pub(crate) proof fn lemma_filter_map_step<A, B>(s: Seq<A>, f: spec_fn(A) -> Option<B>, n: int)
    requires
        0 <= n < s.len(),
    ensures
        s.take(n + 1).filter_map(f) == match f(s[n]) {
            Some(b) => s.take(n).filter_map(f).push(b),
            None => s.take(n).filter_map(f),
        },
{
    assert(s.take(n + 1).drop_last() =~= s.take(n));
    assert(s.take(n + 1).last() == s[n]);
}

} // verus!
