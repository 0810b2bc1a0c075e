//! Small general facts about `Seq::filter` that the filtering loops and
//! cascade deletions lean on: how filtering interacts with `push`, that a
//! filtered sequence draws its elements from the original, and that it
//! keeps every elementwise and pairwise property of the original.

use vstd::prelude::*;
use vstd::seq_lib::*;

verus! {

/// Filtering after a push either appends the new element or leaves the
/// filtered sequence alone, depending on the predicate.
pub proof fn lemma_filter_push<A>(s: Seq<A>, x: A, pred: spec_fn(A) -> bool)
    ensures
        s.push(x).filter(pred) == (if pred(x) {
            s.filter(pred).push(x)
        } else {
            s.filter(pred)
        }),
{
    reveal(Seq::filter);
    assert(s.push(x).drop_last() =~= s);
    assert(s.push(x).last() == x);
    if pred(x) {
        assert(s.push(x).filter(pred) =~= s.filter(pred).push(x));
    } else {
        assert(s.push(x).filter(pred) =~= s.filter(pred));
    }
}

/// Every element of a filtered sequence occurs in the original.
pub proof fn lemma_filter_sub<A>(s: Seq<A>, pred: spec_fn(A) -> bool)
    ensures
        forall|k: int|
            0 <= k < s.filter(pred).len() ==> s.contains(#[trigger] s.filter(pred)[k]),
    decreases s.len(),
{
    reveal(Seq::filter);
    if s.len() == 0 {
    } else {
        let t = s.drop_last();
        lemma_filter_sub(t, pred);
        assert forall|k: int|
            0 <= k < s.filter(pred).len() implies s.contains(#[trigger] s.filter(pred)[k]) by {
            if k < t.filter(pred).len() {
                assert(t.contains(t.filter(pred)[k]));
                let m = choose|m: int| 0 <= m < t.len() && t[m] == t.filter(pred)[k];
                assert(s[m] == t[m]);
                assert(s.filter(pred)[k] == t.filter(pred)[k]);
            } else {
                assert(s.filter(pred)[k] == s.last());
                assert(s[s.len() - 1] == s.last());
            }
        }
    }
}

/// A property that holds of every element still holds of every element of
/// the filtered sequence.
pub proof fn lemma_filter_unary<A>(s: Seq<A>, pred: spec_fn(A) -> bool, p: spec_fn(A) -> bool)
    requires
        forall|i: int| 0 <= i < s.len() ==> p(#[trigger] s[i]),
    ensures
        forall|k: int| 0 <= k < s.filter(pred).len() ==> p(#[trigger] s.filter(pred)[k]),
{
    lemma_filter_sub(s, pred);
    assert forall|k: int|
        0 <= k < s.filter(pred).len() implies p(#[trigger] s.filter(pred)[k]) by {
        assert(s.contains(s.filter(pred)[k]));
        let m = choose|m: int| 0 <= m < s.len() && s[m] == s.filter(pred)[k];
        assert(p(s[m]));
    }
}

/// A property that holds of every ordered pair of distinct elements still
/// holds after filtering.
pub proof fn lemma_filter_pairwise<A>(s: Seq<A>, pred: spec_fn(A) -> bool, rel: spec_fn(A, A) -> bool)
    requires
        forall|i: int, j: int| 0 <= i < j < s.len() ==> #[trigger] rel(s[i], s[j]),
    ensures
        forall|i: int, j: int|
            0 <= i < j < s.filter(pred).len() ==> #[trigger] rel(
                s.filter(pred)[i],
                s.filter(pred)[j],
            ),
    decreases s.len(),
{
    reveal(Seq::filter);
    if s.len() == 0 {
    } else {
        let t = s.drop_last();
        assert forall|i: int, j: int| 0 <= i < j < t.len() implies #[trigger] rel(t[i], t[j]) by {
            assert(t[i] == s[i]);
            assert(t[j] == s[j]);
        }
        lemma_filter_pairwise(t, pred, rel);
        lemma_filter_sub(t, pred);
        assert forall|i: int, j: int|
            0 <= i < j < s.filter(pred).len() implies #[trigger] rel(
                s.filter(pred)[i],
                s.filter(pred)[j],
            ) by {
            if j < t.filter(pred).len() {
                assert(s.filter(pred)[i] == t.filter(pred)[i]);
                assert(s.filter(pred)[j] == t.filter(pred)[j]);
                assert(rel(t.filter(pred)[i], t.filter(pred)[j]));
            } else {
                // `j` points at the freshly pushed last element of `s`.
                assert(pred(s.last()));
                assert(s.filter(pred)[j] == s.last());
                assert(s.filter(pred)[i] == t.filter(pred)[i]);
                assert(t.contains(t.filter(pred)[i]));
                let m = choose|m: int| 0 <= m < t.len() && t[m] == t.filter(pred)[i];
                assert(s[m] == t[m]);
                assert(s[s.len() - 1] == s.last());
                assert(rel(s[m], s[s.len() - 1]));
            }
        }
    }
}

} // verus!
