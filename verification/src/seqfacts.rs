//! Small facts about `Seq::filter` that the matcher and the aggregator
//! lean on.

use vstd::prelude::*;

verus! {

/// A filter keeps nothing when no element satisfies the predicate.
pub proof fn lemma_filter_none<A>(s: Seq<A>, pred: spec_fn(A) -> bool)
    requires
        forall|i: int| 0 <= i < s.len() ==> !pred(#[trigger] s[i]),
    ensures
        s.filter(pred) == Seq::<A>::empty(),
    decreases s.len(),
{
    reveal(Seq::filter);
    if s.len() == 0 {
        assert(s.filter(pred) =~= Seq::<A>::empty());
    } else {
        lemma_filter_none(s.drop_last(), pred);
        assert(s.filter(pred) =~= Seq::<A>::empty());
    }
}

/// Filtering by a predicate and by its complement splits a sequence:
/// the two parts' lengths sum to the whole.
pub proof fn lemma_filter_complement_len<A>(s: Seq<A>, p: spec_fn(A) -> bool, q: spec_fn(A) -> bool)
    requires
        forall|a: A| #[trigger] p(a) == !q(a),
    ensures
        s.filter(p).len() + s.filter(q).len() == s.len(),
    decreases s.len(),
{
    reveal(Seq::filter);
    if s.len() > 0 {
        lemma_filter_complement_len(s.drop_last(), p, q);
    }
}

} // verus!
