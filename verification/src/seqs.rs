//! Facts about filtered sequences and the multisets of their elements.

use vstd::multiset::Multiset;
use vstd::prelude::*;
use vstd::seq_lib::{lemma_multiset_commutative, to_multiset_build};

verus! {

/// A filter that rejects every element leaves nothing.
pub proof fn lemma_filter_nothing<A>(s: Seq<A>, pred: spec_fn(A) -> bool)
    requires
        forall|i: int| 0 <= i < s.len() ==> !pred(#[trigger] s[i]),
    ensures
        s.filter(pred) == Seq::<A>::empty(),
    decreases s.len(),
{
    reveal(Seq::filter);
    if s.len() > 0 {
        lemma_filter_nothing(s.drop_last(), pred);
    }
}

/// A filter that accepts every element changes nothing.
pub proof fn lemma_filter_everything<A>(s: Seq<A>, pred: spec_fn(A) -> bool)
    requires
        forall|i: int| 0 <= i < s.len() ==> pred(#[trigger] s[i]),
    ensures
        s.filter(pred) == s,
    decreases s.len(),
{
    reveal(Seq::filter);
    if s.len() > 0 {
        lemma_filter_everything(s.drop_last(), pred);
        assert(s.drop_last().push(s.last()) =~= s);
    }
}

/// Where `whole` accepts exactly what one of `part` and `rest` accepts, and
/// these two accept nothing in common, the elements kept by `part` and those
/// kept by `rest` are together the elements kept by `whole`, each as often.
pub proof fn lemma_filter_parts<A>(
    s: Seq<A>,
    whole: spec_fn(A) -> bool,
    part: spec_fn(A) -> bool,
    rest: spec_fn(A) -> bool,
)
    requires
        forall|i: int|
            0 <= i < s.len() ==> (whole(#[trigger] s[i]) <==> part(s[i]) || rest(s[i])),
        forall|i: int| 0 <= i < s.len() ==> !(part(#[trigger] s[i]) && rest(s[i])),
    ensures
        s.filter(part).to_multiset().add(s.filter(rest).to_multiset()) == s.filter(
            whole,
        ).to_multiset(),
    decreases s.len(),
{
    broadcast use vstd::multiset::group_multiset_axioms;

    reveal(Seq::filter);
    if s.len() == 0 {
        lemma_empty_multiset::<A>();
        assert(s =~= Seq::<A>::empty());
        assert(s.filter(part).to_multiset().add(s.filter(rest).to_multiset()) =~= s.filter(
            whole,
        ).to_multiset());
    } else {
        let front = s.drop_last();
        let x = s.last();
        lemma_filter_parts(front, whole, part, rest);
        to_multiset_build(front.filter(part), x);
        to_multiset_build(front.filter(rest), x);
        to_multiset_build(front.filter(whole), x);
        assert(s.filter(part).to_multiset().add(s.filter(rest).to_multiset()) =~= s.filter(
            whole,
        ).to_multiset());
    }
}

/// The elements of a concatenation are those of its two parts together.
pub proof fn lemma_concat_multiset<A>(a: Seq<A>, b: Seq<A>)
    ensures
        (a + b).to_multiset() == a.to_multiset().add(b.to_multiset()),
{
    lemma_multiset_commutative(a, b);
}

/// The multiset of the empty sequence is empty.
pub proof fn lemma_empty_multiset<A>()
    ensures
        Seq::<A>::empty().to_multiset() == Multiset::<A>::empty(),
{
    broadcast use vstd::seq_lib::group_to_multiset_ensures;

    assert(Seq::<A>::empty().to_multiset() =~= Multiset::<A>::empty()) by {
        assert(Seq::<A>::empty().to_multiset().len() == 0);
    }
}

} // verus!
