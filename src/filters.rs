//! Lemmas on filtered sequences.
use vstd::prelude::*;

verus! {

/// Filtering out every element gives the empty sequence.
pub proof fn lemma_filter_none<A>(s: Seq<A>, p: spec_fn(A) -> bool)
    requires
        forall|i: int| 0 <= i < s.len() ==> !p(#[trigger] s[i]),
    ensures
        s.filter(p) == Seq::<A>::empty(),
    decreases s.len(),
{
    reveal(Seq::filter);
    if s.len() > 0 {
        assert forall|i: int| 0 <= i < s.drop_last().len() implies !p(#[trigger] s.drop_last()[i]) by {
            assert(s.drop_last()[i] == s[i]);
        }
        lemma_filter_none(s.drop_last(), p);
        assert(!p(s[s.len() - 1]));
    }
}

/// Filtering that keeps every element gives the sequence itself.
pub proof fn lemma_filter_all<A>(s: Seq<A>, p: spec_fn(A) -> bool)
    requires
        forall|i: int| 0 <= i < s.len() ==> p(#[trigger] s[i]),
    ensures
        s.filter(p) == s,
    decreases s.len(),
{
    reveal(Seq::filter);
    if s.len() > 0 {
        assert forall|i: int| 0 <= i < s.drop_last().len() implies p(#[trigger] s.drop_last()[i]) by {
            assert(s.drop_last()[i] == s[i]);
        }
        lemma_filter_all(s.drop_last(), p);
        assert(p(s[s.len() - 1]));
        assert(s.drop_last().push(s.last()) =~= s);
    }
}

/// Filtering by `p` first changes nothing for a filter by `q` that only
/// keeps elements `p` keeps.
pub proof fn lemma_filter_absorb<A>(s: Seq<A>, p: spec_fn(A) -> bool, q: spec_fn(A) -> bool)
    requires
        forall|i: int| 0 <= i < s.len() && q(#[trigger] s[i]) ==> p(s[i]),
    ensures
        s.filter(p).filter(q) == s.filter(q),
    decreases s.len(),
{
    reveal(Seq::filter);
    if s.len() > 0 {
        let dl = s.drop_last();
        assert forall|i: int| 0 <= i < dl.len() && q(#[trigger] dl[i]) implies p(dl[i]) by {
            assert(dl[i] == s[i]);
        }
        lemma_filter_absorb(dl, p, q);
        let last = s.last();
        assert(q(last) ==> p(last)) by {
            assert(s[s.len() - 1] == last);
        }
        if p(last) {
            assert(dl.filter(p).push(last).drop_last() =~= dl.filter(p));
        }
    }
}

/// An element of a filtered sequence is an element of the sequence filtered.
pub proof fn lemma_in_filter<A>(s: Seq<A>, p: spec_fn(A) -> bool, k: int) -> (i: int)
    requires
        0 <= k < s.filter(p).len(),
    ensures
        0 <= i < s.len(),
        s[i] == s.filter(p)[k],
        p(s[i]),
{
    let x = s.filter(p)[k];
    assert(s.filter(p).contains(x));
    s.lemma_filter_contains_rev(p, x);
    s.lemma_filter_pred(p, k);
    choose|i: int| 0 <= i < s.len() && s[i] == x
}

} // verus!
