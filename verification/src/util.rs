//! Small sequence lemmas shared by the loop proofs of the engine.

use vstd::prelude::*;

verus! {

/// The predicate keeping every handle other than `p`; striking a player
/// from a roster filters with it.
pub open spec fn ne_pred(p: u64) -> spec_fn(u64) -> bool {
    |q: u64| q != p
}

/// Filtering with a predicate that accepts every element keeps the
/// sequence unchanged.
pub proof fn lemma_filter_all_true<A>(s: Seq<A>, pred: spec_fn(A) -> bool)
    requires
        forall|i: int| 0 <= i < s.len() ==> pred(#[trigger] s[i]),
    ensures
        s.filter(pred) == s,
    decreases s.len(),
{
    reveal(Seq::filter);
    if s.len() == 0 {
        assert(s.filter(pred) =~= s);
    } else {
        lemma_filter_all_true(s.drop_last(), pred);
        assert(pred(s.last()));
        assert(s.filter(pred) =~= s);
    }
}

/// Filtering with a predicate that rejects every element leaves nothing.
pub proof fn lemma_filter_all_false<A>(s: Seq<A>, pred: spec_fn(A) -> bool)
    requires
        forall|i: int| 0 <= i < s.len() ==> !pred(#[trigger] s[i]),
    ensures
        s.filter(pred) == Seq::<A>::empty(),
    decreases s.len(),
{
    reveal(Seq::filter);
    if s.len() == 0 {
        assert(s.filter(pred) =~= Seq::<A>::empty());
    } else {
        lemma_filter_all_false(s.drop_last(), pred);
        assert(!pred(s.last()));
        assert(s.filter(pred) =~= Seq::<A>::empty());
    }
}

/// Every element of a filtered sequence is an element of the source.
pub proof fn lemma_filter_elem<A>(s: Seq<A>, pred: spec_fn(A) -> bool, k: int)
    requires
        0 <= k < s.filter(pred).len(),
    ensures
        s.contains(s.filter(pred)[k]),
    decreases s.len(),
{
    reveal(Seq::filter);
    if s.len() == 0 {
    } else {
        let d = s.drop_last();
        let fd = d.filter(pred);
        if k < fd.len() {
            lemma_filter_elem(d, pred, k);
            let j = choose|j: int| 0 <= j < d.len() && d[j] == fd[k];
            assert(s[j] == s.filter(pred)[k]);
        } else {
            assert(pred(s.last()));
            assert(s[s.len() - 1] == s.filter(pred)[k]);
        }
    }
}

/// One forward step of filtering a prefix: extending the prefix by one
/// element appends that element exactly when the predicate accepts it.
pub proof fn lemma_filter_take_step<A>(s: Seq<A>, pred: spec_fn(A) -> bool, i: int)
    requires
        0 <= i < s.len(),
    ensures
        s.take(i + 1).filter(pred) == s.take(i).filter(pred) + (if pred(s[i]) {
            seq![s[i]]
        } else {
            Seq::<A>::empty()
        }),
{
    reveal(Seq::filter);
    assert(s.take(i + 1).drop_last() =~= s.take(i));
    assert(s.take(i + 1).last() == s[i]);
    if pred(s[i]) {
        assert(s.take(i + 1).filter(pred) =~= s.take(i).filter(pred) + seq![s[i]]);
    } else {
        assert(s.take(i + 1).filter(pred) =~= s.take(i).filter(pred) + Seq::<A>::empty());
    }
}

} // verus!
