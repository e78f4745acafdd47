//! Lemmas on filtered sequences that several modules share.

use vstd::prelude::*;

verus! {

/// A filter that every element passes keeps the sequence as it is.
pub proof fn lemma_filter_all<A>(s: Seq<A>, keep: spec_fn(A) -> bool)
    requires
        forall|i: int| 0 <= i < s.len() ==> keep(#[trigger] s[i]),
    ensures
        s.filter(keep) == s,
    decreases s.len(),
{
    reveal(Seq::filter);
    if s.len() > 0 {
        assert forall|i: int| 0 <= i < s.drop_last().len() implies keep(
            #[trigger] s.drop_last()[i],
        ) by {
            assert(s.drop_last()[i] == s[i]);
        }
        lemma_filter_all(s.drop_last(), keep);
        assert(s.drop_last().push(s.last()) =~= s);
    }
}

/// A filter that no element passes leaves nothing.
pub proof fn lemma_filter_none<A>(s: Seq<A>, keep: spec_fn(A) -> bool)
    requires
        forall|i: int| 0 <= i < s.len() ==> !keep(#[trigger] s[i]),
    ensures
        s.filter(keep) == Seq::<A>::empty(),
    decreases s.len(),
{
    reveal(Seq::filter);
    if s.len() > 0 {
        assert forall|i: int| 0 <= i < s.drop_last().len() implies !keep(
            #[trigger] s.drop_last()[i],
        ) by {
            assert(s.drop_last()[i] == s[i]);
        }
        lemma_filter_none(s.drop_last(), keep);
    } else {
        assert(s =~= Seq::empty());
    }
}

/// Filtering first by a wider condition does not change what a narrower
/// one keeps.
pub proof fn lemma_filter_narrows<A>(s: Seq<A>, wide: spec_fn(A) -> bool, narrow: spec_fn(A) -> bool)
    requires
        forall|i: int| 0 <= i < s.len() ==> (narrow(#[trigger] s[i]) ==> wide(s[i])),
    ensures
        s.filter(wide).filter(narrow) == s.filter(narrow),
    decreases s.len(),
{
    reveal(Seq::filter);
    if s.len() > 0 {
        assert forall|i: int| 0 <= i < s.drop_last().len() && narrow(
            #[trigger] s.drop_last()[i],
        ) implies wide(s.drop_last()[i]) by {
            assert(s.drop_last()[i] == s[i]);
        }
        lemma_filter_narrows(s.drop_last(), wide, narrow);
        if wide(s.last()) {
            s.drop_last().filter(wide).lemma_filter_push(s.last(), narrow);
        }
    }
}

/// Every element that a filter keeps is an element of what it filtered.
pub proof fn lemma_filter_member<A>(s: Seq<A>, keep: spec_fn(A) -> bool, i: int)
    requires
        0 <= i < s.filter(keep).len(),
    ensures
        s.contains(s.filter(keep)[i]),
        keep(s.filter(keep)[i]),
    decreases s.len(),
{
    reveal(Seq::filter);
    if s.len() > 0 {
        let before = s.drop_last().filter(keep);
        if i < before.len() {
            lemma_filter_member(s.drop_last(), keep, i);
            let at = choose|at: int| 0 <= at < s.drop_last().len() && s.drop_last()[at] == before[i];
            assert(s[at] == before[i]);
        } else {
            assert(s[s.len() - 1] == s.last());
        }
    }
}

/// Every element that passes a filter is kept by it.
pub proof fn lemma_filter_keeps<A>(s: Seq<A>, keep: spec_fn(A) -> bool, i: int)
    requires
        0 <= i < s.len(),
        keep(s[i]),
    ensures
        s.filter(keep).contains(s[i]),
    decreases s.len(),
{
    reveal(Seq::filter);
    let kept = s.filter(keep);
    if i == s.len() - 1 {
        assert(kept[kept.len() - 1] == s[i]);
    } else {
        lemma_filter_keeps(s.drop_last(), keep, i);
        let before = s.drop_last().filter(keep);
        let at = choose|at: int| 0 <= at < before.len() && before[at] == s.drop_last()[i];
        assert(kept[at] == s[i]);
    }
}

} // verus!
