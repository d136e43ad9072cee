//! Facts about filtered lists.

use vstd::prelude::*;

verus! {

/// One more item, and whether a filter keeps it.
pub proof fn lemma_filter_step<A>(s: Seq<A>, keep: spec_fn(A) -> bool, i: int)
    requires
        0 <= i < s.len(),
    ensures
        s.take(i + 1).filter(keep) == if keep(s[i]) {
            s.take(i).filter(keep).push(s[i])
        } else {
            s.take(i).filter(keep)
        },
{
    reveal(Seq::filter);
    assert(s.take(i + 1).drop_last() =~= s.take(i));
}

/// A filter leaves a list alone if it keeps every item.
pub proof fn lemma_filter_keeps_all<A>(s: Seq<A>, keep: spec_fn(A) -> bool)
    requires
        forall|i: int| 0 <= i < s.len() ==> keep(#[trigger] s[i]),
    ensures
        s.filter(keep) == s,
    decreases s.len(),
{
    reveal(Seq::filter);
    if s.len() > 0 {
        lemma_filter_keeps_all(s.drop_last(), keep);
        assert(s.drop_last().push(s.last()) =~= s);
    }
}

/// A filter leaves nothing of a list if it keeps no item.
pub proof fn lemma_filter_keeps_none<A>(s: Seq<A>, keep: spec_fn(A) -> bool)
    requires
        forall|i: int| 0 <= i < s.len() ==> !keep(#[trigger] s[i]),
    ensures
        s.filter(keep).len() == 0,
    decreases s.len(),
{
    reveal(Seq::filter);
    if s.len() > 0 {
        lemma_filter_keeps_none(s.drop_last(), keep);
    }
}

/// A filtered list holds items of the list.
pub proof fn lemma_filter_origin<A>(s: Seq<A>, keep: spec_fn(A) -> bool, j: int)
    requires
        0 <= j < s.filter(keep).len(),
    ensures
        exists|i: int| 0 <= i < s.len() && #[trigger] s[i] == s.filter(keep)[j],
    decreases s.len(),
{
    reveal(Seq::filter);
    if s.len() > 0 {
        let before = s.drop_last().filter(keep);
        if j < before.len() {
            lemma_filter_origin(s.drop_last(), keep, j);
            let i = choose|i: int|
                0 <= i < s.drop_last().len() && #[trigger] s.drop_last()[i] == before[j];
            assert(s[i] == s.filter(keep)[j]);
        } else {
            assert(s[s.len() - 1] == s.filter(keep)[j]);
        }
    }
}

} // verus!
