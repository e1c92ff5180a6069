//! Sequences that stand inside other sequences.

use vstd::prelude::*;

verus! {

/// Whether the items of `part` stand in `whole` from `pos` on.
pub open spec fn stands_at<A>(whole: Seq<A>, pos: int, part: Seq<A>) -> bool {
    &&& 0 <= pos
    &&& pos + part.len() <= whole.len()
    &&& forall|i: int| 0 <= i < part.len() ==> whole[pos + i] == #[trigger] part[i]
}

/// Where two parts stand one behind the other, each stands in its place.
pub proof fn lemma_parts_stand<A>(whole: Seq<A>, pos: int, first: Seq<A>, second: Seq<A>)
    requires
        stands_at(whole, pos, first + second),
    ensures
        stands_at(whole, pos, first),
        stands_at(whole, pos + first.len(), second),
{
    let both = first + second;
    assert forall|i: int| 0 <= i < first.len() implies whole[pos + i] == #[trigger] first[i] by {
        assert(both[i] == first[i]);
    }
    assert forall|i: int| 0 <= i < second.len() implies whole[pos + first.len() + i] == #[trigger] second[i] by {
        assert(both[first.len() + i] == second[i]);
    }
}

} // verus!
