use vstd::prelude::*;

verus! {

/// The items of `piece` stand in `whole` from the index `at` on.
pub open spec fn stands_at<T>(whole: Seq<T>, at: int, piece: Seq<T>) -> bool {
    &&& 0 <= at
    &&& at + piece.len() <= whole.len()
    &&& forall|i: int| 0 <= i < piece.len() ==> whole[at + i] == #[trigger] piece[i]
}

/// Where two pieces stand one after the other, each of them stands.
pub proof fn lemma_stands_both<T>(whole: Seq<T>, at: int, first: Seq<T>, second: Seq<T>)
    requires
        stands_at(whole, at, first + second),
    ensures
        stands_at(whole, at, first),
        stands_at(whole, at + first.len(), second),
{
    let both = first + second;
    assert forall|i: int| 0 <= i < first.len() implies whole[at + i] == #[trigger] first[i] by {
        assert(both[i] == first[i]);
    }
    assert forall|i: int| 0 <= i < second.len() implies whole[at + first.len() + i]
        == #[trigger] second[i] by {
        assert(both[first.len() + i] == second[i]);
    }
}

} // verus!
