use vstd::prelude::*;

verus! {

/// The part of `whole` from `from` up to `to`.
pub open spec fn between<T>(whole: Seq<T>, from: nat, to: nat) -> Seq<T> {
    whole.subrange(from as int, to as int)
}

/// `part` stands in `whole` from `pos` on.
pub open spec fn stands_at<T>(part: Seq<T>, whole: Seq<T>, pos: nat) -> bool {
    &&& pos + part.len() <= whole.len()
    &&& forall|i: int| 0 <= i < part.len() ==> whole[pos + i] == #[trigger] part[i]
}

/// Where two parts stand one after the other, each of them stands.
pub proof fn lemma_stands_at_parts<T>(first: Seq<T>, second: Seq<T>, whole: Seq<T>, pos: nat)
    requires
        stands_at(first + second, whole, pos),
    ensures
        stands_at(first, whole, pos),
        stands_at(second, whole, pos + first.len()),
{
    let both = first + second;
    assert forall|i: int| 0 <= i < first.len() implies whole[pos + i] == #[trigger] first[i] by {
        assert(both[i] == first[i]);
    }
    assert forall|i: int| 0 <= i < second.len() implies whole[pos + first.len() + i]
        == #[trigger] second[i] by {
        assert(both[first.len() + i] == second[i]);
    }
}

} // verus!
