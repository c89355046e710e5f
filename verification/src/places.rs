//! The places in a list where something holds.

use vstd::prelude::*;

verus! {

/// Whether `at` holds, in order and each once, the places where `wanted` holds.
pub open spec fn are_the_places(at: Seq<int>, len: nat, wanted: spec_fn(int) -> bool) -> bool {
    &&& forall|k: int| 0 <= k < at.len() ==> 0 <= #[trigger] at[k] < len && wanted(at[k])
    &&& forall|k: int, l: int| 0 <= k < l < at.len() ==> at[k] < at[l]
    &&& forall|i: int| 0 <= i < len && #[trigger] wanted(i) ==> at.contains(i)
}

/// The places of a longer list are those of the list, and the last one where it is wanted.
pub proof fn places_of_a_longer_list(at: Seq<int>, len: nat, wanted: spec_fn(int) -> bool) -> (more:
    Seq<int>)
    requires
        are_the_places(at, len, wanted),
    ensures
        are_the_places(more, len + 1, wanted),
        more == if wanted(len as int) {
            at.push(len as int)
        } else {
            at
        },
{
    let more = if wanted(len as int) {
        at.push(len as int)
    } else {
        at
    };
    assert forall|i: int| 0 <= i < len + 1 && #[trigger] wanted(i) implies more.contains(i) by {
        if i < len {
            assert(at.contains(i));
            let k = choose|k: int| 0 <= k < at.len() && at[k] == i;
            assert(more[k] == i);
        } else {
            assert(more[at.len() as int] == i);
        }
    }
    more
}

/// Two ways to say the same of every place have the same places.
pub proof fn same_places(
    at: Seq<int>,
    len: nat,
    wanted: spec_fn(int) -> bool,
    too: spec_fn(int) -> bool,
)
    requires
        are_the_places(at, len, wanted),
        forall|i: int| 0 <= i < len ==> #[trigger] wanted(i) == too(i),
    ensures
        are_the_places(at, len, too),
{
    assert forall|i: int| 0 <= i < len && #[trigger] too(i) implies at.contains(i) by {
        assert(wanted(i));
    }
    assert forall|k: int| 0 <= k < at.len() implies 0 <= #[trigger] at[k] < len && too(at[k]) by {
        assert(wanted(at[k]));
    }
}

} // verus!
