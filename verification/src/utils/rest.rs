//! What is left of a sequence when some of it goes.

use vstd::prelude::*;

verus! {

/// `places` are the places in `all` of what is in `rest`, in order, and what is gone is
/// at the other places.
pub open spec fn leaves<T>(all: Seq<T>, gone: Seq<bool>, rest: Seq<T>, places: Seq<int>) -> bool {
    &&& places.len() == rest.len()
    &&& forall|j: int|
        0 <= j < places.len() ==> 0 <= #[trigger] places[j] < all.len() && !gone[places[j]]
            && rest[j] == all[places[j]]
    &&& forall|j: int, k: int|
        0 <= j < k < places.len() ==> #[trigger] places[j] < #[trigger] places[k]
    &&& forall|i: int| 0 <= i < all.len() && !#[trigger] gone[i] ==> places.contains(i)
}

/// `rest` is what is left of `all`, in order: everything but what is `gone`.
pub open spec fn is_rest<T>(all: Seq<T>, gone: Seq<bool>, rest: Seq<T>) -> bool {
    gone.len() == all.len() && exists|places: Seq<int>| #[trigger]
        leaves(all, gone, rest, places)
}

/// Nothing is left of nothing.
pub proof fn lemma_rest_of_nothing<T>(all: Seq<T>, gone: Seq<bool>)
    requires
        all.len() == 0,
        gone.len() == 0,
    ensures
        is_rest(all, gone, Seq::<T>::empty()),
{
    assert(leaves(all, gone, Seq::<T>::empty(), Seq::<int>::empty()));
}

/// One more, which goes or stays.
pub proof fn lemma_rest_grows<T>(all: Seq<T>, gone: Seq<bool>, rest: Seq<T>)
    requires
        all.len() > 0,
        gone.len() == all.len(),
        is_rest(all.drop_last(), gone.drop_last(), rest),
    ensures
        gone.last() ==> is_rest(all, gone, rest),
        !gone.last() ==> is_rest(all, gone, rest.push(all.last())),
{
    let n = all.len() - 1;
    let places = choose|places: Seq<int>| #[trigger]
        leaves(all.drop_last(), gone.drop_last(), rest, places);
    if gone.last() {
        assert forall|i: int| 0 <= i < all.len() && !#[trigger] gone[i] implies places.contains(
            i,
        ) by {
            assert(gone.drop_last()[i] == gone[i]);
        }
        assert(leaves(all, gone, rest, places));
    } else {
        let more = places.push(n);
        assert forall|i: int| 0 <= i < all.len() && !#[trigger] gone[i] implies more.contains(
            i,
        ) by {
            if i == n {
                assert(more[places.len() as int] == n);
            } else {
                assert(gone.drop_last()[i] == gone[i]);
                let j = places.index_of(i);
                assert(more[j] == i);
            }
        }
        assert(leaves(all, gone, rest.push(all.last()), more));
    }
}

} // verus!
