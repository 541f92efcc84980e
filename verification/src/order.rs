//! Parts of sequences, and where they come from.

use vstd::prelude::*;

verus! {

/// What a filter keeps comes from places that go up, and from every place that it accepts.
pub(crate) proof fn lemma_filter_places<A>(all: Seq<A>, keep: spec_fn(A) -> bool) -> (from: Seq<int>)
    ensures
        from.len() == all.filter(keep).len(),
        forall|k: int|
            #![trigger from[k]]
            0 <= k < from.len() ==> 0 <= from[k] < all.len() && all.filter(keep)[k] == all[from[k]]
                && keep(all[from[k]]),
        forall|k: int, l: int| 0 <= k < l < from.len() ==> #[trigger] from[k] < #[trigger] from[l],
        forall|i: int| 0 <= i < all.len() && keep(#[trigger] all[i]) ==> from.contains(i),
    decreases all.len(),
{
    reveal(Seq::filter);
    if all.len() == 0 {
        Seq::empty()
    } else {
        let before = lemma_filter_places(all.drop_last(), keep);
        let last = all.len() - 1;
        let from = if keep(all.last()) {
            before.push(last)
        } else {
            before
        };
        assert forall|k: int| #![trigger from[k]] 0 <= k < from.len() implies 0 <= from[k]
            < all.len() && all.filter(keep)[k] == all[from[k]] && keep(all[from[k]]) by {
            if k < before.len() {
                assert(from[k] == before[k]);
                assert(all.drop_last()[before[k]] == all[before[k]]);
            }
        }
        assert forall|k: int, l: int| 0 <= k < l < from.len() implies #[trigger] from[k]
            < #[trigger] from[l] by {
            assert(from[k] == before[k]);
            if l < before.len() {
                assert(before[k] < before[l]);
            }
        }
        assert forall|i: int| 0 <= i < all.len() && keep(#[trigger] all[i]) implies from.contains(
            i,
        ) by {
            if i < last {
                assert(all.drop_last()[i] == all[i]);
                let k = choose|k: int| 0 <= k < before.len() && before[k] == i;
                assert(from[k] == i);
            } else {
                assert(from[before.len() as int] == i);
            }
        }
        from
    }
}

} // verus!
