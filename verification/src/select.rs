//! The items of a sequence that meet a condition.

use vstd::prelude::*;

verus! {

/// The items of `items` of which `keep` holds, in their order.
pub open spec fn selected<A>(items: Seq<A>, keep: spec_fn(A) -> bool) -> Seq<A>
    decreases items.len(),
{
    if items.len() == 0 {
        Seq::empty()
    } else if keep(items.last()) {
        selected(items.drop_last(), keep).push(items.last())
    } else {
        selected(items.drop_last(), keep)
    }
}

/// A selection holds exactly the items of the sequence of which the
/// condition holds, and holds none twice where the sequence holds none
/// twice.
pub proof fn lemma_selected<A>(items: Seq<A>, keep: spec_fn(A) -> bool)
    ensures
        forall|item: A|
            #[trigger] selected(items, keep).contains(item) <==> items.contains(item) && keep(item),
        items.no_duplicates() ==> selected(items, keep).no_duplicates(),
    decreases items.len(),
{
    if items.len() > 0 {
        let before = items.drop_last();
        let last = items.last();
        let found = selected(items, keep);
        let earlier = selected(before, keep);
        lemma_selected(before, keep);
        assert forall|item: A| #[trigger]
            found.contains(item) <==> items.contains(item) && keep(item) by {
            assert(earlier.contains(item) <==> before.contains(item) && keep(item));
            if found.contains(item) {
                let i = choose|i: int| 0 <= i < found.len() && found[i] == item;
                if i < earlier.len() {
                    assert(earlier[i] == item);
                    assert(earlier.contains(item));
                    let j = choose|j: int| 0 <= j < before.len() && before[j] == item;
                    assert(items[j] == item);
                } else {
                    assert(items[items.len() - 1] == item);
                }
            }
            if items.contains(item) && keep(item) {
                let j = choose|j: int| 0 <= j < items.len() && items[j] == item;
                if j < before.len() {
                    assert(before[j] == item);
                    assert(before.contains(item));
                    let i = choose|i: int| 0 <= i < earlier.len() && earlier[i] == item;
                    assert(found[i] == item);
                } else {
                    assert(found[found.len() - 1] == item);
                }
            }
        }
        if items.no_duplicates() {
            assert(before.no_duplicates()) by {
                assert forall|i: int, j: int|
                    0 <= i < before.len() && 0 <= j < before.len() && i != j implies before[i]
                    != before[j] by {
                    assert(before[i] == items[i] && before[j] == items[j]);
                }
            }
            if keep(last) {
                assert(!earlier.contains(last)) by {
                    if before.contains(last) {
                        let j = choose|j: int| 0 <= j < before.len() && before[j] == last;
                        assert(items[j] == items[items.len() - 1]);
                    }
                }
                assert forall|i: int, j: int|
                    0 <= i < found.len() && 0 <= j < found.len() && i != j implies found[i]
                    != found[j] by {
                    if i < earlier.len() {
                        assert(earlier.contains(found[i]));
                    }
                    if j < earlier.len() {
                        assert(earlier.contains(found[j]));
                    }
                }
            }
        }
    }
}

} // verus!
