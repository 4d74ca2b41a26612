//! Small helpers.

use vstd::prelude::*;

verus! {

/// The first place from `k` on at which `item` stands in `items`; the
/// length if it stands at none.
pub open spec fn place_of(items: Seq<usize>, item: usize, k: int) -> int
    decreases items.len() - k,
{
    if k < 0 || k >= items.len() {
        items.len() as int
    } else if items[k] == item {
        k
    } else {
        place_of(items, item, k + 1)
    }
}

/// The first place is a place of the item, with none before it, or the
/// item stands nowhere.
pub proof fn lemma_place_of(items: Seq<usize>, item: usize, k: int)
    requires
        0 <= k <= items.len(),
    ensures
        k <= place_of(items, item, k) <= items.len(),
        place_of(items, item, k) < items.len() ==> items[place_of(items, item, k)] == item,
        forall|j: int| k <= j < place_of(items, item, k) ==> items[j] != item,
    decreases items.len() - k,
{
    if k < items.len() && items[k] != item {
        lemma_place_of(items, item, k + 1);
    }
}

/// Finds the first place at which `item` stands in `items`.
pub fn locate(items: &[usize], item: &usize) -> (r: Option<usize>)
    ensures
        match r {
            Some(i) => i < items@.len() && items@[i as int] == *item && forall|j: int|
                0 <= j < i ==> items@[j] != *item,
            None => !items@.contains(*item),
        },
        match r {
            Some(i) => i as int == place_of(items@, *item, 0),
            None => place_of(items@, *item, 0) == items@.len(),
        },
{
    proof {
        lemma_place_of(items@, *item, 0);
    }
    let mut i: usize = 0;
    while i < items.len()
        invariant
            i <= items.len(),
            forall|j: int| 0 <= j < i ==> items@[j] != *item,
            place_of(items@, *item, 0) == place_of(items@, *item, i as int),
        decreases items.len() - i,
    {
        if items[i] == *item {
            return Some(i);
        }
        i += 1;
    }
    None
}

} // verus!
