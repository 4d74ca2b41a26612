//! Calls into the `itertools` crate.

use itertools::Itertools;
use vstd::prelude::*;

verus! {

/// The items of `items` in the order of their first occurrence, each
/// once.
pub open spec fn first_occurrences(items: Seq<usize>) -> Seq<usize>
    decreases items.len(),
{
    if items.len() == 0 {
        Seq::empty()
    } else {
        let rest = first_occurrences(items.drop_last());
        if rest.contains(items.last()) {
            rest
        } else {
            rest.push(items.last())
        }
    }
}

/// `Itertools::exactly_one` on the items of a vector: the item if there is
/// exactly one, nothing if there is none or more than one.
#[verifier::external_body]
pub(crate) fn exactly_one(items: Vec<usize>) -> (r: Option<usize>)
    ensures
        r == (if items@.len() == 1 {
            Some(items@[0])
        } else {
            None
        }),
{
    items.into_iter().exactly_one().ok()
}

/// `Itertools::unique` on the items of a vector: duplicates are dropped,
/// the first of equal items stays, and the order of what stays is kept.
#[verifier::external_body]
pub(crate) fn unique(items: Vec<usize>) -> (r: Vec<usize>)
    ensures
        r@ == first_occurrences(items@),
{
    items.into_iter().unique().collect()
}

/// `first_occurrences` keeps exactly the items that occur.
pub proof fn lemma_first_occurrences_contains(items: Seq<usize>, x: usize)
    ensures
        first_occurrences(items).contains(x) <==> items.contains(x),
    decreases items.len(),
{
    if items.len() > 0 {
        let front = items.drop_last();
        let last = items.last();
        lemma_first_occurrences_contains(front, x);
        let rest = first_occurrences(front);
        let out = first_occurrences(items);
        if out.contains(x) {
            let k = choose|k: int| 0 <= k < out.len() && out[k] == x;
            if k < rest.len() {
                assert(rest[k] == x);
                assert(rest.contains(x));
                let j = choose|j: int| 0 <= j < front.len() && front[j] == x;
                assert(items[j] == x);
            } else {
                assert(x == last);
                assert(items[items.len() - 1] == x);
            }
        }
        if items.contains(x) {
            let j = choose|j: int| 0 <= j < items.len() && items[j] == x;
            if j < front.len() {
                assert(front[j] == x);
                assert(front.contains(x));
                let k = choose|k: int| 0 <= k < rest.len() && rest[k] == x;
                assert(out[k] == x);
            } else {
                assert(x == last);
                if !rest.contains(last) {
                    assert(out[out.len() - 1] == x);
                }
            }
        }
    }
}

/// `first_occurrences` keeps no item twice.
pub proof fn lemma_first_occurrences_distinct(items: Seq<usize>)
    ensures
        first_occurrences(items).no_duplicates(),
    decreases items.len(),
{
    if items.len() > 0 {
        let front = items.drop_last();
        let last = items.last();
        lemma_first_occurrences_distinct(front);
        let rest = first_occurrences(front);
        let out = first_occurrences(items);
        if !rest.contains(last) {
            assert forall|a: int, b: int| 0 <= a < out.len() && 0 <= b < out.len() && a != b
                implies out[a] != out[b] by {
                if a < rest.len() && b < rest.len() {
                } else if a < rest.len() {
                    assert(rest[a] == out[a]);
                    assert(rest.contains(out[a]));
                } else {
                    assert(rest[b] == out[b]);
                    assert(rest.contains(out[b]));
                }
            }
        }
    }
}

} // verus!
