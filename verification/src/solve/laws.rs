//! What the search finds: the first choice of candidates, in the order of
//! the candidates, that places every point; and that it fails only if
//! there is none.

use crate::constraints::lower::lemma_sole_ready;
use crate::constraints::rules::{renamed, PointID, Rule};
use crate::order::laws::lemma_order_correct;
use crate::order::model::{mapping_spec, order_spec};
use crate::order::{renumbered, IndexView};
use crate::solve::brute::{advance, begin, offer, retreat, Awaiting, SearchView};
use crate::solve::lowering::lowerable;
use crate::util::{lemma_place_of, place_of};
use vstd::prelude::*;

verus! {

/// The first way to go on from the choices `prefix` with a candidate of
/// the next point from `k` on, such that every point gets a place: the
/// choices for all `n` points. `count` gives the number of candidates of
/// the next point after given choices.
pub open spec fn search(
    count: spec_fn(Seq<usize>) -> usize,
    n: nat,
    prefix: Seq<usize>,
    k: nat,
) -> Option<Seq<usize>>
    decreases n - prefix.len(), count(prefix) - k,
{
    if prefix.len() >= n {
        Some(prefix)
    } else if k >= count(prefix) {
        None
    } else {
        match search(count, n, prefix.push(k as usize), 0) {
            Some(found) => Some(found),
            None => search(count, n, prefix, k + 1),
        }
    }
}

/// The choices of the search for all points, if there are any.
pub open spec fn solve(count: spec_fn(Seq<usize>) -> usize, n: nat) -> Option<Seq<usize>> {
    search(count, n, Seq::empty(), 0)
}

/// The search stands where `count` leads it: the counts are those of
/// `count`, and every candidate before one in use failed.
pub open spec fn follows(count: spec_fn(Seq<usize>) -> usize, s: SearchView) -> bool {
    &&& s.counts.len() == s.choices.len()
    &&& s.choices.len() <= s.n
    &&& forall|d: int|
        0 <= d < s.choices.len() ==> #[trigger] s.counts[d] == count(s.choices.take(d))
            && s.choices[d] < s.counts[d]
    &&& forall|d: int, k: int|
        0 <= d < s.choices.len() && 0 <= k < s.choices[d] ==> #[trigger] search(
            count,
            s.n,
            s.choices.take(d).push(k as usize),
            0,
        ) is None
}

/// At its start a search follows every count.
pub proof fn lemma_begin(count: spec_fn(Seq<usize>) -> usize, n: nat)
    ensures
        follows(count, begin(n).0),
{
}

/// The report that a point was placed keeps a search following `count`;
/// when the search is done, every point is placed.
pub proof fn lemma_advance(count: spec_fn(Seq<usize>) -> usize, s: SearchView)
    requires
        follows(count, s),
    ensures
        follows(count, advance(s).0),
        advance(s).1 is Done ==> advance(s).0.choices.len() == s.n,
{
}

/// Candidates that fail can be passed over.
pub proof fn lemma_skip_failed(count: spec_fn(Seq<usize>) -> usize, n: nat, prefix: Seq<usize>, k: nat)
    requires
        prefix.len() < n,
        k <= count(prefix),
        forall|j: int|
            0 <= j < k ==> #[trigger] search(count, n, prefix.push(j as usize), 0) is None,
    ensures
        search(count, n, prefix, 0) == search(count, n, prefix, k),
    decreases k,
{
    if k > 0 {
        lemma_skip_failed(count, n, prefix, (k - 1) as nat);
        assert(search(count, n, prefix.push((k - 1) as usize), 0) is None);
    }
}

/// When the choices of a search fail, the retreat leads to a state that
/// follows `count`, or the whole search fails.
pub proof fn lemma_retreat(
    count: spec_fn(Seq<usize>) -> usize,
    n: nat,
    counts: Seq<usize>,
    choices: Seq<usize>,
)
    requires
        follows(count, SearchView { n, counts, choices, awaiting: Awaiting::Candidates }),
        search(count, n, choices, 0) is None,
    ensures
        retreat(n, counts, choices).1 is Place ==> follows(count, retreat(n, counts, choices).0),
        retreat(n, counts, choices).1 is Failed ==> solve(count, n) is None,
        retreat(n, counts, choices).1 is Place || retreat(n, counts, choices).1 is Failed,
    decreases choices.len(),
{
    let s = SearchView { n, counts, choices, awaiting: Awaiting::Candidates };
    if choices.len() == 0 {
        assert(choices =~= Seq::<usize>::empty());
    } else {
        let d = choices.len() - 1;
        let prefix = choices.drop_last();
        let last = choices.last();
        assert(choices.take(d) =~= prefix);
        assert(prefix.push(last) =~= choices);
        assert(counts[d] == count(prefix));
        assert forall|j: int| 0 <= j < last + 1 implies #[trigger] search(
            count,
            n,
            prefix.push(j as usize),
            0,
        ) is None by {
            if j < last {
                assert(search(count, n, choices.take(d).push(j as usize), 0) is None);
            }
        }
        if last + 1 < counts.last() {
            let after = retreat(n, counts, choices).0;
            assert forall|x: int| 0 <= x < after.choices.len() implies #[trigger] after.counts[x]
                == count(after.choices.take(x)) && after.choices[x] < after.counts[x] by {
                assert(after.choices.take(x) =~= choices.take(x));
                assert(counts[x] == count(choices.take(x)));
            }
            assert forall|x: int, k: int|
                0 <= x < after.choices.len() && 0 <= k < after.choices[x] implies #[trigger] search(
                count,
                n,
                after.choices.take(x).push(k as usize),
                0,
            ) is None by {
                assert(after.choices.take(x) =~= choices.take(x));
                if x < d {
                    assert(search(count, n, choices.take(x).push(k as usize), 0) is None);
                } else {
                    assert(search(count, n, prefix.push(k as usize), 0) is None);
                }
            }
        } else {
            lemma_skip_failed(count, n, prefix, count(prefix) as nat);
            let fewer = SearchView {
                n,
                counts: counts.drop_last(),
                choices: prefix,
                awaiting: Awaiting::Candidates,
            };
            assert forall|x: int| 0 <= x < fewer.choices.len() implies #[trigger] fewer.counts[x]
                == count(fewer.choices.take(x)) && fewer.choices[x] < fewer.counts[x] by {
                assert(fewer.choices.take(x) =~= choices.take(x));
                assert(counts[x] == count(choices.take(x)));
            }
            assert forall|x: int, k: int|
                0 <= x < fewer.choices.len() && 0 <= k < fewer.choices[x] implies #[trigger] search(
                count,
                n,
                fewer.choices.take(x).push(k as usize),
                0,
            ) is None by {
                assert(fewer.choices.take(x) =~= choices.take(x));
                assert(search(count, n, choices.take(x).push(k as usize), 0) is None);
            }
            lemma_retreat(count, n, counts.drop_last(), prefix);
        }
    }
}

/// A search that follows `count` and is offered the number of candidates
/// that `count` gives goes on following it, and fails only if no choice of
/// candidates places every point.
pub proof fn lemma_offer(count: spec_fn(Seq<usize>) -> usize, s: SearchView, offered: usize)
    requires
        s.wf(),
        follows(count, s),
        s.awaiting == Awaiting::Candidates,
        offered == count(s.choices),
    ensures
        offer(s, offered).1 is Place ==> follows(count, offer(s, offered).0),
        offer(s, offered).1 is Failed ==> solve(count, s.n) is None,
        offer(s, offered).1 is Place || offer(s, offered).1 is Failed,
{
    if offered > 0 {
        let after = offer(s, offered).0;
        let depth = s.choices.len() as int;
        assert forall|x: int| 0 <= x < after.choices.len() implies #[trigger] after.counts[x]
            == count(after.choices.take(x)) && after.choices[x] < after.counts[x] by {
            if x < depth {
                assert(after.choices.take(x) =~= s.choices.take(x));
                assert(s.counts[x] == count(s.choices.take(x)));
            } else {
                assert(after.choices.take(x) =~= s.choices);
            }
        }
        assert forall|x: int, k: int|
            0 <= x < after.choices.len() && 0 <= k < after.choices[x] implies #[trigger] search(
            count,
            s.n,
            after.choices.take(x).push(k as usize),
            0,
        ) is None by {
            assert(after.choices.take(x) =~= s.choices.take(x));
            assert(search(count, s.n, s.choices.take(x).push(k as usize), 0) is None);
        }
    } else {
        lemma_retreat(count, s.n, s.counts, s.choices);
    }
}

/// From the choices of a search that follows `count` and has placed every
/// point, the search finds these choices, whatever the place it starts at.
pub proof fn lemma_found_from(count: spec_fn(Seq<usize>) -> usize, s: SearchView, d: int)
    requires
        follows(count, s),
        s.choices.len() == s.n,
        0 <= d <= s.n,
    ensures
        search(count, s.n, s.choices.take(d), 0) == Some(s.choices),
    decreases s.n - d,
{
    if d == s.n {
        assert(s.choices.take(d) =~= s.choices);
    } else {
        let prefix = s.choices.take(d);
        let k = s.choices[d];
        lemma_found_from(count, s, d + 1);
        assert(prefix.push(k) =~= s.choices.take(d + 1));
        assert(s.counts[d] == count(prefix));
        assert forall|j: int| 0 <= j < k implies #[trigger] search(
            count,
            s.n,
            prefix.push(j as usize),
            0,
        ) is None by {
            assert(search(count, s.n, s.choices.take(d).push(j as usize), 0) is None);
        }
        lemma_skip_failed(count, s.n, prefix, k as nat);
    }
}

/// A search that follows `count` and has placed every point holds the
/// first choice of candidates that places every point.
pub proof fn lemma_done(count: spec_fn(Seq<usize>) -> usize, s: SearchView)
    requires
        follows(count, s),
        s.choices.len() == s.n,
    ensures
        solve(count, s.n) == Some(s.choices),
{
    lemma_found_from(count, s, 0);
    assert(s.choices.take(0) =~= Seq::<usize>::empty());
}

/// In a figure that was ordered and renumbered, every distance and every
/// angle that is listed at a place of the order can be lowered for the
/// point of that place.
pub proof fn lemma_ordered_is_lowerable(before: IndexView, after: IndexView, i: int, j: int)
    requires
        before.wf(),
        order_spec(before) is Ok,
        renumbered(before, after, mapping_spec(before)),
        0 <= i < order_spec(before).unwrap().len(),
        0 <= j < order_spec(before).unwrap()[i].len(),
        after.constraints[order_spec(before).unwrap()[i][j] as int].rule() == Rule::Sole,
    ensures
        i < before.n(),
        lowerable(after, order_spec(before).unwrap()[i][j], i as PointID),
{
    lemma_order_correct(before, after, i, j);
    let cid = order_spec(before).unwrap()[i][j];
    let c = after.constraints[cid as int];
    let old_c = before.constraints[cid as int];
    assert(old_c.arity_ok());
    assert(c == old_c.renamed(mapping_spec(before)));
    assert(c.points() == renamed(old_c.points(), mapping_spec(before)));
    assert(c.points().len() == old_c.points().len());
    lemma_place_of(c.points(), i as PointID, 0);
    let t_ind = place_of(c.points(), i as PointID, 0);
    if t_ind >= c.points().len() {
        let x = choose|x: int| 0 <= x < c.points().len() && c.points()[x] == i as PointID;
        assert(c.points()[x] != i as PointID);
    }
    lemma_sole_ready(c, i as nat, i as PointID, t_ind);
}

} // verus!
