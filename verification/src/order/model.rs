//! The breadth-first search for an order of the points, as mathematical
//! functions of the index.

use crate::constraints::rules::{CID, PointID};
use crate::iter::first_occurrences;
use crate::order::IndexView;
use vstd::prelude::*;

verus! {

/// The predicate "the constraint counts towards discreteness".
pub open spec fn counts(ix: IndexView) -> spec_fn(CID) -> bool {
    |cid: CID| ix.constraints[cid as int].discretizing()
}

/// The number of constraints in `cids` that count towards discreteness.
pub open spec fn discretizing_count(ix: IndexView, cids: Seq<CID>) -> nat {
    cids.filter(counts(ix)).len()
}

/// For each point the constraints credited to it, and the points that
/// became discrete in the course of an expansion.
pub struct Expansion {
    pub support: Seq<Seq<CID>>,
    pub found: Seq<PointID>,
}

/// Credits the constraint `cid` to the point `t`, unless it is credited to
/// it already. The point is found when this credit is its second one that
/// counts towards discreteness.
pub open spec fn credit(ix: IndexView, e: Expansion, cid: CID, t: PointID) -> Expansion {
    if e.support[t as int].contains(cid) {
        e
    } else {
        let list = e.support[t as int].push(cid);
        Expansion {
            support: e.support.update(t as int, list),
            found: if ix.constraints[cid as int].discretizing() && discretizing_count(ix, list)
                == 2 {
                e.found.push(t)
            } else {
                e.found
            },
        }
    }
}

/// Credits the constraint `cid` to each of `targets` in turn.
pub open spec fn credit_all(ix: IndexView, e: Expansion, cid: CID, targets: Seq<PointID>) -> Expansion
    decreases targets.len(),
{
    if targets.len() == 0 {
        e
    } else {
        credit(ix, credit_all(ix, e, cid, targets.drop_last()), cid, targets.last())
    }
}

/// Credits each constraint of `cids` in turn to the points that it can
/// pin when the points of `known` are known.
pub open spec fn expand(ix: IndexView, known: Set<PointID>, e: Expansion, cids: Seq<CID>) -> Expansion
    decreases cids.len(),
{
    if cids.len() == 0 {
        e
    } else {
        let cid = cids.last();
        credit_all(
            ix,
            expand(ix, known, e, cids.drop_last()),
            cid,
            ix.constraints[cid as int].targets(known),
        )
    }
}

/// One expansion: the constraints that name `point` are credited to what
/// they can pin when the points of `known` are known.
pub open spec fn expand_tree_spec(
    ix: IndexView,
    known: Set<PointID>,
    point: PointID,
    support: Seq<Seq<CID>>,
) -> Expansion {
    expand(ix, known, Expansion { support, found: Seq::empty() }, ix.cids[point as int])
}

/// The state of the search of one tree: the points in the order in which
/// they became known, and the constraints credited to each point.
pub struct TreeState {
    pub order: Seq<PointID>,
    pub support: Seq<Seq<CID>>,
}

/// No constraint is credited to any of `n` points.
pub open spec fn no_support(n: nat) -> Seq<Seq<CID>> {
    Seq::new(n, |p: int| Seq::<CID>::empty())
}

/// The search before its first step: the root alone is known and was
/// expanded, and the orbiter waits behind it.
pub open spec fn tree_start(ix: IndexView, root: PointID, orbiter: PointID) -> TreeState {
    TreeState {
        order: seq![root, orbiter],
        support: expand_tree_spec(ix, set![root], root, no_support(ix.n())).support,
    }
}

/// The step that makes the point at place `i` of the order known and
/// expands it; what it finds joins the order at the end.
pub open spec fn tree_step(ix: IndexView, s: TreeState, i: int) -> TreeState {
    let e = expand_tree_spec(ix, s.order.take(i + 1).to_set(), s.order[i], s.support);
    TreeState { order: s.order + e.found, support: e.support }
}

/// The search after the places 1 to `steps` of the order were visited, as
/// far as the order reaches.
pub open spec fn tree_run(ix: IndexView, root: PointID, orbiter: PointID, steps: nat) -> TreeState
    decreases steps,
{
    if steps == 0 {
        tree_start(ix, root, orbiter)
    } else {
        let s = tree_run(ix, root, orbiter, (steps - 1) as nat);
        if steps < s.order.len() {
            tree_step(ix, s, steps as int)
        } else {
            s
        }
    }
}

/// The entries of a finished search: each point of the order with the
/// constraints credited to it.
pub open spec fn entries_of(s: TreeState) -> Seq<(PointID, Seq<CID>)> {
    Seq::new(s.order.len(), |i: int| (s.order[i], s.support[s.order[i] as int]))
}

/// The tree that grows from `root` and `orbiter`: the search run until
/// every point of its order was visited. With `n` points it takes no more
/// than `n` steps.
pub open spec fn tree_spec(ix: IndexView, root: PointID, orbiter: PointID) -> Seq<
    (PointID, Seq<CID>),
> {
    entries_of(tree_run(ix, root, orbiter, ix.n()))
}

/// The points of a tree's entries, in order.
pub open spec fn points_of(entries: Seq<(PointID, Seq<CID>)>) -> Seq<PointID> {
    Seq::new(entries.len(), |i: int| entries[i].0)
}

/// The points that a tree covers.
pub open spec fn covered(entries: Seq<(PointID, Seq<CID>)>) -> Set<PointID> {
    points_of(entries).to_set()
}

/// The targets of the constraints `cids`, one after the other, when the
/// points of `known` are known.
pub open spec fn all_targets(ix: IndexView, known: Set<PointID>, cids: Seq<CID>) -> Seq<PointID>
    decreases cids.len(),
{
    if cids.len() == 0 {
        Seq::empty()
    } else {
        all_targets(ix, known, cids.drop_last()) + ix.constraints[cids.last() as int].targets(
            known,
        )
    }
}

/// The points that can be pinned when `p` alone is known, each once, in
/// the order in which the constraints of `p` name them.
pub open spec fn reach(ix: IndexView, p: PointID) -> Seq<PointID> {
    first_occurrences(all_targets(ix, set![p], ix.cids[p as int]))
}

/// The predicate "the pair of `t` and `p` was not listed from `t`".
pub open spec fn fresh(lists: Seq<Seq<PointID>>, p: PointID) -> spec_fn(PointID) -> bool {
    |t: PointID| !(t < lists.len() && lists[t as int].contains(p))
}

/// For each of the first `k` points its orbiters: the points in its reach
/// with which it was not paired from the other side.
pub open spec fn neighbor_lists(ix: IndexView, k: nat) -> Seq<Seq<PointID>>
    decreases k,
{
    if k == 0 {
        Seq::empty()
    } else {
        let lists = neighbor_lists(ix, (k - 1) as nat);
        lists.push(reach(ix, (k - 1) as PointID).filter(fresh(lists, (k - 1) as PointID)))
    }
}

/// The pairs of `root` with each of `orbiters`.
pub open spec fn paired(root: PointID, orbiters: Seq<PointID>) -> Seq<(PointID, PointID)> {
    Seq::new(orbiters.len(), |i: int| (root, orbiters[i]))
}

/// The pairs of the first `k` points with their orbiters.
pub open spec fn pairs_upto(lists: Seq<Seq<PointID>>, k: nat) -> Seq<(PointID, PointID)>
    decreases k,
{
    if k == 0 {
        Seq::empty()
    } else {
        pairs_upto(lists, (k - 1) as nat) + paired((k - 1) as PointID, lists[k - 1])
    }
}

/// The root pairs of the figure: each point, in ascending order, with
/// each of its orbiters, so that two points are paired once.
pub open spec fn root_pairs_spec(ix: IndexView) -> Seq<(PointID, PointID)> {
    pairs_upto(neighbor_lists(ix, ix.n()), ix.n())
}

/// Some tree of the forest covers both points.
pub open spec fn pair_covered(
    forest: Seq<Seq<(PointID, Seq<CID>)>>,
    root: PointID,
    orbiter: PointID,
) -> bool {
    exists|i: int|
        0 <= i < forest.len() && covered(#[trigger] forest[i]).contains(root) && covered(
            forest[i],
        ).contains(orbiter)
}

/// The predicate "covers a point that `tree` does not cover".
pub open spec fn outside(tree: Seq<(PointID, Seq<CID>)>) -> spec_fn(
    Seq<(PointID, Seq<CID>)>,
) -> bool {
    |other: Seq<(PointID, Seq<CID>)>| !covered(other).subset_of(covered(tree))
}

/// The forest after the pair of `root` and `orbiter` was tried: unchanged
/// if a tree covers the pair; else the pair's tree joins at the end, and
/// the trees that it covers leave.
pub open spec fn forest_step(
    ix: IndexView,
    forest: Seq<Seq<(PointID, Seq<CID>)>>,
    root: PointID,
    orbiter: PointID,
) -> Seq<Seq<(PointID, Seq<CID>)>> {
    if pair_covered(forest, root, orbiter) {
        forest
    } else {
        let tree = tree_spec(ix, root, orbiter);
        forest.filter(outside(tree)).push(tree)
    }
}

/// The forest after each of `pairs` was tried in turn.
pub open spec fn forest_of(ix: IndexView, pairs: Seq<(PointID, PointID)>) -> Seq<
    Seq<(PointID, Seq<CID>)>,
>
    decreases pairs.len(),
{
    if pairs.len() == 0 {
        Seq::empty()
    } else {
        forest_step(ix, forest_of(ix, pairs.drop_last()), pairs.last().0, pairs.last().1)
    }
}

/// The forest of the figure.
pub open spec fn forest_spec(ix: IndexView) -> Seq<Seq<(PointID, Seq<CID>)>> {
    forest_of(ix, root_pairs_spec(ix))
}

/// The entries of the trees, one tree after the other.
pub open spec fn flat(forest: Seq<Seq<(PointID, Seq<CID>)>>) -> Seq<(PointID, Seq<CID>)>
    decreases forest.len(),
{
    if forest.len() == 0 {
        Seq::empty()
    } else {
        flat(forest.drop_last()) + forest.last()
    }
}

/// The predicate "the constraint does not count towards discreteness".
pub open spec fn trails(ix: IndexView) -> spec_fn(CID) -> bool {
    |cid: CID| !ix.constraints[cid as int].discretizing()
}

/// The constraints of one point with those that count towards
/// discreteness first, each group in the order it had.
pub open spec fn leading(ix: IndexView, cids: Seq<CID>) -> Seq<CID> {
    cids.filter(counts(ix)) + cids.filter(trails(ix))
}

/// What ordering a figure can end in without an order.
#[derive(Debug, Clone, Copy, PartialEq, Eq, Structural)]
pub enum OrderingError {
    /// A point stands in more than one tree.
    AmbiguousPlacement,
    /// A point stands in no tree.
    Unreached,
}

/// The order of the figure: the place of each point in the flattened
/// forest is its new identifier, and each place holds the constraints that
/// pin its point.
pub open spec fn order_spec(ix: IndexView) -> Result<Seq<Seq<CID>>, OrderingError> {
    let entries = flat(forest_spec(ix));
    let points = points_of(entries);
    if !points.no_duplicates() {
        Err(OrderingError::AmbiguousPlacement)
    } else if exists|p: PointID| p < ix.n() && !points.contains(p) {
        Err(OrderingError::Unreached)
    } else {
        Ok(Seq::new(entries.len(), |i: int| leading(ix, entries[i].1)))
    }
}

/// The renumbering that an order brings: each point goes to its place in
/// the flattened forest.
pub open spec fn mapping_spec(ix: IndexView) -> Seq<PointID> {
    let points = points_of(flat(forest_spec(ix)));
    Seq::new(ix.n(), |p: int| points.index_of(p as PointID) as PointID)
}

} // verus!
