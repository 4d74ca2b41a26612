//! The breadth-first search for an order of the points.

use crate::constraints::rules::{CID, PointID};
use crate::iter::unique;
use crate::order::laws::{
    lemma_distinct_bounded, lemma_neighbor_lists, lemma_order_placed, lemma_pairs_upto_same,
    lemma_reverse_index_valid, lemma_root_pairs_valid, lemma_targets_within, lemma_tree_bounded,
    lemma_tree_run, lemma_tree_stable, pinned_before, placed, tree_inv, valid_support,
};
use crate::order::model::{
    all_targets, counts, covered, credit_all, discretizing_count, entries_of, expand,
    expand_tree_spec, flat, forest_of, forest_spec, fresh, leading, mapping_spec, neighbor_lists,
    no_support, order_spec, outside, pair_covered, paired, pairs_upto, points_of, reach,
    root_pairs_spec, trails, tree_run, tree_spec, tree_start, tree_step, Expansion, OrderingError,
    TreeState,
};
use crate::order::{is_permutation, renumbered, reverse_index, PointIndex};
use std::collections::HashSet;
use vstd::prelude::*;

verus! {

broadcast use vstd::std_specs::hash::group_hash_axioms;

/// The lists of a vector of lists.
pub open spec fn lists_view(lists: Seq<Vec<CID>>) -> Seq<Seq<CID>> {
    Seq::new(lists.len(), |i: int| lists[i]@)
}

/// Whether `cid` is in `list`.
pub fn list_contains(list: &Vec<CID>, cid: CID) -> (r: bool)
    ensures
        r == list@.contains(cid),
{
    let mut i: usize = 0;
    while i < list.len()
        invariant
            i <= list.len(),
            forall|j: int| 0 <= j < i ==> list@[j] != cid,
        decreases list.len() - i,
    {
        if list[i] == cid {
            return true;
        }
        i += 1;
    }
    false
}

/// The number of constraints in `list` that count towards discreteness.
pub fn count_discretizing(index: &PointIndex, list: &Vec<CID>) -> (r: usize)
    requires
        forall|j: int| 0 <= j < list@.len() ==> list@[j] < index@.constraints.len(),
    ensures
        r == discretizing_count(index@, list@),
{
    let mut count: usize = 0;
    let mut i: usize = 0;
    assert(list@.take(0) =~= Seq::<CID>::empty());
    assert(Seq::<CID>::empty().filter(counts(index@)) =~= Seq::<CID>::empty()) by {
        reveal(Seq::filter);
    }
    while i < list.len()
        invariant
            i <= list.len(),
            count <= i,
            count == discretizing_count(index@, list@.take(i as int)),
            forall|j: int| 0 <= j < list@.len() ==> list@[j] < index@.constraints.len(),
        decreases list.len() - i,
    {
        let cid = list[i];
        proof {
            list@.lemma_take_succ_push(i as int);
            list@.take(i as int).lemma_filter_push(cid, counts(index@));
        }
        if index.get_constraint(cid).flags().contains(crate::flags::ConFlags::discretizing()) {
            count += 1;
        }
        i += 1;
    }
    assert(list@.take(list@.len() as int) =~= list@);
    count
}

/// Credits the constraints that name `point` to the points that they can
/// pin when the points of `points` are known, and returns the points that
/// became discrete by it.
pub fn expand_tree(
    index: &PointIndex,
    points: &HashSet<PointID>,
    point: PointID,
    support: &mut Vec<Vec<CID>>,
) -> (new_points: Vec<PointID>)
    requires
        index@.wf(),
        point < index@.n(),
        valid_support(index@, lists_view(old(support)@)),
    ensures
        (Expansion { support: lists_view(final(support)@), found: new_points@ })
            == expand_tree_spec(index@, points@, point, lists_view(old(support)@)),
        valid_support(index@, lists_view(final(support)@)),
{
    let ghost ix = index@;
    proof {
        assert forall|t: int, j: int|
            0 <= t < support@.len() && 0 <= j < support@[t]@.len() implies support@[t]@[j]
            < ix.constraints.len() by {
            assert(lists_view(support@)[t][j] < ix.constraints.len());
        }
    }
    let ghost start = Expansion { support: lists_view(old(support)@), found: Seq::empty() };
    let mut new_points: Vec<PointID> = Vec::new();
    let cids = index.get_cids(&point);
    let mut a: usize = 0;
    assert(cids@.take(0) =~= Seq::<CID>::empty());
    while a < cids.len()
        invariant
            a <= cids.len(),
            ix == index@,
            ix.wf(),
            cids@ == ix.cids[point as int],
            point < ix.n(),
            support@.len() == ix.n(),
            forall|t: int, j: int|
                0 <= t < support@.len() && 0 <= j < support@[t]@.len() ==> support@[t]@[j]
                    < ix.constraints.len(),
            (Expansion { support: lists_view(support@), found: new_points@ }) == expand(
                ix,
                points@,
                start,
                cids@.take(a as int),
            ),
        decreases cids.len() - a,
    {
        let cid = cids[a];
        proof {
            assert(cids@ == reverse_index(ix.constraints, point));
            lemma_reverse_index_valid(ix.constraints, point, a as int);
            cids@.lemma_take_succ_push(a as int);
            assert(cids@.take(a + 1).drop_last() =~= cids@.take(a as int));
        }
        let c = index.get_constraint(cid);
        let discretizing = c.flags().contains(crate::flags::ConFlags::discretizing());
        let targets = c.targets(points);
        let ghost before = Expansion { support: lists_view(support@), found: new_points@ };
        let mut b: usize = 0;
        assert(targets@.take(0) =~= Seq::<PointID>::empty());
        while b < targets.len()
            invariant
                b <= targets.len(),
                ix == index@,
                ix.wf(),
                cid < ix.constraints.len(),
                discretizing == ix.constraints[cid as int].discretizing(),
                targets@ == ix.constraints[cid as int].targets(points@),
                support@.len() == ix.n(),
                forall|t: int, j: int|
                    0 <= t < support@.len() && 0 <= j < support@[t]@.len() ==> support@[t]@[j]
                        < ix.constraints.len(),
                (Expansion { support: lists_view(support@), found: new_points@ }) == credit_all(
                    ix,
                    before,
                    cid,
                    targets@.take(b as int),
                ),
            decreases targets.len() - b,
        {
            let t = targets[b];
            proof {
                lemma_targets_within(ix, cid, points@, b as int);
                targets@.lemma_take_succ_push(b as int);
                assert(targets@.take(b + 1).drop_last() =~= targets@.take(b as int));
            }
            let ghost prior = Expansion { support: lists_view(support@), found: new_points@ };
            let ghost held = support@;
            if !list_contains(&support[t], cid) {
                support[t].push(cid);
                proof {
                    assert(lists_view(support@) =~= prior.support.update(
                        t as int,
                        prior.support[t as int].push(cid),
                    ));
                    assert forall|x: int, j: int|
                        0 <= x < support@.len() && 0 <= j < support@[x]@.len() implies support@[x]@[j]
                            < ix.constraints.len() by {
                        if x == t {
                            if j < held[x]@.len() {
                                assert(support@[x]@[j] == held[x]@[j]);
                            }
                        } else {
                            assert(support@[x] == held[x]);
                        }
                    }
                }
                if discretizing && count_discretizing(index, &support[t]) == 2 {
                    new_points.push(t);
                }
            }
            b += 1;
        }
        proof {
            assert(targets@.take(targets@.len() as int) =~= targets@);
        }
        a += 1;
    }
    proof {
        assert(cids@.take(cids@.len() as int) =~= cids@);
        assert forall|t: int, j: int|
            0 <= t < lists_view(support@).len() && 0 <= j < lists_view(
                support@,
            )[t].len() implies #[trigger] lists_view(support@)[t][j] < ix.constraints.len() by {
            assert(support@[t]@[j] < ix.constraints.len());
        }
    }
    new_points
}

/// The entries of a vector of entries.
pub open spec fn entries_view(entries: Seq<(PointID, Vec<CID>)>) -> Seq<(PointID, Seq<CID>)> {
    Seq::new(entries.len(), |i: int| (entries[i].0, entries[i].1@))
}

/// A copy of a list of constraints.
pub fn copy_list(list: &Vec<CID>) -> (r: Vec<CID>)
    ensures
        r@ == list@,
{
    let mut out: Vec<CID> = Vec::new();
    let mut i: usize = 0;
    while i < list.len()
        invariant
            i <= list.len(),
            out@ == list@.take(i as int),
        decreases list.len() - i,
    {
        out.push(list[i]);
        proof {
            list@.lemma_take_succ_push(i as int);
        }
        i += 1;
    }
    assert(list@.take(list@.len() as int) =~= list@);
    out
}

/// The tree that grows from `root` and `orbiter`: its points in the order
/// in which they became known, each with the constraints credited to it,
/// and the set of its points.
pub fn compute_tree(root: PointID, orbiter: PointID, index: &PointIndex) -> (r: (
    Vec<(PointID, Vec<CID>)>,
    HashSet<PointID>,
))
    requires
        index@.wf(),
        root < index@.n(),
        orbiter < index@.n(),
    ensures
        entries_view(r.0@) == tree_spec(index@, root, orbiter),
        r.1@ == covered(tree_spec(index@, root, orbiter)),
{
    let ghost ix = index@;
    let n = index.len();
    let mut support: Vec<Vec<CID>> = Vec::new();
    let mut p: usize = 0;
    while p < n
        invariant
            p <= n,
            support@.len() == p,
            forall|t: int| 0 <= t < p ==> (#[trigger] support@[t])@ == Seq::<CID>::empty(),
        decreases n - p,
    {
        support.push(Vec::new());
        p += 1;
    }
    assert(lists_view(support@) =~= no_support(ix.n()));
    let mut points: HashSet<PointID> = HashSet::new();
    points.insert(root);
    assert(points@ =~= set![root]);
    expand_tree(index, &points, root, &mut support);
    points.insert(orbiter);
    let mut order: Vec<PointID> = vec![root, orbiter];
    let mut i: usize = 1;
    proof {
        assert(order@ =~= seq![root, orbiter]);
        assert(order@.take(1).to_set().insert(orbiter) =~= points@) by {
            assert(order@.take(1)[0] == root);
            assert(order@.take(1).contains(root));
        }
        assert((TreeState { order: order@, support: lists_view(support@) }) == tree_start(
            ix,
            root,
            orbiter,
        ));
    }
    while i < order.len()
        invariant
            1 <= i <= order.len(),
            ix == index@,
            ix.wf(),
            n == ix.n(),
            root < n,
            orbiter < n,
            order@.len() >= 2,
            order@[1] == orbiter,
            valid_support(ix, lists_view(support@)),
            (TreeState { order: order@, support: lists_view(support@) }) == tree_run(
                ix,
                root,
                orbiter,
                (i - 1) as nat,
            ),
            points@ == order@.take(i as int).to_set().insert(orbiter),
        decreases n + 1 - i,
    {
        let ghost s = TreeState { order: order@, support: lists_view(support@) };
        proof {
            lemma_tree_run(ix, root, orbiter, (i - 1) as nat);
            lemma_tree_bounded(ix, root, orbiter, s);
            assert(s.order[i as int] < n);
        }
        let point = order[i];
        points.insert(point);
        proof {
            let head = order@.take(i as int);
            let next = order@.take(i + 1);
            assert(points@ =~= next.to_set()) by {
                assert forall|x: PointID| points@.contains(x) implies next.to_set().contains(
                    x,
                ) by {
                    if x == point {
                        assert(next[i as int] == x);
                    } else if x == orbiter {
                        assert(next[1] == x);
                    } else {
                        assert(head.contains(x));
                        let k = choose|k: int| 0 <= k < head.len() && head[k] == x;
                        assert(next[k] == x);
                    }
                }
                assert forall|x: PointID| next.to_set().contains(x) implies points@.contains(
                    x,
                ) by {
                    let k = choose|k: int| 0 <= k < next.len() && next[k] == x;
                    if k < i {
                        assert(head[k] == x);
                        assert(head.contains(x));
                    }
                }
            }
        }
        let mut found = expand_tree(index, &points, point, &mut support);
        let ghost prior = order@;
        order.append(&mut found);
        proof {
            assert((TreeState { order: order@, support: lists_view(support@) }) == tree_step(
                ix,
                s,
                i as int,
            ));
            assert(order@.take(i + 1) =~= prior.take(i + 1));
            assert(order@.take(i + 1).to_set().insert(orbiter) =~= order@.take(i + 1).to_set()) by {
                assert(order@.take(i + 1)[1] == orbiter);
                assert(order@.take(i + 1).contains(orbiter));
            }
        }
        i += 1;
    }
    let ghost done = TreeState { order: order@, support: lists_view(support@) };
    proof {
        lemma_tree_run(ix, root, orbiter, (i - 1) as nat);
        lemma_tree_bounded(ix, root, orbiter, done);
        lemma_tree_stable(ix, root, orbiter, (i - 1) as nat, ix.n());
        assert(done == tree_run(ix, root, orbiter, ix.n()));
        assert(tree_inv(ix, root, orbiter, done));
    }
    let mut entries: Vec<(PointID, Vec<CID>)> = Vec::new();
    let mut q: usize = 0;
    while q < order.len()
        invariant
            q <= order.len(),
            done == (TreeState { order: order@, support: lists_view(support@) }),
            support@.len() == n,
            forall|k: int| 0 <= k < order@.len() ==> #[trigger] order@[k] < n,
            entries@.len() == q,
            forall|k: int|
                0 <= k < q ==> (#[trigger] entries@[k]).0 == order@[k] && entries@[k].1@
                    == support@[order@[k] as int]@,
        decreases order.len() - q,
    {
        let point = order[q];
        let list = copy_list(&support[point]);
        entries.push((point, list));
        q += 1;
    }
    proof {
        assert(entries_view(entries@) =~= entries_of(done));
        assert(points_of(entries_of(done)) =~= order@);
        assert(order@.take(order@.len() as int) =~= order@);
        assert(order@.to_set().insert(orbiter) =~= order@.to_set()) by {
            assert(order@.contains(orbiter));
        }
    }
    (entries, points)
}

/// The lists of a vector of lists of points.
pub open spec fn point_lists_view(lists: Seq<Vec<PointID>>) -> Seq<Seq<PointID>> {
    Seq::new(lists.len(), |i: int| lists[i]@)
}

/// The points that can be pinned when `p` alone is known, each once.
pub fn reach_of(index: &PointIndex, p: PointID) -> (r: Vec<PointID>)
    requires
        index@.wf(),
        p < index@.n(),
    ensures
        r@ == reach(index@, p),
{
    let ghost ix = index@;
    let mut known: HashSet<PointID> = HashSet::new();
    known.insert(p);
    assert(known@ =~= set![p]);
    let cids = index.get_cids(&p);
    let mut all: Vec<PointID> = Vec::new();
    let mut a: usize = 0;
    assert(cids@.take(0) =~= Seq::<CID>::empty());
    while a < cids.len()
        invariant
            a <= cids.len(),
            ix == index@,
            ix.wf(),
            p < ix.n(),
            known@ == set![p],
            cids@ == ix.cids[p as int],
            all@ == all_targets(ix, known@, cids@.take(a as int)),
        decreases cids.len() - a,
    {
        let cid = cids[a];
        proof {
            assert(cids@ == reverse_index(ix.constraints, p));
            lemma_reverse_index_valid(ix.constraints, p, a as int);
            cids@.lemma_take_succ_push(a as int);
            assert(cids@.take(a + 1).drop_last() =~= cids@.take(a as int));
        }
        let mut targets = index.get_constraint(cid).targets(&known);
        all.append(&mut targets);
        a += 1;
    }
    assert(cids@.take(cids@.len() as int) =~= cids@);
    unique(all)
}

/// The root pairs of the figure: each point, in ascending order, with
/// each point in its reach, so that two points are paired once.
pub fn root_pairs(index: &PointIndex) -> (r: Vec<(PointID, PointID)>)
    requires
        index@.wf(),
    ensures
        r@ == root_pairs_spec(index@),
{
    let ghost ix = index@;
    let n = index.len();
    let mut neighbors: Vec<Vec<PointID>> = Vec::new();
    let mut pairs: Vec<(PointID, PointID)> = Vec::new();
    let mut p: usize = 0;
    assert(point_lists_view(neighbors@) =~= neighbor_lists(ix, 0));
    while p < n
        invariant
            p <= n,
            ix == index@,
            ix.wf(),
            n == ix.n(),
            point_lists_view(neighbors@) == neighbor_lists(ix, p as nat),
            pairs@ == pairs_upto(neighbor_lists(ix, p as nat), p as nat),
        decreases n - p,
    {
        let ghost lists = neighbor_lists(ix, p as nat);
        proof {
            lemma_neighbor_lists(ix, p as nat);
            lemma_neighbor_lists(ix, (p + 1) as nat);
        }
        let reached = reach_of(index, p);
        let mut list: Vec<PointID> = Vec::new();
        let mut b: usize = 0;
        assert(reached@.take(0) =~= Seq::<PointID>::empty());
        assert(Seq::<PointID>::empty().filter(fresh(lists, p)) =~= Seq::<PointID>::empty()) by {
            reveal(Seq::filter);
        }
        while b < reached.len()
            invariant
                b <= reached.len(),
                neighbors@.len() == p,
                point_lists_view(neighbors@) == lists,
                list@ == reached@.take(b as int).filter(fresh(lists, p)),
            decreases reached.len() - b,
        {
            let t = reached[b];
            proof {
                reached@.lemma_take_succ_push(b as int);
                reached@.take(b as int).lemma_filter_push(t, fresh(lists, p));
                if t < p {
                    assert(lists[t as int] == neighbors@[t as int]@);
                }
            }
            if !(t < neighbors.len() && list_contains(&neighbors[t], p)) {
                list.push(t);
            }
            b += 1;
        }
        assert(reached@.take(reached@.len() as int) =~= reached@);
        let ghost head = pairs@;
        let mut c: usize = 0;
        while c < list.len()
            invariant
                c <= list.len(),
                pairs@ == head + paired(p, list@.take(c as int)),
            decreases list.len() - c,
        {
            pairs.push((p, list[c]));
            proof {
                list@.lemma_take_succ_push(c as int);
                assert(paired(p, list@.take(c + 1)) =~= paired(p, list@.take(c as int)).push(
                    (p, list@[c as int]),
                ));
                assert(head + paired(p, list@.take(c as int)).push((p, list@[c as int])) =~= (head
                    + paired(p, list@.take(c as int))).push((p, list@[c as int])));
            }
            c += 1;
        }
        assert(list@.take(list@.len() as int) =~= list@);
        neighbors.push(list);
        proof {
            let next = neighbor_lists(ix, (p + 1) as nat);
            assert(point_lists_view(neighbors@) =~= next);
            lemma_pairs_upto_same(lists, next, p as nat);
        }
        p += 1;
    }
    pairs
}

/// The trees of a vector of trees, each without its set of points.
pub open spec fn forest_view(forest: Seq<(Vec<(PointID, Vec<CID>)>, HashSet<PointID>)>) -> Seq<
    Seq<(PointID, Seq<CID>)>,
> {
    Seq::new(forest.len(), |i: int| entries_view(forest[i].0@))
}

/// The trees of a vector of orders.
pub open spec fn orders_view(orders: Seq<Vec<(PointID, Vec<CID>)>>) -> Seq<
    Seq<(PointID, Seq<CID>)>,
> {
    Seq::new(orders.len(), |i: int| entries_view(orders[i]@))
}

/// Whether every point of the tree `entries` is in `points`.
pub fn covered_by(entries: &Vec<(PointID, Vec<CID>)>, points: &HashSet<PointID>) -> (r: bool)
    ensures
        r == covered(entries_view(entries@)).subset_of(points@),
{
    let ghost tree = entries_view(entries@);
    let mut k: usize = 0;
    while k < entries.len()
        invariant
            k <= entries.len(),
            tree == entries_view(entries@),
            forall|j: int| 0 <= j < k ==> points@.contains(#[trigger] points_of(tree)[j]),
        decreases entries.len() - k,
    {
        if !points.contains(&entries[k].0) {
            assert(points_of(tree)[k as int] == entries@[k as int].0);
            assert(points_of(tree).contains(points_of(tree)[k as int]));
            return false;
        }
        k += 1;
    }
    proof {
        assert forall|x: PointID| covered(tree).contains(x) implies points@.contains(x) by {
            let j = choose|j: int| 0 <= j < points_of(tree).len() && points_of(tree)[j] == x;
            assert(points@.contains(points_of(tree)[j]));
        }
    }
    true
}

/// The forest of the figure: the trees of its root pairs, without those
/// that a later tree covers.
pub fn compute_forest(index: &PointIndex) -> (r: Vec<Vec<(PointID, Vec<CID>)>>)
    requires
        index@.wf(),
    ensures
        orders_view(r@) == forest_spec(index@),
{
    let ghost ix = index@;
    let n = index.len();
    let pairs = root_pairs(index);
    let mut forest: Vec<(Vec<(PointID, Vec<CID>)>, HashSet<PointID>)> = Vec::new();
    let mut k: usize = 0;
    assert(pairs@.take(0) =~= Seq::<(PointID, PointID)>::empty());
    assert(forest_view(forest@) =~= forest_of(ix, pairs@.take(0)));
    while k < pairs.len()
        invariant
            k <= pairs.len(),
            ix == index@,
            ix.wf(),
            n == ix.n(),
            pairs@ == root_pairs_spec(ix),
            forest_view(forest@) == forest_of(ix, pairs@.take(k as int)),
            forall|i: int|
                0 <= i < forest@.len() ==> (#[trigger] forest@[i]).1@ == covered(
                    entries_view(forest@[i].0@),
                ),
        decreases pairs.len() - k,
    {
        let (root, orbiter) = pairs[k];
        let ghost before = forest_view(forest@);
        proof {
            lemma_root_pairs_valid(ix, k as int);
            pairs@.lemma_take_succ_push(k as int);
            assert(pairs@.take(k + 1).drop_last() =~= pairs@.take(k as int));
            assert(pairs@.take(k + 1).last() == pairs@[k as int]);
        }
        // Is the pair covered by a tree?
        let mut found = false;
        let mut i: usize = 0;
        while i < forest.len()
            invariant
                i <= forest.len(),
                before == forest_view(forest@),
                forall|j: int|
                    0 <= j < forest@.len() ==> (#[trigger] forest@[j]).1@ == covered(
                        entries_view(forest@[j].0@),
                    ),
                !found ==> forall|j: int|
                    0 <= j < i ==> !(covered(#[trigger] before[j]).contains(root) && covered(
                        before[j],
                    ).contains(orbiter)),
                found ==> pair_covered(before, root, orbiter),
            decreases forest.len() - i,
        {
            assert(before[i as int] == entries_view(forest@[i as int].0@));
            if forest[i].1.contains(&root) && forest[i].1.contains(&orbiter) {
                found = true;
            }
            i += 1;
        }
        if !found {
            let (order, points) = compute_tree(root, orbiter, index);
            let ghost tree = entries_view(order@);
            let mut kept: Vec<(Vec<(PointID, Vec<CID>)>, HashSet<PointID>)> = Vec::new();
            let mut j: usize = 0;
            assert(before.take(0) =~= Seq::<Seq<(PointID, Seq<CID>)>>::empty());
            assert(Seq::<Seq<(PointID, Seq<CID>)>>::empty().filter(outside(tree)) =~= Seq::<
                Seq<(PointID, Seq<CID>)>,
            >::empty()) by {
                reveal(Seq::filter);
            }
            assert(forest_view(kept@) =~= before.take(0).filter(outside(tree)));
            while j < forest.len()
                invariant
                    j <= forest.len(),
                    forest@.len() == before.len(),
                    tree == tree_spec(ix, root, orbiter),
                    points@ == covered(tree),
                    forall|x: int|
                        j <= x < forest@.len() ==> entries_view((#[trigger] forest@[x]).0@)
                            == before[x] && forest@[x].1@ == covered(before[x]),
                    forest_view(kept@) == before.take(j as int).filter(outside(tree)),
                    forall|x: int|
                        0 <= x < kept@.len() ==> (#[trigger] kept@[x]).1@ == covered(
                            entries_view(kept@[x].0@),
                        ),
                decreases forest.len() - j,
            {
                proof {
                    before.lemma_take_succ_push(j as int);
                    before.take(j as int).lemma_filter_push(before[j as int], outside(tree));
                }
                if !covered_by(&forest[j].0, &points) {
                    let mut item: (Vec<(PointID, Vec<CID>)>, HashSet<PointID>) = (
                        Vec::new(),
                        HashSet::new(),
                    );
                    std::mem::swap(&mut item, &mut forest[j]);
                    let ghost held = kept@;
                    kept.push(item);
                    proof {
                        assert(forest_view(kept@) =~= forest_view(held).push(before[j as int]));
                    }
                }
                j += 1;
            }
            assert(before.take(before.len() as int) =~= before);
            let ghost held = kept@;
            kept.push((order, points));
            proof {
                assert(forest_view(kept@) =~= forest_view(held).push(tree));
            }
            forest = kept;
        }
        k += 1;
    }
    assert(pairs@.take(pairs@.len() as int) =~= pairs@);
    let mut orders: Vec<Vec<(PointID, Vec<CID>)>> = Vec::new();
    let ghost whole = forest_view(forest@);
    let mut i: usize = 0;
    while i < forest.len()
        invariant
            i <= forest.len(),
            forest@.len() == whole.len(),
            forall|x: int|
                i <= x < forest@.len() ==> entries_view((#[trigger] forest@[x]).0@) == whole[x],
            orders@.len() == i,
            forall|x: int| 0 <= x < i ==> entries_view(#[trigger] orders@[x]@) == whole[x],
        decreases forest.len() - i,
    {
        let mut order: Vec<(PointID, Vec<CID>)> = Vec::new();
        std::mem::swap(&mut order, &mut forest[i].0);
        orders.push(order);
        i += 1;
    }
    assert(orders_view(orders@) =~= whole);
    orders
}

/// The entries of the trees, one tree after the other.
pub fn flatten_forest(forest: Vec<Vec<(PointID, Vec<CID>)>>) -> (r: Vec<(PointID, Vec<CID>)>)
    ensures
        entries_view(r@) == flat(orders_view(forest@)),
{
    let mut forest = forest;
    let ghost whole = orders_view(forest@);
    let mut out: Vec<(PointID, Vec<CID>)> = Vec::new();
    let mut i: usize = 0;
    assert(whole.take(0) =~= Seq::<Seq<(PointID, Seq<CID>)>>::empty());
    assert(entries_view(out@) =~= flat(whole.take(0)));
    while i < forest.len()
        invariant
            i <= forest.len(),
            forest@.len() == whole.len(),
            forall|x: int| i <= x < forest@.len() ==> entries_view(#[trigger] forest@[x]@) == whole[x],
            entries_view(out@) == flat(whole.take(i as int)),
        decreases forest.len() - i,
    {
        let mut tree: Vec<(PointID, Vec<CID>)> = Vec::new();
        std::mem::swap(&mut tree, &mut forest[i]);
        let ghost held = out@;
        let ghost moved = tree@;
        out.append(&mut tree);
        proof {
            assert(whole.take(i + 1).drop_last() =~= whole.take(i as int));
            assert(whole.take(i + 1).last() == whole[i as int]);
            assert(entries_view(out@) =~= entries_view(held) + entries_view(moved));
        }
        i += 1;
    }
    assert(whole.take(whole.len() as int) =~= whole);
    out
}

/// The constraints of `cids` that satisfy, or do not satisfy, "counts
/// towards discreteness", in the order they have.
fn select(index: &PointIndex, cids: &Vec<CID>, counting: bool, out: &mut Vec<CID>)
    requires
        forall|j: int| 0 <= j < cids@.len() ==> cids@[j] < index@.constraints.len(),
    ensures
        final(out)@ == old(out)@ + cids@.filter(
            if counting {
                counts(index@)
            } else {
                trails(index@)
            },
        ),
{
    let ghost pred = if counting {
        counts(index@)
    } else {
        trails(index@)
    };
    let mut i: usize = 0;
    assert(cids@.take(0) =~= Seq::<CID>::empty());
    assert(Seq::<CID>::empty().filter(pred) =~= Seq::<CID>::empty()) by {
        reveal(Seq::filter);
    }
    assert(out@ =~= old(out)@ + cids@.take(0).filter(pred));
    while i < cids.len()
        invariant
            i <= cids.len(),
            pred == (if counting {
                counts(index@)
            } else {
                trails(index@)
            }),
            forall|j: int| 0 <= j < cids@.len() ==> cids@[j] < index@.constraints.len(),
            out@ == old(out)@ + cids@.take(i as int).filter(pred),
        decreases cids.len() - i,
    {
        let cid = cids[i];
        proof {
            cids@.lemma_take_succ_push(i as int);
            cids@.take(i as int).lemma_filter_push(cid, pred);
        }
        let discretizing = index.get_constraint(cid).flags().contains(
            crate::flags::ConFlags::discretizing(),
        );
        if discretizing == counting {
            let ghost held = out@;
            out.push(cid);
            assert(out@ =~= old(out)@ + cids@.take(i as int).filter(pred).push(cid));
        }
        i += 1;
    }
    assert(cids@.take(cids@.len() as int) =~= cids@);
}

/// The constraints of `cids` with those that count towards discreteness
/// first.
pub fn partition(index: &PointIndex, cids: &Vec<CID>) -> (r: Vec<CID>)
    requires
        forall|j: int| 0 <= j < cids@.len() ==> cids@[j] < index@.constraints.len(),
    ensures
        r@ == leading(index@, cids@),
{
    let mut out: Vec<CID> = Vec::new();
    select(index, cids, true, &mut out);
    select(index, cids, false, &mut out);
    assert(out@ =~= leading(index@, cids@));
    out
}

/// Orders the figure: computes its forest, gives each point its place in
/// the flattened forest as its new identifier, renumbers the figure, and
/// returns for each place the constraints that pin its point. A point in
/// two trees, or in none, is an error, and the figure stays as it was.
pub fn bfs_order(index: &mut PointIndex) -> (r: Result<Vec<Vec<CID>>, OrderingError>)
    requires
        old(index)@.wf(),
    ensures
        match order_spec(old(index)@) {
            Ok(order) => r is Ok && lists_view(r.unwrap()@) == order && r.unwrap()@.len()
                == old(index)@.n() && final(index)@.wf() && is_permutation(mapping_spec(old(index)@), old(index)@.n()) && renumbered(
                old(index)@,
                final(index)@,
                mapping_spec(old(index)@),
            ),
            Err(e) => r == Err::<Vec<Vec<CID>>, OrderingError>(e) && final(index)@ == old(index)@,
        },
{
    let ghost ix = index@;
    let n = index.len();
    let forest = compute_forest(index);
    let entries = flatten_forest(forest);
    let ghost all = entries_view(entries@);
    let ghost points = points_of(all);
    proof {
        assert(all == flat(forest_spec(ix)));
        lemma_order_placed(ix);
    }
    let mut places: Vec<Option<PointID>> = Vec::new();
    let mut p: usize = 0;
    while p < n
        invariant
            p <= n,
            places@.len() == p,
            forall|q: int| 0 <= q < p ==> places@[q] is None,
        decreases n - p,
    {
        places.push(None);
        p += 1;
    }
    let mut order: Vec<Vec<CID>> = Vec::new();
    let mut k: usize = 0;
    while k < entries.len()
        invariant
            k <= entries.len(),
            ix == index@,
            index@ == old(index)@,
            n == ix.n(),
            all == entries_view(entries@),
            all == flat(forest_spec(ix)),
            points == points_of(all),
            placed(ix, all),
            places@.len() == n,
            forall|a: int, b: int| 0 <= a < b < k ==> points[a] != points[b],
            forall|q: int|
                0 <= q < n ==> match #[trigger] places@[q] {
                    Some(j) => j < k && points[j as int] == q,
                    None => forall|j: int| 0 <= j < k ==> points[j] != q,
                },
            order@.len() == k,
            forall|x: int| 0 <= x < k ==> (#[trigger] order@[x])@ == leading(ix, all[x].1),
        decreases entries.len() - k,
    {
        let id = entries[k].0;
        assert(all[k as int].0 == id);
        assert(points[k as int] == id);
        match places[id] {
            Some(j) => {
                proof {
                    assert(points[j as int] == points[k as int]);
                    assert(!points.no_duplicates());
                }
                return Err(OrderingError::AmbiguousPlacement);
            },
            None => {},
        }
        places.set(id, Some(k));
        proof {
            assert forall|j: int| 0 <= j < entries@[k as int].1@.len() implies entries@[k as int].1@[j]
                < ix.constraints.len() by {
                assert(all[k as int].1[j] == entries@[k as int].1@[j]);
                assert(pinned_before(ix, points, k as int, all[k as int].1[j], all[k as int].0));
            }
        }
        let cids = partition(index, &entries[k].1);
        order.push(cids);
        k += 1;
    }
    assert(points.no_duplicates());
    let mut mapping: Vec<PointID> = Vec::new();
    p = 0;
    while p < n
        invariant
            p <= n,
            ix == index@,
            index@ == old(index)@,
            n == ix.n(),
            all == flat(forest_spec(ix)),
            points == points_of(all),
            points.no_duplicates(),
            places@.len() == n,
            forall|q: int|
                0 <= q < n ==> match #[trigger] places@[q] {
                    Some(j) => j < points.len() && points[j as int] == q,
                    None => forall|j: int| 0 <= j < points.len() ==> points[j] != q,
                },
            mapping@.len() == p,
            forall|q: int| 0 <= q < p ==> places@[q] == Some(#[trigger] mapping@[q]),
        decreases n - p,
    {
        match places[p] {
            Some(j) => {
                mapping.push(j);
            },
            None => {
                proof {
                    assert(places@[p as int] is None);
                    assert(p < ix.n() && !points.contains(p));
                }
                return Err(OrderingError::Unreached);
            },
        }
        p += 1;
    }
    proof {
        let m = mapping@;
        assert forall|q: int| 0 <= q < n implies #[trigger] m[q] < points.len() && points[m[q] as int]
            == q by {
            assert(places@[q] == Some(m[q]));
        }
        assert(m.no_duplicates()) by {
            assert forall|a: int, b: int| 0 <= a < m.len() && 0 <= b < m.len() && a != b
                implies m[a] != m[b] by {
                assert(points[m[a] as int] == a);
                assert(points[m[b] as int] == b);
            }
        }
        lemma_distinct_bounded(m, points.len());
        assert forall|g: int| 0 <= g < points.len() implies #[trigger] points[g] < n by {
            assert(all[g].0 < ix.n());
        }
        lemma_distinct_bounded(points, n as nat);
        assert(points.len() == n);
        assert forall|q: PointID| q < n implies points.contains(q) by {
            assert(points[m[q as int] as int] == q);
        }
        assert forall|q: PointID| q < n implies m.contains(q) by {
            let x = points[q as int];
            assert(points[m[x as int] as int] == x);
            assert(m[x as int] == q);
        }
        assert(m =~= mapping_spec(ix)) by {
            assert forall|q: int| 0 <= q < n implies m[q] == mapping_spec(ix)[q] by {
                let i = points.index_of(q as PointID);
                assert(points[m[q] as int] == q);
                assert(0 <= i < points.len() && points[i] == q);
            }
        }
        assert(is_permutation(m, n as nat));
        assert(lists_view(order@) =~= Seq::new(all.len(), |i: int| leading(ix, all[i].1)));
    }
    index.map_ids(mapping.as_slice());
    Ok(order)
}

} // verus!
