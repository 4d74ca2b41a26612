//! What holds of the search for an order, whatever the figure.

use crate::constraints::rules::{
    below, lemma_pinned_is_named, lemma_pins_monotonic, lemma_pins_renamed,
    lemma_targets_are_pinned, others_known, pins, renamed, CID, PointID, Rule,
};
use crate::constraints::ConstraintView;
use crate::iter::{lemma_first_occurrences_contains, lemma_first_occurrences_distinct};
use crate::order::model::{
    all_targets, counts, covered, credit, credit_all, discretizing_count, entries_of, expand,
    expand_tree_spec, flat, forest_of, forest_spec, forest_step, fresh, leading, mapping_spec,
    neighbor_lists, no_support, order_spec, outside, pair_covered, paired, pairs_upto, points_of,
    reach, root_pairs_spec, trails, tree_run, tree_spec, tree_start, tree_step, Expansion,
    TreeState,
};
use crate::order::{is_permutation, renumbered, reverse_index, IndexView};
use vstd::prelude::*;

verus! {

/// The reverse index holds identifiers of constraints only.
pub proof fn lemma_reverse_index_valid(constraints: Seq<ConstraintView>, p: PointID, k: int)
    requires
        0 <= k < reverse_index(constraints, p).len(),
    ensures
        reverse_index(constraints, p)[k] < constraints.len(),
    decreases constraints.len(),
{
    if constraints.len() > 0 {
        let front = reverse_index(constraints.drop_last(), p);
        if k < front.len() {
            lemma_reverse_index_valid(constraints.drop_last(), p, k);
        }
    }
}

/// A constraint of the figure pins points of the figure only.
pub proof fn lemma_targets_within(ix: IndexView, cid: CID, known: Set<PointID>, k: int)
    requires
        ix.wf(),
        cid < ix.constraints.len(),
        0 <= k < ix.constraints[cid as int].targets(known).len(),
    ensures
        ix.constraints[cid as int].targets(known)[k] < ix.n(),
        can_pin(ix, known, cid, ix.constraints[cid as int].targets(known)[k]),
{
    let c = ix.constraints[cid as int];
    let t = c.targets(known)[k];
    assert(c.targets(known).contains(t));
    lemma_targets_are_pinned(c.rule(), c.points(), known, t);
    lemma_pinned_is_named(c.rule(), c.points(), known, t);
    assert(c.within(ix.n()));
    let j = choose|j: int| 0 <= j < c.points().len() && c.points()[j] == t;
    assert(c.points()[j] < ix.n());
}

/// The constraint `cid` of the figure can pin `t` when exactly the points
/// of `known` are known.
pub open spec fn can_pin(ix: IndexView, known: Set<PointID>, cid: CID, t: PointID) -> bool {
    cid < ix.constraints.len() && pins(
        ix.constraints[cid as int].rule(),
        ix.constraints[cid as int].points(),
        known,
        t,
    )
}

/// Every point has its list, and the lists hold constraints of the figure.
pub open spec fn valid_support(ix: IndexView, support: Seq<Seq<CID>>) -> bool {
    &&& support.len() == ix.n()
    &&& forall|t: int, j: int|
        0 <= t < support.len() && 0 <= j < support[t].len() ==> #[trigger] support[t][j]
            < ix.constraints.len()
}

/// The point `t` was found in the step from `e0` to `e`: it was not
/// discrete before, is discrete now, and was not known.
pub open spec fn found_in(
    ix: IndexView,
    known: Set<PointID>,
    e0: Expansion,
    e: Expansion,
    t: PointID,
) -> bool {
    &&& t < e.support.len()
    &&& !known.contains(t)
    &&& discretizing_count(ix, e0.support[t as int]) < 2
    &&& discretizing_count(ix, e.support[t as int]) >= 2
}

/// `e` continues `e0`: lists only grow, by constraints that can pin their
/// point from `known`, and the points found since are new and distinct.
pub open spec fn grows(ix: IndexView, known: Set<PointID>, e0: Expansion, e: Expansion) -> bool {
    &&& e.support.len() == e0.support.len()
    &&& forall|t: int|
        0 <= t < e.support.len() ==> e0.support[t].is_prefix_of(#[trigger] e.support[t])
    &&& forall|t: int, j: int|
        0 <= t < e.support.len() && e0.support[t].len() <= j < e.support[t].len() ==> can_pin(
            ix,
            known,
            #[trigger] e.support[t][j],
            t as PointID,
        )
    &&& e0.found.is_prefix_of(e.found)
    &&& forall|j: int|
        e0.found.len() <= j < e.found.len() ==> found_in(ix, known, e0, e, #[trigger] e.found[j])
    &&& forall|a: int, b: int|
        e0.found.len() <= a < b < e.found.len() ==> e.found[a] != e.found[b]
}

/// A list counts no less than its beginning.
pub proof fn lemma_count_prefix(ix: IndexView, a: Seq<CID>, b: Seq<CID>)
    requires
        a.is_prefix_of(b),
    ensures
        discretizing_count(ix, a) <= discretizing_count(ix, b),
{
    let rest = b.skip(a.len() as int);
    assert(b =~= a + rest);
    Seq::filter_distributes_over_add(a, rest, counts(ix));
}

/// One more constraint counts once more if it counts at all.
pub proof fn lemma_count_push(ix: IndexView, list: Seq<CID>, cid: CID)
    ensures
        discretizing_count(ix, list.push(cid)) == discretizing_count(ix, list) + (if counts(
            ix,
        )(cid) {
            1nat
        } else {
            0nat
        }),
{
    list.lemma_filter_push(cid, counts(ix));
}

/// A credit continues the expansion.
pub proof fn lemma_credit_grows(
    ix: IndexView,
    known: Set<PointID>,
    e0: Expansion,
    e: Expansion,
    cid: CID,
    t: PointID,
)
    requires
        grows(ix, known, e0, e),
        t < e.support.len(),
        can_pin(ix, known, cid, t),
    ensures
        grows(ix, known, e0, credit(ix, e, cid, t)),
{
    let after = credit(ix, e, cid, t);
    let list = e.support[t as int];
    if !list.contains(cid) {
        let grown = list.push(cid);
        lemma_count_push(ix, list, cid);
        lemma_count_prefix(ix, e0.support[t as int], list);
        assert(after.support[t as int] == grown);
        assert forall|x: int| 0 <= x < after.support.len() implies e0.support[x].is_prefix_of(
            #[trigger] after.support[x],
        ) by {
            assert(e0.support[x].is_prefix_of(e.support[x]));
            if x == t {
                assert(grown.subrange(0, e0.support[x].len() as int) =~= list.subrange(
                    0,
                    e0.support[x].len() as int,
                ));
            }
        }
        assert forall|x: int, j: int|
            0 <= x < after.support.len() && e0.support[x].len() <= j
                < after.support[x].len() implies can_pin(
            ix,
            known,
            #[trigger] after.support[x][j],
            x as PointID,
        ) by {
            if x == t {
                if j < list.len() {
                    assert(after.support[x][j] == e.support[x][j]);
                }
            } else {
                assert(after.support[x][j] == e.support[x][j]);
            }
        }
        assert forall|j: int| e0.found.len() <= j < after.found.len() implies found_in(
            ix,
            known,
            e0,
            after,
            #[trigger] after.found[j],
        ) by {
            if j < e.found.len() {
                let x = e.found[j];
                assert(after.found[j] == x);
                assert(found_in(ix, known, e0, e, x));
                if x == t {
                } else {
                    assert(after.support[x as int] == e.support[x as int]);
                }
            } else {
                assert(after.found[j] == t);
                lemma_pinned_is_named(
                    ix.constraints[cid as int].rule(),
                    ix.constraints[cid as int].points(),
                    known,
                    t,
                );
            }
        }
        assert forall|a: int, b: int| e0.found.len() <= a < b < after.found.len() implies after.found[a]
            != after.found[b] by {
            if b < e.found.len() {
                assert(after.found[a] == e.found[a] && after.found[b] == e.found[b]);
            } else {
                assert(after.found[a] == e.found[a]);
                assert(found_in(ix, known, e0, e, e.found[a]));
            }
        }
        assert(e0.found.is_prefix_of(after.found)) by {
            assert(after.found.subrange(0, e0.found.len() as int) =~= e.found.subrange(
                0,
                e0.found.len() as int,
            ));
        }
    }
}

/// Crediting a constraint to its targets continues the expansion.
pub proof fn lemma_credit_all_grows(
    ix: IndexView,
    known: Set<PointID>,
    e0: Expansion,
    e: Expansion,
    cid: CID,
    targets: Seq<PointID>,
)
    requires
        grows(ix, known, e0, e),
        forall|k: int|
            0 <= k < targets.len() ==> #[trigger] targets[k] < e.support.len() && can_pin(
                ix,
                known,
                cid,
                targets[k],
            ),
    ensures
        grows(ix, known, e0, credit_all(ix, e, cid, targets)),
    decreases targets.len(),
{
    if targets.len() > 0 {
        let front = targets.drop_last();
        assert forall|k: int| 0 <= k < front.len() implies #[trigger] front[k] < e.support.len()
            && can_pin(ix, known, cid, front[k]) by {
            assert(front[k] == targets[k]);
        }
        lemma_credit_all_grows(ix, known, e0, e, cid, front);
        let mid = credit_all(ix, e, cid, front);
        assert(targets.last() == targets[targets.len() - 1]);
        lemma_credit_grows(ix, known, e0, mid, cid, targets.last());
    }
}

/// Crediting constraints of the figure continues the expansion.
pub proof fn lemma_expand_grows(
    ix: IndexView,
    known: Set<PointID>,
    e0: Expansion,
    e: Expansion,
    cids: Seq<CID>,
)
    requires
        ix.wf(),
        grows(ix, known, e0, e),
        e.support.len() == ix.n(),
        forall|k: int| 0 <= k < cids.len() ==> #[trigger] cids[k] < ix.constraints.len(),
    ensures
        grows(ix, known, e0, expand(ix, known, e, cids)),
    decreases cids.len(),
{
    if cids.len() > 0 {
        let front = cids.drop_last();
        assert forall|k: int| 0 <= k < front.len() implies #[trigger] front[k]
            < ix.constraints.len() by {
            assert(front[k] == cids[k]);
        }
        lemma_expand_grows(ix, known, e0, e, front);
        let mid = expand(ix, known, e, front);
        let cid = cids.last();
        assert(cid == cids[cids.len() - 1]);
        let targets = ix.constraints[cid as int].targets(known);
        assert forall|k: int| 0 <= k < targets.len() implies #[trigger] targets[k]
            < mid.support.len() && can_pin(ix, known, cid, targets[k]) by {
            lemma_targets_within(ix, cid, known, k);
        }
        lemma_credit_all_grows(ix, known, e0, mid, cid, targets);
    }
}

/// An expansion continues what it starts from.
pub proof fn lemma_expand_tree_grows(
    ix: IndexView,
    known: Set<PointID>,
    point: PointID,
    support: Seq<Seq<CID>>,
)
    requires
        ix.wf(),
        point < ix.n(),
        support.len() == ix.n(),
    ensures
        grows(
            ix,
            known,
            Expansion { support, found: Seq::empty() },
            expand_tree_spec(ix, known, point, support),
        ),
{
    let start = Expansion { support, found: Seq::empty() };
    let cids = ix.cids[point as int];
    assert(cids == reverse_index(ix.constraints, point));
    assert forall|k: int| 0 <= k < cids.len() implies #[trigger] cids[k]
        < ix.constraints.len() by {
        lemma_reverse_index_valid(ix.constraints, point, k);
    }
    assert(grows(ix, known, start, start)) by {
        assert forall|t: int| 0 <= t < start.support.len() implies start.support[t].is_prefix_of(
            #[trigger] start.support[t],
        ) by {
            assert(start.support[t].subrange(0, start.support[t].len() as int)
                =~= start.support[t]);
        }
        assert(start.found.subrange(0, 0) =~= start.found);
    }
    lemma_expand_grows(ix, known, start, start, cids);
}

/// The constraint `cid` could pin `t` when some beginning of `order` was
/// known.
pub open spec fn witnessed(ix: IndexView, order: Seq<PointID>, cid: CID, t: PointID) -> bool {
    exists|l: int| 1 <= l <= order.len() && #[trigger] can_pin(ix, order.take(l).to_set(), cid, t)
}

/// What holds of the search of a tree at every step.
pub open spec fn tree_inv(ix: IndexView, root: PointID, orbiter: PointID, s: TreeState) -> bool {
    &&& s.order.len() >= 2
    &&& s.order[0] == root
    &&& s.order[1] == orbiter
    &&& forall|q: int| 0 <= q < s.order.len() ==> #[trigger] s.order[q] < ix.n()
    &&& valid_support(ix, s.support)
    &&& forall|q: int|
        2 <= q < s.order.len() ==> discretizing_count(ix, s.support[#[trigger] s.order[q] as int])
            >= 2
    &&& forall|q: int|
        2 <= q < s.order.len() ==> #[trigger] s.order[q] != root && s.order[q] != orbiter
    &&& forall|a: int, b: int| 2 <= a < b < s.order.len() ==> s.order[a] != s.order[b]
    &&& forall|t: int, j: int|
        0 <= t < s.support.len() && 0 <= j < s.support[t].len() ==> witnessed(
            ix,
            s.order,
            #[trigger] s.support[t][j],
            t as PointID,
        )
}

/// The search starts in a state that meets the invariant.
pub proof fn lemma_tree_start(ix: IndexView, root: PointID, orbiter: PointID)
    requires
        ix.wf(),
        root < ix.n(),
        orbiter < ix.n(),
    ensures
        tree_inv(ix, root, orbiter, tree_start(ix, root, orbiter)),
{
    let s = tree_start(ix, root, orbiter);
    let known = set![root];
    let blank = no_support(ix.n());
    let start = Expansion { support: blank, found: Seq::empty() };
    let e = expand_tree_spec(ix, known, root, blank);
    lemma_expand_tree_grows(ix, known, root, blank);
    assert(s.order.take(1).to_set() =~= known) by {
        assert(s.order.take(1)[0] == root);
        assert(s.order.take(1).contains(root));
    }
    assert forall|t: int, j: int|
        0 <= t < s.support.len() && 0 <= j < s.support[t].len() implies #[trigger] s.support[t][j]
            < ix.constraints.len() && witnessed(ix, s.order, s.support[t][j], t as PointID) by {
        assert(blank[t].len() == 0);
        assert(can_pin(ix, known, e.support[t][j], t as PointID));
        assert(can_pin(ix, s.order.take(1).to_set(), s.support[t][j], t as PointID));
    }
}

/// A step of the search keeps the invariant.
pub proof fn lemma_tree_step(ix: IndexView, root: PointID, orbiter: PointID, s: TreeState, i: int)
    requires
        ix.wf(),
        tree_inv(ix, root, orbiter, s),
        1 <= i < s.order.len(),
    ensures
        tree_inv(ix, root, orbiter, tree_step(ix, s, i)),
{
    let known = s.order.take(i + 1).to_set();
    let start = Expansion { support: s.support, found: Seq::empty() };
    let e = expand_tree_spec(ix, known, s.order[i], s.support);
    let after = tree_step(ix, s, i);
    lemma_expand_tree_grows(ix, known, s.order[i], s.support);
    assert(known.contains(root) && known.contains(orbiter)) by {
        assert(s.order.take(i + 1)[0] == root);
        assert(s.order.take(i + 1)[1] == orbiter);
    }
    assert forall|q: int| 0 <= q < after.order.len() implies #[trigger] after.order[q]
        < ix.n() by {
        if q >= s.order.len() {
            assert(found_in(ix, known, start, e, e.found[q - s.order.len()]));
        }
    }
    assert forall|q: int| 2 <= q < after.order.len() implies discretizing_count(
        ix,
        after.support[#[trigger] after.order[q] as int],
    ) >= 2 && after.order[q] != root && after.order[q] != orbiter by {
        if q < s.order.len() {
            let t = s.order[q];
            assert(s.support[t as int].is_prefix_of(e.support[t as int]));
            lemma_count_prefix(ix, s.support[t as int], e.support[t as int]);
        } else {
            assert(found_in(ix, known, start, e, e.found[q - s.order.len()]));
        }
    }
    assert forall|a: int, b: int| 2 <= a < b < after.order.len() implies after.order[a]
        != after.order[b] by {
        if b < s.order.len() {
        } else if a < s.order.len() {
            assert(found_in(ix, known, start, e, e.found[b - s.order.len()]));
            assert(discretizing_count(ix, s.support[s.order[a] as int]) >= 2);
        } else {
            assert(e.found[a - s.order.len()] != e.found[b - s.order.len()]);
        }
    }
    assert forall|t: int, j: int|
        0 <= t < after.support.len() && 0 <= j < after.support[t].len() implies #[trigger] after.support[t][j]
            < ix.constraints.len() && witnessed(
        ix,
        after.order,
        after.support[t][j],
        t as PointID,
    ) by {
        let cid = after.support[t][j];
        assert(s.support[t].is_prefix_of(e.support[t]));
        if j < s.support[t].len() {
            assert(cid == s.support[t][j]);
            assert(witnessed(ix, s.order, cid, t as PointID));
            let l = choose|l: int|
                1 <= l <= s.order.len() && #[trigger] can_pin(
                    ix,
                    s.order.take(l).to_set(),
                    cid,
                    t as PointID,
                );
            assert(after.order.take(l) =~= s.order.take(l));
            assert(can_pin(ix, after.order.take(l).to_set(), cid, t as PointID));
        } else {
            assert(can_pin(ix, known, cid, t as PointID));
            assert(after.order.take(i + 1) =~= s.order.take(i + 1));
            assert(can_pin(ix, after.order.take(i + 1).to_set(), cid, t as PointID));
        }
    }
}

/// The search meets the invariant after any number of steps.
pub proof fn lemma_tree_run(ix: IndexView, root: PointID, orbiter: PointID, steps: nat)
    requires
        ix.wf(),
        root < ix.n(),
        orbiter < ix.n(),
    ensures
        tree_inv(ix, root, orbiter, tree_run(ix, root, orbiter, steps)),
    decreases steps,
{
    if steps == 0 {
        lemma_tree_start(ix, root, orbiter);
    } else {
        lemma_tree_run(ix, root, orbiter, (steps - 1) as nat);
        let s = tree_run(ix, root, orbiter, (steps - 1) as nat);
        if steps < s.order.len() {
            lemma_tree_step(ix, root, orbiter, s, steps as int);
        }
    }
}

/// There are `n` identifiers below `n`.
pub proof fn lemma_below_len(n: nat)
    requires
        n <= usize::MAX,
    ensures
        below(n).finite(),
        below(n).len() == n,
    decreases n,
{
    if n == 0 {
        assert(below(0) =~= Set::<PointID>::empty());
    } else {
        lemma_below_len((n - 1) as nat);
        assert(below(n) =~= below((n - 1) as nat).insert((n - 1) as PointID));
    }
}

/// A sequence of distinct identifiers below `n` has at most `n` entries.
pub proof fn lemma_distinct_bounded(s: Seq<PointID>, n: nat)
    requires
        n <= usize::MAX,
        s.no_duplicates(),
        forall|i: int| 0 <= i < s.len() ==> #[trigger] s[i] < n,
    ensures
        s.len() <= n,
{
    lemma_below_len(n);
    s.unique_seq_to_set();
    assert(s.to_set().subset_of(below(n))) by {
        assert forall|x: PointID| s.to_set().contains(x) implies below(n).contains(x) by {
            let i = choose|i: int| 0 <= i < s.len() && s[i] == x;
            assert(s[i] < n);
        }
    }
    vstd::set_lib::lemma_len_subset(s.to_set(), below(n));
}

/// The order of a tree never holds more than one entry beyond the number
/// of points.
pub proof fn lemma_tree_bounded(ix: IndexView, root: PointID, orbiter: PointID, s: TreeState)
    requires
        tree_inv(ix, root, orbiter, s),
        ix.n() <= usize::MAX,
    ensures
        s.order.len() <= ix.n() + 1,
{
    let rest = s.order.skip(1);
    assert forall|a: int, b: int| 0 <= a < rest.len() && 0 <= b < rest.len() && a != b
        implies rest[a] != rest[b] by {
        assert(rest[a] == s.order[a + 1] && rest[b] == s.order[b + 1]);
        if a < b {
            if a == 0 {
                assert(s.order[b + 1] != orbiter);
            }
        } else {
            if b == 0 {
                assert(s.order[a + 1] != orbiter);
            }
        }
    }
    assert forall|i: int| 0 <= i < rest.len() implies #[trigger] rest[i] < ix.n() by {
        assert(rest[i] == s.order[i + 1]);
    }
    lemma_distinct_bounded(rest, ix.n());
}

/// Once every place of the order was visited, further steps change
/// nothing.
pub proof fn lemma_tree_stable(ix: IndexView, root: PointID, orbiter: PointID, a: nat, b: nat)
    requires
        a <= b,
        tree_run(ix, root, orbiter, a).order.len() <= a + 1,
    ensures
        tree_run(ix, root, orbiter, b) == tree_run(ix, root, orbiter, a),
    decreases b,
{
    if b > a {
        lemma_tree_stable(ix, root, orbiter, a, (b - 1) as nat);
    }
}

/// The points of a tree are distinct, and each constraint credited to a
/// point can pin it when the points before it in the tree are known.
pub open spec fn tree_sound(ix: IndexView, entries: Seq<(PointID, Seq<CID>)>) -> bool {
    &&& points_of(entries).no_duplicates()
    &&& forall|q: int| 0 <= q < entries.len() ==> (#[trigger] entries[q]).0 < ix.n()
    &&& forall|q: int, j: int|
        0 <= q < entries.len() && 0 <= j < entries[q].1.len() ==> can_pin(
            ix,
            points_of(entries).take(q).to_set(),
            #[trigger] entries[q].1[j],
            entries[q].0,
        )
}

/// The entries of a state that meets the invariant are sound, if root and
/// orbiter differ.
pub proof fn lemma_entries_sound(ix: IndexView, root: PointID, orbiter: PointID, s: TreeState)
    requires
        tree_inv(ix, root, orbiter, s),
        root != orbiter,
    ensures
        tree_sound(ix, entries_of(s)),
{
    let entries = entries_of(s);
    let points = points_of(entries);
    assert(points =~= s.order);
    assert forall|q: int, j: int|
        0 <= q < entries.len() && 0 <= j < entries[q].1.len() implies can_pin(
        ix,
        points.take(q).to_set(),
        #[trigger] entries[q].1[j],
        entries[q].0,
    ) by {
        let t = s.order[q];
        let cid = s.support[t as int][j];
        assert(entries[q].1[j] == cid);
        assert(witnessed(ix, s.order, cid, t));
        let l = choose|l: int|
            1 <= l <= s.order.len() && #[trigger] can_pin(ix, s.order.take(l).to_set(), cid, t);
        let c = ix.constraints[cid as int];
        lemma_pinned_is_named(c.rule(), c.points(), s.order.take(l).to_set(), t);
        if q < l {
            assert(s.order.take(l)[q] == t);
            assert(s.order.take(l).contains(t));
        }
        assert(s.order.take(l).to_set().subset_of(s.order.take(q).to_set())) by {
            assert forall|x: PointID| s.order.take(l).to_set().contains(x) implies s.order.take(
                q,
            ).to_set().contains(x) by {
                let i = choose|i: int| 0 <= i < l && s.order.take(l)[i] == x;
                assert(s.order.take(q)[i] == x);
            }
        }
        assert(!s.order.take(q).to_set().contains(t)) by {
            if s.order.take(q).contains(t) {
                let i = choose|i: int| 0 <= i < q && s.order.take(q)[i] == t;
                assert(s.order[i] == s.order[q]);
            }
        }
        lemma_pins_monotonic(
            c.rule(),
            c.points(),
            s.order.take(l).to_set(),
            s.order.take(q).to_set(),
            t,
        );
    }
}

/// A tree that grows from two different points of the figure is sound.
pub proof fn lemma_tree_sound(ix: IndexView, root: PointID, orbiter: PointID)
    requires
        ix.wf(),
        root < ix.n(),
        orbiter < ix.n(),
        root != orbiter,
    ensures
        tree_sound(ix, tree_spec(ix, root, orbiter)),
{
    lemma_tree_run(ix, root, orbiter, ix.n());
    lemma_entries_sound(ix, root, orbiter, tree_run(ix, root, orbiter, ix.n()));
}

/// What constraints of the figure can pin are points of the figure that
/// are not known.
pub proof fn lemma_all_targets_valid(ix: IndexView, known: Set<PointID>, cids: Seq<CID>, k: int)
    requires
        ix.wf(),
        forall|a: int| 0 <= a < cids.len() ==> #[trigger] cids[a] < ix.constraints.len(),
        0 <= k < all_targets(ix, known, cids).len(),
    ensures
        all_targets(ix, known, cids)[k] < ix.n(),
        !known.contains(all_targets(ix, known, cids)[k]),
    decreases cids.len(),
{
    if cids.len() > 0 {
        let front = cids.drop_last();
        let head = all_targets(ix, known, front);
        let cid = cids.last();
        assert(cid == cids[cids.len() - 1]);
        if k < head.len() {
            assert forall|a: int| 0 <= a < front.len() implies #[trigger] front[a]
                < ix.constraints.len() by {
                assert(front[a] == cids[a]);
            }
            lemma_all_targets_valid(ix, known, front, k);
        } else {
            lemma_targets_within(ix, cid, known, k - head.len());
            let c = ix.constraints[cid as int];
            lemma_pinned_is_named(c.rule(), c.points(), known, c.targets(known)[k - head.len()]);
        }
    }
}

/// The points in the reach of a point are other points of the figure.
pub proof fn lemma_reach_valid(ix: IndexView, p: PointID, k: int)
    requires
        ix.wf(),
        p < ix.n(),
        0 <= k < reach(ix, p).len(),
    ensures
        reach(ix, p)[k] < ix.n(),
        reach(ix, p)[k] != p,
{
    let cids = ix.cids[p as int];
    let all = all_targets(ix, set![p], cids);
    let t = reach(ix, p)[k];
    assert(reach(ix, p).contains(t));
    lemma_first_occurrences_contains(all, t);
    let a = choose|a: int| 0 <= a < all.len() && all[a] == t;
    assert(cids == reverse_index(ix.constraints, p));
    assert forall|x: int| 0 <= x < cids.len() implies #[trigger] cids[x]
        < ix.constraints.len() by {
        lemma_reverse_index_valid(ix.constraints, p, x);
    }
    lemma_all_targets_valid(ix, set![p], cids, a);
}

/// The orbiters of a point are other points of the figure, and the list
/// of a point does not change when later points get theirs.
pub proof fn lemma_neighbor_lists(ix: IndexView, k: nat)
    requires
        ix.wf(),
        k <= ix.n(),
    ensures
        neighbor_lists(ix, k).len() == k,
        forall|p: int, j: int|
            0 <= p < k && 0 <= j < neighbor_lists(ix, k)[p].len() ==> (
            #[trigger] neighbor_lists(ix, k)[p][j]) < ix.n() && neighbor_lists(ix, k)[p][j] != p,
        forall|a: nat, p: int|
            a <= k && 0 <= p < a ==> (#[trigger] neighbor_lists(ix, a)[p]) == neighbor_lists(
                ix,
                k,
            )[p],
    decreases k,
{
    if k > 0 {
        let m = (k - 1) as nat;
        lemma_neighbor_lists(ix, m);
        let lists = neighbor_lists(ix, m);
        let p = m as PointID;
        let list = reach(ix, p).filter(fresh(lists, p));
        let all = neighbor_lists(ix, k);
        assert(all == lists.push(list));
        assert forall|q: int, j: int| 0 <= q < k && 0 <= j < all[q].len() implies (
        #[trigger] all[q][j]) < ix.n() && all[q][j] != q by {
            if q < m {
                assert(all[q] == lists[q]);
            } else {
                let t = list[j];
                assert(list.contains(t));
                reach(ix, p).lemma_filter_contains_rev(fresh(lists, p), t);
                let x = choose|x: int| 0 <= x < reach(ix, p).len() && reach(ix, p)[x] == t;
                lemma_reach_valid(ix, p, x);
            }
        }
        assert forall|a: nat, q: int| a <= k && 0 <= q < a implies (#[trigger] neighbor_lists(
            ix,
            a,
        )[q]) == all[q] by {
            if a < k {
                assert(neighbor_lists(ix, a)[q] == lists[q]);
                assert(all[q] == lists[q]);
            }
        }
    }
}

/// The pairs of the first points depend on the lists of those points only.
pub proof fn lemma_pairs_upto_same(a: Seq<Seq<PointID>>, b: Seq<Seq<PointID>>, k: nat)
    requires
        k <= a.len(),
        k <= b.len(),
        forall|p: int| 0 <= p < k ==> #[trigger] a[p] == b[p],
    ensures
        pairs_upto(a, k) == pairs_upto(b, k),
    decreases k,
{
    if k > 0 {
        lemma_pairs_upto_same(a, b, (k - 1) as nat);
        assert(a[k - 1] == b[k - 1]);
    }
}

/// Each pair holds one of the first points and one of its orbiters.
pub proof fn lemma_pairs_upto(lists: Seq<Seq<PointID>>, k: nat, x: int)
    requires
        k <= lists.len(),
        k <= usize::MAX,
        0 <= x < pairs_upto(lists, k).len(),
    ensures
        pairs_upto(lists, k)[x].0 < k,
        lists[pairs_upto(lists, k)[x].0 as int].contains(pairs_upto(lists, k)[x].1),
    decreases k,
{
    if k > 0 {
        let head = pairs_upto(lists, (k - 1) as nat);
        if x < head.len() {
            lemma_pairs_upto(lists, (k - 1) as nat, x);
        } else {
            let tail = paired((k - 1) as PointID, lists[k - 1]);
            assert(pairs_upto(lists, k)[x] == tail[x - head.len()]);
            assert(lists[k - 1][x - head.len()] == tail[x - head.len()].1);
        }
    }
}

/// A root pair holds two different points of the figure.
pub proof fn lemma_root_pairs_valid(ix: IndexView, x: int)
    requires
        ix.wf(),
        0 <= x < root_pairs_spec(ix).len(),
    ensures
        root_pairs_spec(ix)[x].0 < ix.n(),
        root_pairs_spec(ix)[x].1 < ix.n(),
        root_pairs_spec(ix)[x].0 != root_pairs_spec(ix)[x].1,
{
    let lists = neighbor_lists(ix, ix.n());
    lemma_neighbor_lists(ix, ix.n());
    lemma_pairs_upto(lists, ix.n(), x);
    let pair = root_pairs_spec(ix)[x];
    let j = choose|j: int| 0 <= j < lists[pair.0 as int].len() && lists[pair.0 as int][j] == pair.1;
    assert(lists[pair.0 as int][j] < ix.n());
}

/// What is left of distinct items is distinct.
pub proof fn lemma_filter_distinct(s: Seq<PointID>, pred: spec_fn(PointID) -> bool)
    requires
        s.no_duplicates(),
    ensures
        s.filter(pred).no_duplicates(),
    decreases s.len(),
{
    reveal(Seq::filter);
    if s.len() > 0 {
        let front = s.drop_last();
        let kept = front.filter(pred);
        lemma_filter_distinct(front, pred);
        if pred(s.last()) {
            let out = s.filter(pred);
            assert forall|a: int, b: int| 0 <= a < out.len() && 0 <= b < out.len() && a != b
                implies out[a] != out[b] by {
                if a < kept.len() && b < kept.len() {
                } else {
                    let inner = if a < kept.len() {
                        a
                    } else {
                        b
                    };
                    assert(kept.contains(kept[inner]));
                    front.lemma_filter_contains_rev(pred, kept[inner]);
                    let i = choose|i: int| 0 <= i < front.len() && front[i] == kept[inner];
                    assert(s[i] == kept[inner]);
                }
            }
        }
    }
}

/// The list of orbiters of a point is its reach without the points that
/// listed it, and names no point twice.
pub proof fn lemma_neighbor_list(ix: IndexView, p: PointID)
    requires
        ix.wf(),
        p < ix.n(),
    ensures
        neighbor_lists(ix, ix.n())[p as int] == reach(ix, p).filter(
            fresh(neighbor_lists(ix, p as nat), p),
        ),
        neighbor_lists(ix, ix.n())[p as int].no_duplicates(),
{
    lemma_neighbor_lists(ix, ix.n());
    lemma_neighbor_lists(ix, (p + 1) as nat);
    let lists = neighbor_lists(ix, p as nat);
    assert(neighbor_lists(ix, (p + 1) as nat)[p as int] == reach(ix, p).filter(fresh(lists, p)));
    lemma_first_occurrences_distinct(all_targets(ix, set![p], ix.cids[p as int]));
    lemma_filter_distinct(reach(ix, p), fresh(lists, p));
}

/// Of two pairs, the earlier has the smaller root, or both have the same
/// root and the orbiter of the earlier stands earlier in the root's list.
pub proof fn lemma_pairs_upto_ordered(lists: Seq<Seq<PointID>>, k: nat, x: int, y: int)
    requires
        k <= lists.len(),
        k <= usize::MAX,
        0 <= x < y < pairs_upto(lists, k).len(),
    ensures
        pairs_upto(lists, k)[x].0 < pairs_upto(lists, k)[y].0 || (pairs_upto(lists, k)[x].0
            == pairs_upto(lists, k)[y].0 && exists|a: int, b: int|
            0 <= a < b < lists[pairs_upto(lists, k)[x].0 as int].len() && #[trigger] lists[pairs_upto(
                lists,
                k,
            )[x].0 as int][a] == pairs_upto(lists, k)[x].1 && #[trigger] lists[pairs_upto(
                lists,
                k,
            )[x].0 as int][b] == pairs_upto(lists, k)[y].1),
    decreases k,
{
    if k > 0 {
        let head = pairs_upto(lists, (k - 1) as nat);
        let tail = paired((k - 1) as PointID, lists[k - 1]);
        let all = pairs_upto(lists, k);
        if y < head.len() {
            lemma_pairs_upto_ordered(lists, (k - 1) as nat, x, y);
        } else if x < head.len() {
            lemma_pairs_upto(lists, (k - 1) as nat, x);
            assert(all[y] == tail[y - head.len()]);
        } else {
            let a = x - head.len();
            let b = y - head.len();
            assert(all[x] == tail[a]);
            assert(all[y] == tail[b]);
            assert(lists[k - 1][a] == all[x].1 && lists[k - 1][b] == all[y].1);
        }
    }
}

/// Two points are paired once: no root pair occurs twice, and none occurs
/// with root and orbiter the other way round.
pub proof fn lemma_root_pairs_once(ix: IndexView, x: int, y: int)
    requires
        ix.wf(),
        0 <= x < y < root_pairs_spec(ix).len(),
    ensures
        root_pairs_spec(ix)[x] != root_pairs_spec(ix)[y],
        root_pairs_spec(ix)[x] != (root_pairs_spec(ix)[y].1, root_pairs_spec(ix)[y].0),
{
    let lists = neighbor_lists(ix, ix.n());
    let pairs = root_pairs_spec(ix);
    lemma_neighbor_lists(ix, ix.n());
    lemma_pairs_upto(lists, ix.n(), x);
    lemma_pairs_upto(lists, ix.n(), y);
    lemma_pairs_upto_ordered(lists, ix.n(), x, y);
    lemma_root_pairs_valid(ix, x);
    lemma_root_pairs_valid(ix, y);
    let (a, b) = pairs[x];
    if pairs[x] == pairs[y] {
        lemma_neighbor_list(ix, a);
    }
    if pairs[y] == (b, a) {
        // Of the two points, the greater was listed by the smaller, and so
        // does not list it.
        let (small, great) = if a < b {
            (a, b)
        } else {
            (b, a)
        };
        assert(lists[small as int].contains(great));
        assert(lists[great as int].contains(small));
        lemma_neighbor_list(ix, great);
        let before = neighbor_lists(ix, great as nat);
        lemma_neighbor_lists(ix, great as nat);
        assert(before[small as int] == lists[small as int]);
        let kept = reach(ix, great).filter(fresh(before, great));
        let i = choose|i: int| 0 <= i < kept.len() && kept[i] == small;
        reach(ix, great).lemma_filter_pred(fresh(before, great), i);
        assert(fresh(before, great)(small));
    }
}

/// A tree covers its root and its orbiter.
pub proof fn lemma_tree_covers_its_pair(ix: IndexView, root: PointID, orbiter: PointID)
    requires
        ix.wf(),
        root < ix.n(),
        orbiter < ix.n(),
    ensures
        covered(tree_spec(ix, root, orbiter)).contains(root),
        covered(tree_spec(ix, root, orbiter)).contains(orbiter),
{
    let s = tree_run(ix, root, orbiter, ix.n());
    lemma_tree_run(ix, root, orbiter, ix.n());
    let points = points_of(entries_of(s));
    assert(points =~= s.order);
    assert(points[0] == root);
    assert(points[1] == orbiter);
    assert(points.contains(root));
    assert(points.contains(orbiter));
}

/// A tree that leaves the forest when the tree of a pair joins it covers
/// less than the new tree: all of its points are covered by the new tree,
/// but not both points of the pair.
pub proof fn lemma_reduction_is_strict(
    ix: IndexView,
    forest: Seq<Seq<(PointID, Seq<CID>)>>,
    root: PointID,
    orbiter: PointID,
    i: int,
)
    requires
        ix.wf(),
        root < ix.n(),
        orbiter < ix.n(),
        !pair_covered(forest, root, orbiter),
        0 <= i < forest.len(),
        !outside(tree_spec(ix, root, orbiter))(forest[i]),
    ensures
        covered(forest[i]).subset_of(covered(tree_spec(ix, root, orbiter))),
        covered(forest[i]) != covered(tree_spec(ix, root, orbiter)),
{
    lemma_tree_covers_its_pair(ix, root, orbiter);
    assert(!(covered(forest[i]).contains(root) && covered(forest[i]).contains(orbiter)));
}

/// Every tree of the forest that grows from valid pairs is sound.
pub proof fn lemma_forest_of_sound(ix: IndexView, pairs: Seq<(PointID, PointID)>, i: int)
    requires
        ix.wf(),
        forall|x: int|
            0 <= x < pairs.len() ==> (#[trigger] pairs[x]).0 < ix.n() && pairs[x].1 < ix.n()
                && pairs[x].0 != pairs[x].1,
        0 <= i < forest_of(ix, pairs).len(),
    ensures
        tree_sound(ix, forest_of(ix, pairs)[i]),
    decreases pairs.len(),
{
    if pairs.len() > 0 {
        let front = pairs.drop_last();
        let before = forest_of(ix, front);
        let pair = pairs.last();
        assert(pair == pairs[pairs.len() - 1]);
        assert forall|x: int| 0 <= x < front.len() implies (#[trigger] front[x]).0 < ix.n()
            && front[x].1 < ix.n() && front[x].0 != front[x].1 by {
            assert(front[x] == pairs[x]);
        }
        let after = forest_step(ix, before, pair.0, pair.1);
        if after == before {
            lemma_forest_of_sound(ix, front, i);
        } else {
            let tree = tree_spec(ix, pair.0, pair.1);
            let kept = before.filter(outside(tree));
            assert(after == kept.push(tree));
            if i < kept.len() {
                assert(kept.contains(kept[i]));
                before.lemma_filter_contains_rev(outside(tree), kept[i]);
                let x = choose|x: int| 0 <= x < before.len() && before[x] == kept[i];
                lemma_forest_of_sound(ix, front, x);
            } else {
                lemma_tree_sound(ix, pair.0, pair.1);
            }
        }
    }
}

/// Every tree of the figure's forest is sound.
pub proof fn lemma_forest_sound(ix: IndexView, i: int)
    requires
        ix.wf(),
        0 <= i < forest_spec(ix).len(),
    ensures
        tree_sound(ix, forest_spec(ix)[i]),
{
    let pairs = root_pairs_spec(ix);
    assert forall|x: int| 0 <= x < pairs.len() implies (#[trigger] pairs[x]).0 < ix.n()
        && pairs[x].1 < ix.n() && pairs[x].0 != pairs[x].1 by {
        lemma_root_pairs_valid(ix, x);
    }
    lemma_forest_of_sound(ix, pairs, i);
}

/// The constraint `cid` can pin `t` from points that stand before place
/// `g` of `points`.
pub open spec fn pinned_before(
    ix: IndexView,
    points: Seq<PointID>,
    g: int,
    cid: CID,
    t: PointID,
) -> bool {
    exists|known: Set<PointID>|
        known.subset_of(points.take(g).to_set()) && #[trigger] can_pin(ix, known, cid, t)
}

/// Every entry holds a point of the figure, and each of its constraints
/// can pin that point from points that stand before it.
pub open spec fn placed(ix: IndexView, entries: Seq<(PointID, Seq<CID>)>) -> bool {
    &&& forall|g: int| 0 <= g < entries.len() ==> (#[trigger] entries[g]).0 < ix.n()
    &&& forall|g: int, j: int|
        0 <= g < entries.len() && 0 <= j < entries[g].1.len() ==> pinned_before(
            ix,
            points_of(entries),
            g,
            #[trigger] entries[g].1[j],
            entries[g].0,
        )
}

/// The entries of a sound tree are placed.
pub proof fn lemma_tree_placed(ix: IndexView, entries: Seq<(PointID, Seq<CID>)>)
    requires
        tree_sound(ix, entries),
    ensures
        placed(ix, entries),
{
    let points = points_of(entries);
    assert forall|g: int, j: int|
        0 <= g < entries.len() && 0 <= j < entries[g].1.len() implies pinned_before(
        ix,
        points,
        g,
        #[trigger] entries[g].1[j],
        entries[g].0,
    ) by {
        let known = points.take(g).to_set();
        assert(known.subset_of(points.take(g).to_set()));
        assert(can_pin(ix, known, entries[g].1[j], entries[g].0));
    }
}

/// Placed entries behind placed entries are placed.
pub proof fn lemma_placed_concat(
    ix: IndexView,
    a: Seq<(PointID, Seq<CID>)>,
    b: Seq<(PointID, Seq<CID>)>,
)
    requires
        placed(ix, a),
        placed(ix, b),
    ensures
        placed(ix, a + b),
{
    let all = a + b;
    let points = points_of(all);
    assert forall|g: int| 0 <= g < all.len() implies (#[trigger] all[g]).0 < ix.n() by {
        if g < a.len() {
            assert(all[g] == a[g]);
        } else {
            assert(all[g] == b[g - a.len()]);
        }
    }
    assert forall|g: int, j: int|
        0 <= g < all.len() && 0 <= j < all[g].1.len() implies pinned_before(
        ix,
        points,
        g,
        #[trigger] all[g].1[j],
        all[g].0,
    ) by {
        if g < a.len() {
            assert(all[g] == a[g]);
            assert(pinned_before(ix, points_of(a), g, a[g].1[j], a[g].0));
            let known = choose|known: Set<PointID>|
                known.subset_of(points_of(a).take(g).to_set()) && #[trigger] can_pin(
                    ix,
                    known,
                    a[g].1[j],
                    a[g].0,
                );
            assert(points.take(g) =~= points_of(a).take(g));
            assert(known.subset_of(points.take(g).to_set()));
        } else {
            let h = g - a.len();
            assert(all[g] == b[h]);
            assert(pinned_before(ix, points_of(b), h, b[h].1[j], b[h].0));
            let known = choose|known: Set<PointID>|
                known.subset_of(points_of(b).take(h).to_set()) && #[trigger] can_pin(
                    ix,
                    known,
                    b[h].1[j],
                    b[h].0,
                );
            assert forall|x: PointID| known.contains(x) implies points.take(g).to_set().contains(
                x,
            ) by {
                assert(points_of(b).take(h).to_set().contains(x));
                let y = choose|y: int| 0 <= y < h && points_of(b).take(h)[y] == x;
                assert(points.take(g)[a.len() + y] == x);
            }
            assert(known.subset_of(points.take(g).to_set()));
        }
    }
}

/// The trees of a forest of sound trees, one after the other, are placed.
pub proof fn lemma_flat_placed(ix: IndexView, forest: Seq<Seq<(PointID, Seq<CID>)>>)
    requires
        forall|i: int| 0 <= i < forest.len() ==> tree_sound(ix, #[trigger] forest[i]),
    ensures
        placed(ix, flat(forest)),
    decreases forest.len(),
{
    if forest.len() > 0 {
        let front = forest.drop_last();
        assert forall|i: int| 0 <= i < front.len() implies tree_sound(ix, #[trigger] front[i]) by {
            assert(front[i] == forest[i]);
        }
        lemma_flat_placed(ix, front);
        assert(forest.last() == forest[forest.len() - 1]);
        lemma_tree_placed(ix, forest.last());
        lemma_placed_concat(ix, flat(front), forest.last());
    }
}

/// The flattened forest of the figure is placed.
pub proof fn lemma_order_placed(ix: IndexView)
    requires
        ix.wf(),
    ensures
        placed(ix, flat(forest_spec(ix))),
{
    let forest = forest_spec(ix);
    assert forall|i: int| 0 <= i < forest.len() implies tree_sound(ix, #[trigger] forest[i]) by {
        lemma_forest_sound(ix, i);
    }
    lemma_flat_placed(ix, forest);
}

/// Where a figure has an order, the order has a place for each point, and
/// the renumbering sends the identifiers one to one onto the places.
pub proof fn lemma_order_is_a_permutation(ix: IndexView)
    requires
        ix.wf(),
        order_spec(ix) is Ok,
    ensures
        order_spec(ix).unwrap().len() == ix.n(),
        points_of(flat(forest_spec(ix))).len() == ix.n(),
        is_permutation(mapping_spec(ix), ix.n()),
        forall|g: int|
            0 <= g < ix.n() ==> mapping_spec(ix)[#[trigger] points_of(
                flat(forest_spec(ix)),
            )[g] as int] == g,
{
    let entries = flat(forest_spec(ix));
    let points = points_of(entries);
    let m = mapping_spec(ix);
    let n = ix.n();
    lemma_order_placed(ix);
    assert forall|g: int| 0 <= g < points.len() implies #[trigger] points[g] < n by {
        assert(entries[g].0 < n);
    }
    lemma_distinct_bounded(points, n);
    assert forall|p: int| 0 <= p < n implies 0 <= #[trigger] m[p] < points.len() && points[m[p] as int]
        == p by {
        assert(points.contains(p as PointID));
        let i = points.index_of(p as PointID);
        assert(0 <= i < points.len() && points[i] == p as PointID);
    }
    assert(m.no_duplicates()) by {
        assert forall|a: int, b: int| 0 <= a < m.len() && 0 <= b < m.len() && a != b implies m[a]
            != m[b] by {
            assert(points[m[a] as int] == a);
            assert(points[m[b] as int] == b);
        }
    }
    lemma_distinct_bounded(m, points.len());
    assert(points.len() == n);
    assert forall|g: int| 0 <= g < n implies m[#[trigger] points[g] as int] == g by {
        let x = points[g];
        assert(points[m[x as int] as int] == x);
    }
    assert forall|q: PointID| q < n implies m.contains(q) by {
        let x = points[q as int];
        assert(m[x as int] == q);
    }
}

/// Order correctness: after a figure was ordered and renumbered, every
/// constraint listed at place `i` of the order is a constraint of the
/// figure, names the point `i`, and can pin it when exactly the points
/// with smaller identifiers are known.
pub proof fn lemma_order_correct(before: IndexView, after: IndexView, i: int, j: int)
    requires
        before.wf(),
        order_spec(before) is Ok,
        renumbered(before, after, mapping_spec(before)),
        0 <= i < order_spec(before).unwrap().len(),
        0 <= j < order_spec(before).unwrap()[i].len(),
    ensures
        i < before.n(),
        can_pin(after, below(i as nat), order_spec(before).unwrap()[i][j], i as PointID),
        after.constraints[order_spec(before).unwrap()[i][j] as int].points().contains(
            i as PointID,
        ),
{
    let entries = flat(forest_spec(before));
    let points = points_of(entries);
    let m = mapping_spec(before);
    let n = before.n();
    let order = order_spec(before).unwrap();
    let cid = order[i][j];
    lemma_order_placed(before);
    assert forall|g: int| 0 <= g < points.len() implies #[trigger] points[g] < n by {
        assert(entries[g].0 < n);
    }
    lemma_distinct_bounded(points, n);
    // The constraint is one of those credited to the point at place `i`.
    let credited = entries[i].1;
    assert(order[i] == leading(before, credited));
    let first = credited.filter(counts(before));
    let second = credited.filter(trails(before));
    assert(credited.contains(cid)) by {
        if j < first.len() {
            assert(first[j] == cid);
            assert(first.contains(cid));
            credited.lemma_filter_contains_rev(counts(before), cid);
        } else {
            assert(second[j - first.len()] == cid);
            assert(second.contains(cid));
            credited.lemma_filter_contains_rev(trails(before), cid);
        }
    }
    let x = choose|x: int| 0 <= x < credited.len() && credited[x] == cid;
    let t = entries[i].0;
    assert(points[i] == t);
    assert(pinned_before(before, points, i, entries[i].1[x], t));
    let known = choose|known: Set<PointID>|
        known.subset_of(points.take(i).to_set()) && #[trigger] can_pin(before, known, cid, t);
    // Each point goes to its place.
    assert forall|g: int| 0 <= g < points.len() implies #[trigger] m[points[g] as int] == g by {
        let found = points.index_of(points[g]);
        assert(0 <= found < points.len() && points[found] == points[g]);
    }
    let c = before.constraints[cid as int];
    assert(c.within(n));
    assert forall|q: PointID| known.contains(q) && q < m.len() implies below(i as nat).contains(
        #[trigger] m[q as int],
    ) by {
        assert(points.take(i).to_set().contains(q));
        let g = choose|g: int| 0 <= g < points.take(i).len() && points.take(i)[g] == q;
        assert(points[g] == q);
        assert(m[points[g] as int] == g);
    }
    assert(m[points[i] as int] == i);
    lemma_pins_renamed(c.rule(), c.points(), known, t, m, below(i as nat));
    assert(after.constraints[cid as int] == c.renamed(m));
    assert(c.renamed(m).points() == renamed(c.points(), m));
    assert(c.renamed(m).rule() == c.rule());
    lemma_pinned_is_named(c.rule(), renamed(c.points(), m), below(i as nat), i as PointID);
}

/// Order correctness for distances and angles: the point `i` is named
/// once, and every other point that the constraint names has a smaller
/// identifier.
pub proof fn lemma_order_correct_sole(before: IndexView, after: IndexView, i: int, j: int)
    requires
        before.wf(),
        order_spec(before) is Ok,
        renumbered(before, after, mapping_spec(before)),
        0 <= i < order_spec(before).unwrap().len(),
        0 <= j < order_spec(before).unwrap()[i].len(),
        after.constraints[order_spec(before).unwrap()[i][j] as int].rule() == Rule::Sole,
    ensures
        exists|x: int|
            0 <= x < after.constraints[order_spec(before).unwrap()[i][j] as int].points().len()
                && #[trigger] after.constraints[order_spec(
                before,
            ).unwrap()[i][j] as int].points()[x] == i && forall|y: int|
                0 <= y < after.constraints[order_spec(
                    before,
                ).unwrap()[i][j] as int].points().len() && y != x
                    ==> #[trigger] after.constraints[order_spec(
                    before,
                ).unwrap()[i][j] as int].points()[y] < i,
{
    lemma_order_correct(before, after, i, j);
    let cid = order_spec(before).unwrap()[i][j];
    let points = after.constraints[cid as int].points();
    let x = choose|x: int|
        0 <= x < points.len() && #[trigger] points[x] == i as PointID && others_known(
            points,
            below(i as nat),
            x,
        );
    assert forall|y: int| 0 <= y < points.len() && y != x implies #[trigger] points[y] < i by {
        assert(below(i as nat).contains(points[y]));
    }
}

/// Ordering is a function of the figure: the order is `order_spec` of the
/// figure, and two figures that are renumberings of one figure by its
/// mapping are the same figure.
pub proof fn lemma_order_determined(before: IndexView, first: IndexView, second: IndexView)
    requires
        before.wf(),
        order_spec(before) is Ok,
        first.wf(),
        second.wf(),
        renumbered(before, first, mapping_spec(before)),
        renumbered(before, second, mapping_spec(before)),
    ensures
        first == second,
{
    let m = mapping_spec(before);
    let n = before.n();
    lemma_order_is_a_permutation(before);
    assert forall|q: PointID| q < n implies first.names[q] == second.names[q] by {
        assert(m.contains(q));
        let p = choose|p: int| 0 <= p < m.len() && m[p] == q;
        assert(first.names[m[p]] == before.names[p as PointID]);
        assert(second.names[m[p]] == before.names[p as PointID]);
    }
    assert forall|q: int| 0 <= q < n implies first.cids[q] == second.cids[q] by {
        assert(m.contains(q as PointID));
        let p = choose|p: int| 0 <= p < m.len() && m[p] == q as PointID;
        assert(first.cids[m[p] as int] == before.cids[p]);
        assert(second.cids[m[p] as int] == before.cids[p]);
    }
    assert(first.names =~= second.names);
    assert(first.cids =~= second.cids);
    assert(first.constraints =~= second.constraints);
}

} // verus!
