//! The rules that decide which points a constraint can pin, given the
//! set of points that are already known.

use crate::iter::exactly_one;
use std::collections::HashSet;
use vstd::prelude::*;

verus! {

broadcast use vstd::std_specs::hash::group_hash_axioms;

/// Identifies a point of a figure.
pub type PointID = usize;

/// Identifies a constraint of a figure.
pub type CID = usize;

/// The ways in which a constraint decides what it can pin.
#[derive(Debug, Clone, Copy, PartialEq, Eq, Structural)]
pub enum Rule {
    /// Pins its one unknown point once all the others are known.
    Sole,
    /// Its points come in pairs: once a pair is known, pins the unknown end
    /// of each pair whose other end is known.
    Pairs,
    /// Pins every unknown point once two of its points are known.
    TwoKnown,
    /// Its points come in triples: once a triple is known, pins the one
    /// unknown point of each triple whose other two are known.
    Triples,
}

/// The points `points` after each point `p` was replaced by `mapping[p]`.
pub open spec fn renamed(points: Seq<PointID>, mapping: Seq<PointID>) -> Seq<PointID> {
    Seq::new(points.len(), |i: int| mapping[points[i] as int])
}

/// Every entry of `points` is below `n`.
pub open spec fn all_below(points: Seq<PointID>, n: nat) -> bool {
    forall|i: int| 0 <= i < points.len() ==> #[trigger] points[i] < n
}

/// The identifiers below `n`.
pub open spec fn below(n: nat) -> Set<PointID> {
    Set::new(|p: PointID| p < n)
}

/// The predicate "is not in `known`".
pub open spec fn absent(known: Set<PointID>) -> spec_fn(PointID) -> bool {
    |p: PointID| !known.contains(p)
}

/// The predicate "is in `known`".
pub open spec fn present(known: Set<PointID>) -> spec_fn(PointID) -> bool {
    |p: PointID| known.contains(p)
}

/// The one unknown point of `points`, if there is exactly one unknown
/// entry.
pub open spec fn sole_unknown(points: Seq<PointID>, known: Set<PointID>) -> Seq<PointID> {
    let unknown = points.filter(absent(known));
    if unknown.len() == 1 {
        unknown
    } else {
        Seq::empty()
    }
}

/// Both ends of pair `k` are known.
pub open spec fn pair_known(points: Seq<PointID>, known: Set<PointID>, k: int) -> bool {
    known.contains(points[2 * k]) && known.contains(points[2 * k + 1])
}

/// The end of pair `k` that is unknown while the other end is known.
pub open spec fn pair_target(points: Seq<PointID>, known: Set<PointID>, k: int) -> Option<
    PointID,
> {
    if !known.contains(points[2 * k]) && known.contains(points[2 * k + 1]) {
        Some(points[2 * k])
    } else if !known.contains(points[2 * k + 1]) && known.contains(points[2 * k]) {
        Some(points[2 * k + 1])
    } else {
        None
    }
}

/// The targets of the first `n` pairs, in order.
pub open spec fn pair_targets(points: Seq<PointID>, known: Set<PointID>, n: nat) -> Seq<PointID>
    decreases n,
{
    if n == 0 {
        Seq::empty()
    } else {
        let rest = pair_targets(points, known, (n - 1) as nat);
        match pair_target(points, known, n - 1) {
            Some(t) => rest.push(t),
            None => rest,
        }
    }
}

/// Some pair among the first `n` is known.
pub open spec fn some_pair_known(points: Seq<PointID>, known: Set<PointID>, n: nat) -> bool {
    exists|k: int| 0 <= k < n && #[trigger] pair_known(points, known, k)
}

/// All three points of triple `k` are known.
pub open spec fn triple_known(points: Seq<PointID>, known: Set<PointID>, k: int) -> bool {
    known.contains(points[3 * k]) && known.contains(points[3 * k + 1]) && known.contains(
        points[3 * k + 2],
    )
}

/// The points of triple `k`.
pub open spec fn triple(points: Seq<PointID>, k: int) -> Seq<PointID> {
    points.subrange(3 * k, 3 * k + 3)
}

/// The targets of the first `n` triples, in order.
pub open spec fn triple_targets(points: Seq<PointID>, known: Set<PointID>, n: nat) -> Seq<
    PointID,
>
    decreases n,
{
    if n == 0 {
        Seq::empty()
    } else {
        triple_targets(points, known, (n - 1) as nat) + sole_unknown(
            triple(points, n - 1),
            known,
        )
    }
}

/// Some triple among the first `n` is known.
pub open spec fn some_triple_known(points: Seq<PointID>, known: Set<PointID>, n: nat) -> bool {
    exists|k: int| 0 <= k < n && #[trigger] triple_known(points, known, k)
}

/// The points that a constraint with the given rule and points can pin
/// when exactly the points of `known` are known, in the order in which it
/// names them.
pub open spec fn targets_of(rule: Rule, points: Seq<PointID>, known: Set<PointID>) -> Seq<
    PointID,
> {
    match rule {
        Rule::Sole => sole_unknown(points, known),
        Rule::Pairs => if some_pair_known(points, known, points.len() / 2) {
            pair_targets(points, known, points.len() / 2)
        } else {
            Seq::empty()
        },
        Rule::TwoKnown => if points.filter(present(known)).len() >= 2 {
            points.filter(absent(known))
        } else {
            Seq::empty()
        },
        Rule::Triples => if some_triple_known(points, known, points.len() / 3) {
            triple_targets(points, known, points.len() / 3)
        } else {
            Seq::empty()
        },
    }
}

/// Every entry of `points` but the one at `i` is known.
pub open spec fn others_known(points: Seq<PointID>, known: Set<PointID>, i: int) -> bool {
    forall|j: int| 0 <= j < points.len() && j != i ==> known.contains(#[trigger] points[j])
}

/// Pair `k` has `t` at one end and a known point at the other.
pub open spec fn pair_pins(points: Seq<PointID>, known: Set<PointID>, k: int, t: PointID) -> bool {
    (points[2 * k] == t && known.contains(points[2 * k + 1])) || (points[2 * k + 1] == t
        && known.contains(points[2 * k]))
}

/// Triple `k` has `t` at one place and known points at the other two.
pub open spec fn triple_pins(
    points: Seq<PointID>,
    known: Set<PointID>,
    k: int,
    t: PointID,
) -> bool {
    exists|j: int| 0 <= j < 3 && #[trigger] triple(points, k)[j] == t && others_known(
        triple(points, k),
        known,
        j,
    )
}

/// A constraint with the given rule and points can pin `t` when exactly
/// the points of `known` are known.
pub open spec fn pins(rule: Rule, points: Seq<PointID>, known: Set<PointID>, t: PointID) -> bool {
    !known.contains(t) && match rule {
        Rule::Sole => exists|i: int|
            0 <= i < points.len() && #[trigger] points[i] == t && others_known(points, known, i),
        Rule::Pairs => some_pair_known(points, known, points.len() / 2) && exists|k: int|
            0 <= k < points.len() / 2 && #[trigger] pair_pins(points, known, k, t),
        Rule::TwoKnown => points.contains(t) && exists|i: int, j: int|
            0 <= i < j < points.len() && known.contains(#[trigger] points[i]) && known.contains(
                #[trigger] points[j],
            ),
        Rule::Triples => some_triple_known(points, known, points.len() / 3) && exists|k: int|
            0 <= k < points.len() / 3 && #[trigger] triple_pins(points, known, k, t),
    }
}


/// An entry that satisfies the predicate shows in the filtered sequence.
pub proof fn lemma_filter_hit(s: Seq<PointID>, pred: spec_fn(PointID) -> bool, i: int)
    requires
        0 <= i < s.len(),
        pred(s[i]),
    ensures
        s.filter(pred).len() >= 1,
    decreases s.len(),
{
    reveal(Seq::filter);
    if i < s.len() - 1 {
        lemma_filter_hit(s.drop_last(), pred, i);
    }
}

/// Two entries that satisfy the predicate show in the filtered sequence.
pub proof fn lemma_filter_two_hits(s: Seq<PointID>, pred: spec_fn(PointID) -> bool, i: int, j: int)
    requires
        0 <= i < j < s.len(),
        pred(s[i]),
        pred(s[j]),
    ensures
        s.filter(pred).len() >= 2,
    decreases s.len(),
{
    reveal(Seq::filter);
    if j < s.len() - 1 {
        lemma_filter_two_hits(s.drop_last(), pred, i, j);
    } else {
        lemma_filter_hit(s.drop_last(), pred, i);
    }
}

/// A filtered sequence with two entries comes from two entries that
/// satisfy the predicate.
pub proof fn lemma_filter_two_witnesses(s: Seq<PointID>, pred: spec_fn(PointID) -> bool) -> (w: (
    int,
    int,
))
    requires
        s.filter(pred).len() >= 2,
    ensures
        0 <= w.0 < w.1 < s.len(),
        pred(s[w.0]),
        pred(s[w.1]),
    decreases s.len(),
{
    reveal(Seq::filter);
    if s.len() == 0 {
        (0, 0)
    } else if s.drop_last().filter(pred).len() >= 2 {
        lemma_filter_two_witnesses(s.drop_last(), pred)
    } else {
        let front = s.drop_last();
        let e = front.filter(pred)[0];
        front.lemma_filter_pred(pred, 0);
        assert(front.filter(pred).contains(e));
        front.lemma_filter_contains_rev(pred, e);
        let i = choose|i: int| 0 <= i < front.len() && front[i] == e;
        (i, s.len() - 1)
    }
}

/// When one entry alone satisfies the predicate, the filtered sequence
/// holds that entry and nothing else.
pub proof fn lemma_filter_single(s: Seq<PointID>, pred: spec_fn(PointID) -> bool, i: int)
    requires
        0 <= i < s.len(),
        pred(s[i]),
        forall|j: int| 0 <= j < s.len() && j != i ==> !pred(#[trigger] s[j]),
    ensures
        s.filter(pred) == seq![s[i]],
    decreases s.len(),
{
    reveal(Seq::filter);
    let front = s.drop_last();
    if i < s.len() - 1 {
        assert(!pred(s[s.len() - 1]));
        assert forall|j: int| 0 <= j < front.len() && j != i implies !pred(
            #[trigger] front[j],
        ) by {
            assert(front[j] == s[j]);
        }
        lemma_filter_single(front, pred, i);
    } else {
        assert forall|j: int| 0 <= j < front.len() implies !pred(#[trigger] front[j]) by {
            assert(front[j] == s[j]);
        }
        front.lemma_all_neg_filter_empty(pred);
        assert(front.filter(pred).len() == 0);
        assert(s.filter(pred) =~= seq![s[i]]);
    }
}

/// What `sole_unknown` yields is pinned by the sole-unknown rule, and the
/// other way round.
pub proof fn lemma_sole_unknown(points: Seq<PointID>, known: Set<PointID>, t: PointID)
    ensures
        sole_unknown(points, known).contains(t) <==> pins(Rule::Sole, points, known, t),
{
    let pred = absent(known);
    let unknown = points.filter(pred);
    if sole_unknown(points, known).contains(t) {
        assert(unknown.len() == 1);
        assert(unknown[0] == t);
        points.lemma_filter_pred(pred, 0);
        assert(unknown.contains(t));
        points.lemma_filter_contains_rev(pred, t);
        let i = choose|i: int| 0 <= i < points.len() && points[i] == t;
        assert forall|j: int| 0 <= j < points.len() && j != i implies known.contains(
            #[trigger] points[j],
        ) by {
            if !known.contains(points[j]) {
                if i < j {
                    lemma_filter_two_hits(points, pred, i, j);
                } else {
                    lemma_filter_two_hits(points, pred, j, i);
                }
            }
        }
        assert(points[i] == t && others_known(points, known, i));
    }
    if pins(Rule::Sole, points, known, t) {
        let i = choose|i: int|
            0 <= i < points.len() && #[trigger] points[i] == t && others_known(points, known, i);
        lemma_filter_single(points, pred, i);
        assert(unknown[0] == t);
    }
}

/// What the first `n` pairs yield are the points that one of them pins.
pub proof fn lemma_pair_targets(points: Seq<PointID>, known: Set<PointID>, n: nat, t: PointID)
    ensures
        pair_targets(points, known, n).contains(t) <==> (!known.contains(t) && exists|k: int|
            0 <= k < n && #[trigger] pair_pins(points, known, k, t)),
    decreases n,
{
    if n > 0 {
        let m = (n - 1) as nat;
        lemma_pair_targets(points, known, m, t);
        let rest = pair_targets(points, known, m);
        let out = pair_targets(points, known, n);
        if out.contains(t) {
            let x = choose|x: int| 0 <= x < out.len() && out[x] == t;
            if x < rest.len() {
                assert(rest[x] == t);
                assert(rest.contains(t));
                let k = choose|k: int| 0 <= k < m && #[trigger] pair_pins(points, known, k, t);
                assert(0 <= k < n && pair_pins(points, known, k, t));
            } else {
                assert(pair_target(points, known, n - 1) == Some(t));
                assert(pair_pins(points, known, n - 1, t));
            }
        }
        if !known.contains(t) && exists|k: int|
            0 <= k < n && #[trigger] pair_pins(points, known, k, t) {
            let k = choose|k: int| 0 <= k < n && #[trigger] pair_pins(points, known, k, t);
            if k < m {
                assert(rest.contains(t));
                let x = choose|x: int| 0 <= x < rest.len() && rest[x] == t;
                assert(out[x] == t);
            } else {
                assert(pair_target(points, known, n - 1) == Some(t));
                assert(out[out.len() - 1] == t);
            }
        }
    }
}

/// What the first `n` triples yield are the points that one of them pins.
pub proof fn lemma_triple_targets(points: Seq<PointID>, known: Set<PointID>, n: nat, t: PointID)
    requires
        3 * n <= points.len(),
    ensures
        triple_targets(points, known, n).contains(t) <==> (!known.contains(t) && exists|k: int|
            0 <= k < n && #[trigger] triple_pins(points, known, k, t)),
    decreases n,
{
    if n > 0 {
        let m = (n - 1) as nat;
        lemma_triple_targets(points, known, m, t);
        let rest = triple_targets(points, known, m);
        let tail = sole_unknown(triple(points, n - 1), known);
        let out = triple_targets(points, known, n);
        lemma_sole_unknown(triple(points, n - 1), known, t);
        assert(triple(points, n - 1).len() == 3);
        if out.contains(t) {
            let x = choose|x: int| 0 <= x < out.len() && out[x] == t;
            if x < rest.len() {
                assert(rest[x] == t);
                assert(rest.contains(t));
                let k = choose|k: int| 0 <= k < m && #[trigger] triple_pins(points, known, k, t);
                assert(0 <= k < n && triple_pins(points, known, k, t));
            } else {
                assert(tail[x - rest.len()] == t);
                assert(tail.contains(t));
                assert(triple_pins(points, known, n - 1, t));
            }
        }
        if !known.contains(t) && exists|k: int|
            0 <= k < n && #[trigger] triple_pins(points, known, k, t) {
            let k = choose|k: int| 0 <= k < n && #[trigger] triple_pins(points, known, k, t);
            if k < m {
                assert(rest.contains(t));
                let x = choose|x: int| 0 <= x < rest.len() && rest[x] == t;
                assert(out[x] == t);
            } else {
                assert(tail.contains(t));
                let x = choose|x: int| 0 <= x < tail.len() && tail[x] == t;
                assert(out[rest.len() + x] == t);
            }
        }
    }
}

/// The points that a constraint yields as targets are exactly those that
/// its rule pins.
pub proof fn lemma_targets_are_pinned(
    rule: Rule,
    points: Seq<PointID>,
    known: Set<PointID>,
    t: PointID,
)
    ensures
        targets_of(rule, points, known).contains(t) <==> pins(rule, points, known, t),
{
    match rule {
        Rule::Sole => {
            lemma_sole_unknown(points, known, t);
        },
        Rule::Pairs => {
            lemma_pair_targets(points, known, points.len() / 2, t);
        },
        Rule::TwoKnown => {
            let hits = points.filter(present(known));
            let misses = points.filter(absent(known));
            if targets_of(rule, points, known).contains(t) {
                let w = lemma_filter_two_witnesses(points, present(known));
                assert(known.contains(points[w.0]) && known.contains(points[w.1]));
                let x = choose|x: int| 0 <= x < misses.len() && misses[x] == t;
                points.lemma_filter_pred(absent(known), x);
                points.lemma_filter_contains_rev(absent(known), t);
            }
            if pins(rule, points, known, t) {
                let (i, j) = choose|i: int, j: int|
                    0 <= i < j < points.len() && known.contains(#[trigger] points[i])
                        && known.contains(#[trigger] points[j]);
                lemma_filter_two_hits(points, present(known), i, j);
                let x = choose|x: int| 0 <= x < points.len() && points[x] == t;
                points.lemma_filter_contains(absent(known), x);
            }
        },
        Rule::Triples => {
            lemma_triple_targets(points, known, points.len() / 3, t);
        },
    }
}

/// A pinned point is one of the constraint's points and is not known.
pub proof fn lemma_pinned_is_named(rule: Rule, points: Seq<PointID>, known: Set<PointID>, t: PointID)
    requires
        pins(rule, points, known, t),
    ensures
        points.contains(t),
        !known.contains(t),
{
    match rule {
        Rule::Sole => {},
        Rule::Pairs => {
            let k = choose|k: int|
                0 <= k < points.len() / 2 && #[trigger] pair_pins(points, known, k, t);
            assert(points[2 * k] == t || points[2 * k + 1] == t);
        },
        Rule::TwoKnown => {},
        Rule::Triples => {
            let k = choose|k: int|
                0 <= k < points.len() / 3 && #[trigger] triple_pins(points, known, k, t);
            let j = choose|j: int|
                0 <= j < 3 && #[trigger] triple(points, k)[j] == t && others_known(
                    triple(points, k),
                    known,
                    j,
                );
            assert(points[3 * k + j] == t);
        },
    }
}


/// What is pinned stays pinned when more points are known, as long as the
/// pinned point is not among them.
pub proof fn lemma_pins_monotonic(
    rule: Rule,
    points: Seq<PointID>,
    known: Set<PointID>,
    more: Set<PointID>,
    t: PointID,
)
    requires
        pins(rule, points, known, t),
        known.subset_of(more),
        !more.contains(t),
    ensures
        pins(rule, points, more, t),
{
    match rule {
        Rule::Sole => {
            let i = choose|i: int|
                0 <= i < points.len() && #[trigger] points[i] == t && others_known(
                    points,
                    known,
                    i,
                );
            assert(others_known(points, more, i));
        },
        Rule::Pairs => {
            let n = points.len() / 2;
            let k0 = choose|k: int| 0 <= k < n && #[trigger] pair_known(points, known, k);
            assert(pair_known(points, more, k0));
            let k = choose|k: int| 0 <= k < n && #[trigger] pair_pins(points, known, k, t);
            assert(pair_pins(points, more, k, t));
        },
        Rule::TwoKnown => {
            let (i, j) = choose|i: int, j: int|
                0 <= i < j < points.len() && known.contains(#[trigger] points[i])
                    && known.contains(#[trigger] points[j]);
            assert(more.contains(points[i]) && more.contains(points[j]));
        },
        Rule::Triples => {
            let n = points.len() / 3;
            let k0 = choose|k: int| 0 <= k < n && #[trigger] triple_known(points, known, k);
            assert(triple_known(points, more, k0));
            let k = choose|k: int| 0 <= k < n && #[trigger] triple_pins(points, known, k, t);
            let j = choose|j: int|
                0 <= j < 3 && #[trigger] triple(points, k)[j] == t && others_known(
                    triple(points, k),
                    known,
                    j,
                );
            assert(others_known(triple(points, k), more, j));
            assert(triple_pins(points, more, k, t));
        },
    }
}

/// What is pinned stays pinned under a renaming of the points, when every
/// known point is sent to a known point and the pinned point is not.
pub proof fn lemma_pins_renamed(
    rule: Rule,
    points: Seq<PointID>,
    known: Set<PointID>,
    t: PointID,
    mapping: Seq<PointID>,
    image: Set<PointID>,
)
    requires
        pins(rule, points, known, t),
        all_below(points, mapping.len()),
        forall|q: PointID|
            known.contains(q) && q < mapping.len() ==> image.contains(
                #[trigger] mapping[q as int],
            ),
        !image.contains(mapping[t as int]),
    ensures
        pins(rule, renamed(points, mapping), image, mapping[t as int]),
{
    let after = renamed(points, mapping);
    let goal = mapping[t as int];
    assert forall|i: int| 0 <= i < points.len() && known.contains(#[trigger] points[i])
        implies image.contains(after[i]) by {
        assert(points[i] < mapping.len());
        assert(image.contains(mapping[points[i] as int]));
    }
    match rule {
        Rule::Sole => {
            let i = choose|i: int|
                0 <= i < points.len() && #[trigger] points[i] == t && others_known(
                    points,
                    known,
                    i,
                );
            assert forall|j: int| 0 <= j < after.len() && j != i implies image.contains(
                #[trigger] after[j],
            ) by {
                assert(known.contains(points[j]));
            }
            assert(after[i] == goal && others_known(after, image, i));
        },
        Rule::Pairs => {
            let n = points.len() / 2;
            let k0 = choose|k: int| 0 <= k < n && #[trigger] pair_known(points, known, k);
            assert(known.contains(points[2 * k0]) && known.contains(points[2 * k0 + 1]));
            assert(pair_known(after, image, k0));
            let k = choose|k: int| 0 <= k < n && #[trigger] pair_pins(points, known, k, t);
            if points[2 * k] == t && known.contains(points[2 * k + 1]) {
                assert(after[2 * k] == goal);
                assert(image.contains(after[2 * k + 1]));
            } else {
                assert(points[2 * k + 1] == t && known.contains(points[2 * k]));
                assert(after[2 * k + 1] == goal);
                assert(image.contains(after[2 * k]));
            }
            assert(pair_pins(after, image, k, goal));
        },
        Rule::TwoKnown => {
            let (i, j) = choose|i: int, j: int|
                0 <= i < j < points.len() && known.contains(#[trigger] points[i])
                    && known.contains(#[trigger] points[j]);
            assert(image.contains(after[i]) && image.contains(after[j]));
            let x = choose|x: int| 0 <= x < points.len() && points[x] == t;
            assert(after[x] == goal);
        },
        Rule::Triples => {
            let n = points.len() / 3;
            let k0 = choose|k: int| 0 <= k < n && #[trigger] triple_known(points, known, k);
            assert(known.contains(points[3 * k0]) && known.contains(points[3 * k0 + 1])
                && known.contains(points[3 * k0 + 2]));
            assert(triple_known(after, image, k0));
            let k = choose|k: int| 0 <= k < n && #[trigger] triple_pins(points, known, k, t);
            let j = choose|j: int|
                0 <= j < 3 && #[trigger] triple(points, k)[j] == t && others_known(
                    triple(points, k),
                    known,
                    j,
                );
            let before3 = triple(points, k);
            let after3 = triple(after, k);
            assert(after3[j] == goal) by {
                assert(before3[j] == points[3 * k + j]);
                assert(after3[j] == after[3 * k + j]);
            }
            assert forall|x: int| 0 <= x < after3.len() && x != j implies image.contains(
                #[trigger] after3[x],
            ) by {
                assert(before3[x] == points[3 * k + x]);
                assert(after3[x] == after[3 * k + x]);
                assert(known.contains(before3[x]));
            }
            assert(triple_pins(after, image, k, goal));
        },
    }
}

/// The entries of `points` that are not in `known`, in order.
pub fn unknown_points(points: &[PointID], known: &HashSet<PointID>) -> (r: Vec<PointID>)
    ensures
        r@ == points@.filter(absent(known@)),
{
    let mut unknown: Vec<PointID> = Vec::new();
    let mut i: usize = 0;
    assert(points@.take(0) =~= Seq::<PointID>::empty());
    assert(Seq::<PointID>::empty().filter(absent(known@)) =~= Seq::<PointID>::empty()) by {
        reveal(Seq::filter);
    }
    while i < points.len()
        invariant
            i <= points.len(),
            unknown@ == points@.take(i as int).filter(absent(known@)),
        decreases points.len() - i,
    {
        let p = points[i];
        proof {
            points@.lemma_take_succ_push(i as int);
            points@.take(i as int).lemma_filter_push(p, absent(known@));
        }
        if !known.contains(&p) {
            unknown.push(p);
        }
        i += 1;
    }
    assert(points@.take(points@.len() as int) =~= points@);
    unknown
}

/// The number of entries of `points` that are in `known`.
pub fn count_known(points: &[PointID], known: &HashSet<PointID>) -> (r: usize)
    ensures
        r == points@.filter(present(known@)).len(),
{
    let mut count: usize = 0;
    let mut i: usize = 0;
    assert(points@.take(0) =~= Seq::<PointID>::empty());
    assert(Seq::<PointID>::empty().filter(present(known@)) =~= Seq::<PointID>::empty()) by {
        reveal(Seq::filter);
    }
    while i < points.len()
        invariant
            i <= points.len(),
            count <= i,
            count == points@.take(i as int).filter(present(known@)).len(),
        decreases points.len() - i,
    {
        let p = points[i];
        proof {
            points@.lemma_take_succ_push(i as int);
            points@.take(i as int).lemma_filter_push(p, present(known@));
        }
        if known.contains(&p) {
            count += 1;
        }
        i += 1;
    }
    assert(points@.take(points@.len() as int) =~= points@);
    count
}

/// The targets under the sole-unknown rule.
pub fn sole_targets(points: &[PointID], known: &HashSet<PointID>) -> (r: Vec<PointID>)
    ensures
        r@ == targets_of(Rule::Sole, points@, known@),
{
    let unknown = unknown_points(points, known);
    match exactly_one(unknown) {
        Some(t) => {
            let r = vec![t];
            assert(r@ =~= points@.filter(absent(known@)));
            r
        },
        None => Vec::new(),
    }
}

/// The targets under the two-known rule.
pub fn two_known_targets(points: &[PointID], known: &HashSet<PointID>) -> (r: Vec<PointID>)
    ensures
        r@ == targets_of(Rule::TwoKnown, points@, known@),
{
    if count_known(points, known) >= 2 {
        unknown_points(points, known)
    } else {
        Vec::new()
    }
}

/// Whether both ends of some pair are known.
pub fn any_pair_known(points: &[PointID], known: &HashSet<PointID>) -> (r: bool)
    ensures
        r == some_pair_known(points@, known@, points@.len() / 2),
{
    let n: usize = points.len() / 2;
    let mut k: usize = 0;
    while k < n
        invariant
            k <= n,
            n == points@.len() / 2,
            2 * n <= points.len(),
            !some_pair_known(points@, known@, k as nat),
        decreases n - k,
    {
        if known.contains(&points[2 * k]) && known.contains(&points[2 * k + 1]) {
            assert(pair_known(points@, known@, k as int));
            return true;
        }
        k += 1;
    }
    false
}

/// The targets under the pair rule.
pub fn pair_rule_targets(points: &[PointID], known: &HashSet<PointID>) -> (r: Vec<PointID>)
    ensures
        r@ == targets_of(Rule::Pairs, points@, known@),
{
    let mut out: Vec<PointID> = Vec::new();
    if !any_pair_known(points, known) {
        return out;
    }
    let n: usize = points.len() / 2;
    let mut k: usize = 0;
    while k < n
        invariant
            k <= n,
            n == points@.len() / 2,
            2 * n <= points.len(),
            out@ == pair_targets(points@, known@, k as nat),
        decreases n - k,
    {
        let a = points[2 * k];
        let b = points[2 * k + 1];
        if !known.contains(&a) && known.contains(&b) {
            out.push(a);
        } else if !known.contains(&b) && known.contains(&a) {
            out.push(b);
        }
        k += 1;
    }
    out
}

/// Whether all three points of some triple are known.
pub fn any_triple_known(points: &[PointID], known: &HashSet<PointID>) -> (r: bool)
    ensures
        r == some_triple_known(points@, known@, points@.len() / 3),
{
    let n: usize = points.len() / 3;
    let mut k: usize = 0;
    while k < n
        invariant
            k <= n,
            n == points@.len() / 3,
            3 * n <= points.len(),
            !some_triple_known(points@, known@, k as nat),
        decreases n - k,
    {
        if known.contains(&points[3 * k]) && known.contains(&points[3 * k + 1]) && known.contains(
            &points[3 * k + 2],
        ) {
            assert(triple_known(points@, known@, k as int));
            return true;
        }
        k += 1;
    }
    false
}

/// The targets under the triple rule.
pub fn triple_rule_targets(points: &[PointID], known: &HashSet<PointID>) -> (r: Vec<PointID>)
    ensures
        r@ == targets_of(Rule::Triples, points@, known@),
{
    let mut out: Vec<PointID> = Vec::new();
    if !any_triple_known(points, known) {
        return out;
    }
    let n: usize = points.len() / 3;
    let mut k: usize = 0;
    while k < n
        invariant
            k <= n,
            n == points@.len() / 3,
            3 * n <= points.len(),
            out@ == triple_targets(points@, known@, k as nat),
        decreases n - k,
    {
        let three = vec![points[3 * k], points[3 * k + 1], points[3 * k + 2]];
        assert(three@ =~= triple(points@, k as int));
        let mut found = sole_targets(three.as_slice(), known);
        out.append(&mut found);
        k += 1;
    }
    out
}


/// Replaces each entry `p` of `points` by `mapping[p]`.
pub fn rename_points(points: &mut Vec<PointID>, mapping: &[PointID])
    requires
        all_below(old(points)@, mapping@.len()),
    ensures
        final(points)@ == renamed(old(points)@, mapping@),
{
    let mut i: usize = 0;
    while i < points.len()
        invariant
            i <= points.len(),
            points@.len() == old(points)@.len(),
            all_below(old(points)@, mapping@.len()),
            forall|j: int| 0 <= j < i ==> points@[j] == mapping@[old(points)@[j] as int],
            forall|j: int| i <= j < points@.len() ==> points@[j] == old(points)@[j],
        decreases points.len() - i,
    {
        assert(old(points)@[i as int] < mapping@.len());
        let p = points[i];
        points.set(i, mapping[p]);
        i += 1;
    }
    assert(points@ =~= renamed(old(points)@, mapping@));
}

} // verus!
