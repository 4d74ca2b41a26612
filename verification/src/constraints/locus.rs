//! What a constraint contributes to the place of a point, described by the
//! points that determine it.

use crate::constraints::rules::PointID;
use vstd::prelude::*;

verus! {

/// A set of places in the plane, given by points whose places are known.
/// Measures are kept as the bit patterns of double-precision numbers.
#[derive(Debug, Clone, Copy, PartialEq, Eq, Structural)]
pub enum Locus {
    /// The circle around `center` with the given radius.
    Circle { center: PointID, radius: u64 },
    /// The places from which the stretch from `start` to `end` shows
    /// under the given angle: one or two circles through both.
    Inscribed { start: PointID, end: PointID, measure: u64 },
    /// The two rays from `origin` that make the given angle with the ray
    /// towards `arm`.
    Rays { origin: PointID, arm: PointID, measure: u64 },
    /// The line through `through` in the direction from `from` to `to`,
    /// or at a right angle to it if `turned`.
    Line { through: PointID, from: PointID, to: PointID, turned: bool },
    /// The half plane beside the line from `origin` towards `toward`, on
    /// the side to which the angle at `second` from `first` to `third`
    /// turns if `same`, else on the other side.
    Half {
        origin: PointID,
        toward: PointID,
        first: PointID,
        second: PointID,
        third: PointID,
        same: bool,
    },
}

impl Locus {
    /// Every point that the locus is given by is below `known`.
    pub open spec fn within(self, known: nat) -> bool {
        match self {
            Locus::Circle { center, .. } => center < known,
            Locus::Inscribed { start, end, .. } => start < known && end < known,
            Locus::Rays { origin, arm, .. } => origin < known && arm < known,
            Locus::Line { through, from, to, .. } => through < known && from < known && to
                < known,
            Locus::Half { origin, toward, first, second, third, .. } => origin < known && toward
                < known && first < known && second < known && third < known,
        }
    }
}

/// The first pair of `points`, among those from `k` on, of which both
/// ends are below `known`; the number of pairs if there is none.
pub open spec fn first_known_pair(points: Seq<PointID>, known: nat, k: int) -> int
    decreases points.len() / 2 - k,
{
    if k >= points.len() / 2 {
        (points.len() / 2) as int
    } else if points[2 * k] < known && points[2 * k + 1] < known {
        k
    } else {
        first_known_pair(points, known, k + 1)
    }
}

/// The first triple of `points`, among those from `k` on, of which all
/// points are below `known`; the number of triples if there is none.
pub open spec fn first_known_triple(points: Seq<PointID>, known: nat, k: int) -> int
    decreases points.len() / 3 - k,
{
    if k >= points.len() / 3 {
        (points.len() / 3) as int
    } else if points[3 * k] < known && points[3 * k + 1] < known && points[3 * k + 2] < known {
        k
    } else {
        first_known_triple(points, known, k + 1)
    }
}

/// The first place from `k` on at which `points` holds a point below
/// `known`; the length if there is none.
pub open spec fn first_known(points: Seq<PointID>, known: nat, k: int) -> int
    decreases points.len() - k,
{
    if k >= points.len() {
        points.len() as int
    } else if points[k] < known {
        k
    } else {
        first_known(points, known, k + 1)
    }
}

/// The first known pair is a pair, or there is none.
pub proof fn lemma_first_known_pair(points: Seq<PointID>, known: nat, k: int)
    requires
        0 <= k <= points.len() / 2,
    ensures
        k <= first_known_pair(points, known, k) <= points.len() / 2,
        first_known_pair(points, known, k) < points.len() / 2 ==> points[2 * first_known_pair(
            points,
            known,
            k,
        )] < known && points[2 * first_known_pair(points, known, k) + 1] < known,
    decreases points.len() / 2 - k,
{
    if k < points.len() / 2 && !(points[2 * k] < known && points[2 * k + 1] < known) {
        lemma_first_known_pair(points, known, k + 1);
    }
}

/// No known pair stands before the first known pair.
pub proof fn lemma_first_known_pair_least(points: Seq<PointID>, known: nat, k: int, j: int)
    requires
        0 <= k <= j < points.len() / 2,
        points[2 * j] < known,
        points[2 * j + 1] < known,
    ensures
        first_known_pair(points, known, k) <= j,
    decreases j - k,
{
    if k < j && !(points[2 * k] < known && points[2 * k + 1] < known) {
        lemma_first_known_pair_least(points, known, k + 1, j);
    }
}

/// No known point stands before the first known place.
pub proof fn lemma_first_known_least(points: Seq<PointID>, known: nat, k: int, j: int)
    requires
        0 <= k <= j < points.len(),
        points[j] < known,
    ensures
        first_known(points, known, k) <= j,
    decreases j - k,
{
    if k < j && !(points[k] < known) {
        lemma_first_known_least(points, known, k + 1, j);
    }
}

/// The first known place is a place of a known point, or there is none.
pub proof fn lemma_first_known(points: Seq<PointID>, known: nat, k: int)
    requires
        0 <= k <= points.len(),
    ensures
        k <= first_known(points, known, k) <= points.len(),
        first_known(points, known, k) < points.len() ==> points[first_known(points, known, k)]
            < known,
    decreases points.len() - k,
{
    if k < points.len() && !(points[k] < known) {
        lemma_first_known(points, known, k + 1);
    }
}

/// Finds the first pair from `k` on of which both ends are below `known`.
pub fn find_known_pair(points: &[PointID], known: usize, k: usize) -> (r: usize)
    requires
        k <= points@.len() / 2,
    ensures
        r == first_known_pair(points@, known as nat, k as int),
        k <= r <= points@.len() / 2,
        r < points@.len() / 2 ==> points@[2 * r] < known && points@[2 * r + 1] < known,
{
    let n: usize = points.len() / 2;
    let mut j: usize = k;
    proof {
        lemma_first_known_pair(points@, known as nat, k as int);
    }
    while j < n
        invariant
            k <= j <= n,
            n == points@.len() / 2,
            2 * n <= points.len(),
            first_known_pair(points@, known as nat, k as int) == first_known_pair(
                points@,
                known as nat,
                j as int,
            ),
        decreases n - j,
    {
        if points[2 * j] < known && points[2 * j + 1] < known {
            return j;
        }
        j += 1;
    }
    j
}

/// Finds the first triple from `k` on of which all points are below
/// `known`.
pub fn find_known_triple(points: &[PointID], known: usize, k: usize) -> (r: usize)
    requires
        k <= points@.len() / 3,
    ensures
        r == first_known_triple(points@, known as nat, k as int),
        k <= r <= points@.len() / 3,
        r < points@.len() / 3 ==> points@[3 * r] < known && points@[3 * r + 1] < known
            && points@[3 * r + 2] < known,
{
    let n: usize = points.len() / 3;
    let mut j: usize = k;
    while j < n
        invariant
            k <= j <= n,
            n == points@.len() / 3,
            3 * n <= points.len(),
            first_known_triple(points@, known as nat, k as int) == first_known_triple(
                points@,
                known as nat,
                j as int,
            ),
        decreases n - j,
    {
        if points[3 * j] < known && points[3 * j + 1] < known && points[3 * j + 2] < known {
            return j;
        }
        j += 1;
    }
    j
}

/// Finds the first place from `k` on of a point below `known`.
pub fn find_known(points: &[PointID], known: usize, k: usize) -> (r: usize)
    requires
        k <= points@.len(),
    ensures
        r == first_known(points@, known as nat, k as int),
        k <= r <= points@.len(),
        r < points@.len() ==> points@[r as int] < known,
{
    let mut j: usize = k;
    while j < points.len()
        invariant
            k <= j <= points.len(),
            first_known(points@, known as nat, k as int) == first_known(
                points@,
                known as nat,
                j as int,
            ),
        decreases points.len() - j,
    {
        if points[j] < known {
            return j;
        }
        j += 1;
    }
    j
}

} // verus!
