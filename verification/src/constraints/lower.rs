//! Lowering constraints into loci: what each constraint contributes to
//! the place of one of its points, once the points with identifiers below
//! a bound have their places.

use crate::constraints::constraints::{AnglePolarity, Collinear, Parallel, Perpendicular, Polarity};
use crate::constraints::elements::{Angle, Distance};
use crate::constraints::locus::{
    find_known, find_known_pair, find_known_triple, first_known, first_known_pair,
    first_known_triple, lemma_first_known, lemma_first_known_least, lemma_first_known_pair_least,
    Locus,
};
use crate::constraints::rules::{
    below, others_known, pair_known, pair_pins, pins, triple, triple_pins, PointID, Rule,
};
use crate::constraints::{Constraint, ConstraintView};
use vstd::prelude::*;

verus! {

broadcast use vstd::array::group_array_axioms;

/// Every locus is given by points below `known`.
pub open spec fn all_within(loci: Seq<Locus>, known: nat) -> bool {
    forall|i: int| 0 <= i < loci.len() ==> (#[trigger] loci[i]).within(known)
}

/// The other end of a distance whose end at `t_ind` is sought.
pub open spec fn other_end(t_ind: int) -> int {
    if t_ind == 1 {
        0
    } else {
        1
    }
}

/// The other arm of an angle whose arm at `t_ind` is sought.
pub open spec fn other_arm(t_ind: int) -> int {
    if t_ind == 2 {
        0
    } else {
        2
    }
}

/// A distance can be lowered when its other end is known.
pub open spec fn distance_ready(points: Seq<PointID>, known: nat, t_ind: int) -> bool {
    points[other_end(t_ind)] < known
}

/// The circle around the other end.
pub open spec fn distance_loci(points: Seq<PointID>, dist: u64, t_ind: int) -> Seq<Locus> {
    seq![Locus::Circle { center: points[other_end(t_ind)], radius: dist }]
}

/// An angle can be lowered when its other two points are known.
pub open spec fn angle_ready(points: Seq<PointID>, known: nat, t_ind: int) -> bool {
    if t_ind == 1 {
        points[0] < known && points[2] < known
    } else {
        points[1] < known && points[other_arm(t_ind)] < known
    }
}

/// For the middle point the circles of the inscribed angle, for an outer
/// point the two rays from the middle point.
pub open spec fn angle_loci(points: Seq<PointID>, measure: u64, t_ind: int) -> Seq<Locus> {
    if t_ind == 1 {
        seq![Locus::Inscribed { start: points[0], end: points[2], measure }]
    } else {
        seq![Locus::Rays { origin: points[1], arm: points[other_arm(t_ind)], measure }]
    }
}

/// The place in `points` of the partner of the point at `t_ind`.
pub open spec fn partner(t_ind: int) -> int {
    (t_ind / 2) * 2 + (1 - t_ind % 2)
}

/// Lines can be lowered when one of them is known and the partner of the
/// point that is sought is known.
pub open spec fn pairs_ready(points: Seq<PointID>, known: nat, t_ind: int) -> bool {
    &&& first_known_pair(points, known, 0) < points.len() / 2
    &&& partner(t_ind) < points.len()
    &&& points[partner(t_ind)] < known
}

/// The line through the partner in the direction of the first known line,
/// at a right angle to it if `alternating` and the two lines are an odd
/// number of lines apart.
pub open spec fn pairs_loci(points: Seq<PointID>, known: nat, t_ind: int, alternating: bool) -> Seq<
    Locus,
> {
    let k = first_known_pair(points, known, 0);
    let l = t_ind / 2;
    seq![
        Locus::Line {
            through: points[partner(t_ind)],
            from: points[2 * k],
            to: points[2 * k + 1],
            turned: alternating && (l - k) % 2 != 0,
        },
    ]
}

/// Collinear points can be lowered when two of them are known.
pub open spec fn collinear_ready(points: Seq<PointID>, known: nat) -> bool {
    first_known(points, known, 0) < points.len() && first_known(
        points,
        known,
        first_known(points, known, 0) + 1,
    ) < points.len()
}

/// The line through the first two known points.
pub open spec fn collinear_loci(points: Seq<PointID>, known: nat) -> Seq<Locus> {
    let a = first_known(points, known, 0);
    let b = first_known(points, known, a + 1);
    seq![Locus::Line { through: points[a], from: points[a], to: points[b], turned: false }]
}

/// The triples that have a polarity.
pub open spec fn with_polarity(points: Seq<PointID>, polarities: Seq<Polarity>) -> Seq<PointID> {
    if points.len() / 3 <= polarities.len() {
        points
    } else {
        points.take(3 * polarities.len() as int)
    }
}

/// The handedness of angles can be lowered when no angle is known, or
/// when the angle of the point that is sought lies within the constraint
/// and its other two points are known.
pub open spec fn chirality_ready(
    points: Seq<PointID>,
    polarities: Seq<Polarity>,
    known: nat,
    t_ind: int,
) -> bool {
    let triples = with_polarity(points, polarities);
    first_known_triple(triples, known, 0) == triples.len() / 3 || {
        &&& 3 * (t_ind / 3) + 3 <= points.len()
        &&& t_ind / 3 < polarities.len()
        &&& points[3 * (t_ind / 3) + (t_ind % 3 + 1) % 3] < known
        &&& points[3 * (t_ind / 3) + (t_ind % 3 + 2) % 3] < known
    }
}

/// Nothing if no angle is known; else the half plane beside the other two
/// points of the angle, on the side that the first known angle and the
/// two polarities give.
pub open spec fn chirality_loci(
    points: Seq<PointID>,
    polarities: Seq<Polarity>,
    known: nat,
    t_ind: int,
) -> Seq<Locus> {
    let triples = with_polarity(points, polarities);
    let k = first_known_triple(triples, known, 0);
    if k == triples.len() / 3 {
        Seq::empty()
    } else {
        let a = t_ind / 3;
        let i = t_ind % 3;
        seq![
            Locus::Half {
                origin: points[3 * a + (i + 1) % 3],
                toward: points[3 * a + (i + 2) % 3],
                first: points[3 * k],
                second: points[3 * k + 1],
                third: points[3 * k + 2],
                same: polarities[k] == polarities[a],
            },
        ]
    }
}

impl ConstraintView {
    /// Whether the constraint can be lowered for its point at `t_ind`
    /// when the points below `known` have their places.
    pub open spec fn ready(self, known: nat, t_ind: int) -> bool {
        match self {
            ConstraintView::Distance { points, .. } => distance_ready(points, known, t_ind),
            ConstraintView::Angle { points, .. } => angle_ready(points, known, t_ind),
            ConstraintView::Parallel { points } => pairs_ready(points, known, t_ind),
            ConstraintView::Perpendicular { points } => pairs_ready(points, known, t_ind),
            ConstraintView::Collinear { points } => collinear_ready(points, known),
            ConstraintView::Chirality { points, polarities } => chirality_ready(
                points,
                polarities,
                known,
                t_ind,
            ),
        }
    }

    /// The loci that the constraint contributes to the place of its point
    /// at `t_ind` when the points below `known` have their places.
    pub open spec fn loci(self, known: nat, t_ind: int) -> Seq<Locus> {
        match self {
            ConstraintView::Distance { points, dist } => distance_loci(points, dist, t_ind),
            ConstraintView::Angle { points, measure } => angle_loci(points, measure, t_ind),
            ConstraintView::Parallel { points } => pairs_loci(points, known, t_ind, false),
            ConstraintView::Perpendicular { points } => pairs_loci(points, known, t_ind, true),
            ConstraintView::Collinear { points } => collinear_loci(points, known),
            ConstraintView::Chirality { points, polarities } => chirality_loci(
                points,
                polarities,
                known,
                t_ind,
            ),
        }
    }
}

impl Distance {
    /// Whether the other end is known.
    pub fn geo_ready(&self, known: usize, t_ind: usize) -> (r: bool)
        ensures
            r == distance_ready(self.points@, known as nat, t_ind as int),
    {
        let i: usize = if t_ind == 1 {
            0
        } else {
            1
        };
        self.points[i] < known
    }

    /// The circle around the other end.
    pub fn geo(&self, known: usize, t_ind: usize) -> (r: Vec<Locus>)
        requires
            distance_ready(self.points@, known as nat, t_ind as int),
        ensures
            r@ == distance_loci(self.points@, self.dist, t_ind as int),
            all_within(r@, known as nat),
    {
        let i: usize = if t_ind == 1 {
            0
        } else {
            1
        };
        vec![Locus::Circle { center: self.points[i], radius: self.dist }]
    }
}

impl Angle {
    /// Whether the other two points are known.
    pub fn geo_ready(&self, known: usize, t_ind: usize) -> (r: bool)
        ensures
            r == angle_ready(self.points@, known as nat, t_ind as int),
    {
        if t_ind == 1 {
            self.points[0] < known && self.points[2] < known
        } else {
            let i: usize = if t_ind == 2 {
                0
            } else {
                2
            };
            self.points[1] < known && self.points[i] < known
        }
    }

    /// For the middle point the circles of the inscribed angle, for an
    /// outer point the two rays from the middle point.
    pub fn geo(&self, known: usize, t_ind: usize) -> (r: Vec<Locus>)
        requires
            angle_ready(self.points@, known as nat, t_ind as int),
        ensures
            r@ == angle_loci(self.points@, self.measure, t_ind as int),
            all_within(r@, known as nat),
    {
        if t_ind == 1 {
            vec![
                Locus::Inscribed {
                    start: self.points[0],
                    end: self.points[2],
                    measure: self.measure,
                },
            ]
        } else {
            let i: usize = if t_ind == 2 {
                0
            } else {
                2
            };
            vec![
                Locus::Rays { origin: self.points[1], arm: self.points[i], measure: self.measure },
            ]
        }
    }
}

/// Whether lines can be lowered.
fn pairs_geo_ready(points: &[PointID], known: usize, t_ind: usize) -> (r: bool)
    ensures
        r == pairs_ready(points@, known as nat, t_ind as int),
{
    let k = find_known_pair(points, known, 0);
    if k >= points.len() / 2 {
        return false;
    }
    let at = (t_ind / 2) * 2 + (1 - t_ind % 2);
    at < points.len() && points[at] < known
}

/// Lowers lines.
fn pairs_geo(points: &[PointID], known: usize, t_ind: usize, alternating: bool) -> (r: Vec<Locus>)
    requires
        pairs_ready(points@, known as nat, t_ind as int),
    ensures
        r@ == pairs_loci(points@, known as nat, t_ind as int, alternating),
        all_within(r@, known as nat),
{
    let k = find_known_pair(points, known, 0);
    let l = t_ind / 2;
    let at = l * 2 + (1 - t_ind % 2);
    let apart = if l >= k {
        l - k
    } else {
        k - l
    };
    assert((apart % 2 != 0) == ((l as int - k as int) % 2 != 0));
    vec![
        Locus::Line {
            through: points[at],
            from: points[2 * k],
            to: points[2 * k + 1],
            turned: alternating && apart % 2 != 0,
        },
    ]
}

impl Parallel {
    /// Whether a line is known and the partner of the point at `t_ind`
    /// is known.
    pub fn geo_ready(&self, known: usize, t_ind: usize) -> (r: bool)
        ensures
            r == pairs_ready(self.points@, known as nat, t_ind as int),
    {
        pairs_geo_ready(self.points.as_slice(), known, t_ind)
    }

    /// The line through the partner in the direction of the first known
    /// line.
    pub fn geo(&self, known: usize, t_ind: usize) -> (r: Vec<Locus>)
        requires
            pairs_ready(self.points@, known as nat, t_ind as int),
        ensures
            r@ == pairs_loci(self.points@, known as nat, t_ind as int, false),
            all_within(r@, known as nat),
    {
        pairs_geo(self.points.as_slice(), known, t_ind, false)
    }
}

impl Perpendicular {
    /// Whether a line is known and the partner of the point at `t_ind`
    /// is known.
    pub fn geo_ready(&self, known: usize, t_ind: usize) -> (r: bool)
        ensures
            r == pairs_ready(self.points@, known as nat, t_ind as int),
    {
        pairs_geo_ready(self.points.as_slice(), known, t_ind)
    }

    /// The line through the partner in the direction of the first known
    /// line, at a right angle to it if the two lines are an odd number of
    /// lines apart.
    pub fn geo(&self, known: usize, t_ind: usize) -> (r: Vec<Locus>)
        requires
            pairs_ready(self.points@, known as nat, t_ind as int),
        ensures
            r@ == pairs_loci(self.points@, known as nat, t_ind as int, true),
            all_within(r@, known as nat),
    {
        pairs_geo(self.points.as_slice(), known, t_ind, true)
    }
}

impl Collinear {
    /// Whether two points are known.
    pub fn geo_ready(&self, known: usize) -> (r: bool)
        ensures
            r == collinear_ready(self.points@, known as nat),
    {
        let a = find_known(self.points.as_slice(), known, 0);
        if a >= self.points.len() {
            return false;
        }
        let b = find_known(self.points.as_slice(), known, a + 1);
        b < self.points.len()
    }

    /// The line through the first two known points.
    pub fn geo(&self, known: usize, _t_ind: usize) -> (r: Vec<Locus>)
        requires
            collinear_ready(self.points@, known as nat),
        ensures
            r@ == collinear_loci(self.points@, known as nat),
            all_within(r@, known as nat),
    {
        let a = find_known(self.points.as_slice(), known, 0);
        assert(a < self.points.len());
        let b = find_known(self.points.as_slice(), known, a + 1);
        vec![
            Locus::Line {
                through: self.points[a],
                from: self.points[a],
                to: self.points[b],
                turned: false,
            },
        ]
    }
}

impl AnglePolarity {
    /// The number of points that belong to triples with a polarity.
    fn paired_len(&self) -> (n: usize)
        ensures
            n <= self.points@.len(),
            self.points@.take(n as int) == with_polarity(self.points@, self.polarities@),
    {
        if self.points.len() / 3 <= self.polarities.len() {
            assert(self.points@.take(self.points@.len() as int) =~= self.points@);
            self.points.len()
        } else {
            3 * self.polarities.len()
        }
    }

    /// Whether no angle is known, or the other two points of the angle of
    /// the point at `t_ind` are known.
    pub fn geo_ready(&self, known: usize, t_ind: usize) -> (r: bool)
        ensures
            r == chirality_ready(self.points@, self.polarities@, known as nat, t_ind as int),
    {
        let n = self.paired_len();
        let triples = vstd::slice::slice_subrange(self.points.as_slice(), 0, n);
        assert(triples@ =~= self.points@.take(n as int));
        let k = find_known_triple(triples, known, 0);
        if k == n / 3 {
            return true;
        }
        let a = t_ind / 3;
        let i = t_ind % 3;
        if a >= self.polarities.len() || a >= self.points.len() / 3 {
            return false;
        }
        self.points[3 * a + (i + 1) % 3] < known && self.points[3 * a + (i + 2) % 3] < known
    }

    /// Nothing if no angle is known; else the half plane beside the other
    /// two points of the angle of the point at `t_ind`.
    pub fn geo(&self, known: usize, t_ind: usize) -> (r: Vec<Locus>)
        requires
            chirality_ready(self.points@, self.polarities@, known as nat, t_ind as int),
        ensures
            r@ == chirality_loci(self.points@, self.polarities@, known as nat, t_ind as int),
            all_within(r@, known as nat),
    {
        let n = self.paired_len();
        let triples = vstd::slice::slice_subrange(self.points.as_slice(), 0, n);
        assert(triples@ =~= self.points@.take(n as int));
        let k = find_known_triple(triples, known, 0);
        if k == n / 3 {
            return Vec::new();
        }
        let a = t_ind / 3;
        let i = t_ind % 3;
        assert(triples@[3 * k] == self.points@[3 * k]);
        assert(triples@[3 * k + 1] == self.points@[3 * k + 1]);
        assert(triples@[3 * k + 2] == self.points@[3 * k + 2]);
        let same = match (self.polarities[k], self.polarities[a]) {
            (Polarity::Pro, Polarity::Pro) => true,
            (Polarity::Anti, Polarity::Anti) => true,
            _ => false,
        };
        vec![
            Locus::Half {
                origin: self.points[3 * a + (i + 1) % 3],
                toward: self.points[3 * a + (i + 2) % 3],
                first: self.points[3 * k],
                second: self.points[3 * k + 1],
                third: self.points[3 * k + 2],
                same,
            },
        ]
    }
}

impl Constraint {
    /// Whether the constraint can be lowered for its point at `t_ind`
    /// when the points below `known` have their places.
    pub fn geo_ready(&self, known: usize, t_ind: usize) -> (r: bool)
        ensures
            r == self@.ready(known as nat, t_ind as int),
    {
        match self {
            Constraint::Distance(c) => c.geo_ready(known, t_ind),
            Constraint::Angle(c) => c.geo_ready(known, t_ind),
            Constraint::Parallel(c) => c.geo_ready(known, t_ind),
            Constraint::Perpendicular(c) => c.geo_ready(known, t_ind),
            Constraint::Collinear(c) => c.geo_ready(known),
            Constraint::Chirality(c) => c.geo_ready(known, t_ind),
        }
    }

    /// The loci that the constraint contributes to the place of its point
    /// at `t_ind` when the points below `known` have their places.
    pub fn geo(&self, known: usize, t_ind: usize) -> (r: Vec<Locus>)
        requires
            self@.ready(known as nat, t_ind as int),
        ensures
            r@ == self@.loci(known as nat, t_ind as int),
            all_within(r@, known as nat),
    {
        match self {
            Constraint::Distance(c) => c.geo(known, t_ind),
            Constraint::Angle(c) => c.geo(known, t_ind),
            Constraint::Parallel(c) => c.geo(known, t_ind),
            Constraint::Perpendicular(c) => c.geo(known, t_ind),
            Constraint::Collinear(c) => c.geo(known, t_ind),
            Constraint::Chirality(c) => c.geo(known, t_ind),
        }
    }
}

/// A distance or an angle that can pin a point when the points below
/// `known` are known can be lowered for that point.
pub proof fn lemma_sole_ready(c: ConstraintView, known: nat, t: PointID, t_ind: int)
    requires
        (c is Distance && c.points().len() == 2) || (c is Angle && c.points().len() == 3),
        pins(Rule::Sole, c.points(), below(known), t),
        0 <= t_ind < c.points().len(),
        c.points()[t_ind] == t,
    ensures
        c.ready(known, t_ind),
{
    let points = c.points();
    let i = choose|i: int|
        0 <= i < points.len() && #[trigger] points[i] == t && others_known(
            points,
            below(known),
            i,
        );
    if t_ind != i {
        assert(below(known).contains(points[t_ind]));
    }
    assert forall|j: int| 0 <= j < points.len() && j != t_ind implies #[trigger] points[j]
        < known by {
        assert(below(known).contains(points[j]));
    }
    if c is Distance {
        assert(points[other_end(t_ind)] < known);
    } else {
        if t_ind == 1 {
            assert(points[0] < known);
            assert(points[2] < known);
        } else {
            assert(points[1] < known);
            assert(points[other_arm(t_ind)] < known);
        }
    }
}

/// Collinear points of which one can be pinned when the points below
/// `known` are known can be lowered.
pub proof fn lemma_collinear_ready(points: Seq<PointID>, known: nat, t: PointID)
    requires
        pins(Rule::TwoKnown, points, below(known), t),
    ensures
        collinear_ready(points, known),
{
    let (i, j) = choose|i: int, j: int|
        0 <= i < j < points.len() && below(known).contains(#[trigger] points[i]) && below(
            known,
        ).contains(#[trigger] points[j]);
    lemma_first_known_least(points, known, 0, i);
    let a = first_known(points, known, 0);
    lemma_first_known(points, known, 0);
    lemma_first_known_least(points, known, a + 1, j);
}

/// Lines can be lowered for the end of a line whose other end is known,
/// once a line is known. The end that is sought need not be the first
/// place at which its point stands.
pub proof fn lemma_pairs_ready(points: Seq<PointID>, known: nat, t: PointID, t_ind: int)
    requires
        pins(Rule::Pairs, points, below(known), t),
        0 <= t_ind < 2 * (points.len() / 2),
        points[t_ind] == t,
        below(known).contains(points[partner(t_ind)]),
    ensures
        pairs_ready(points, known, t_ind),
{
    let n = points.len() / 2;
    let k = choose|k: int| 0 <= k < n && #[trigger] pair_known(points, below(known), k);
    assert(points[2 * k] < known && points[2 * k + 1] < known);
    lemma_first_known_pair_least(points, known, 0, k);
}

/// A point that lines pin stands at an end of a line whose other end is
/// known: for that end the lines can be lowered.
pub proof fn lemma_pairs_have_a_ready_end(points: Seq<PointID>, known: nat, t: PointID) -> (t_ind:
    int)
    requires
        pins(Rule::Pairs, points, below(known), t),
    ensures
        0 <= t_ind < points.len(),
        points[t_ind] == t,
        pairs_ready(points, known, t_ind),
{
    let n = points.len() / 2;
    let k = choose|k: int| 0 <= k < n && #[trigger] pair_pins(points, below(known), k, t);
    let t_ind = if points[2 * k] == t && below(known).contains(points[2 * k + 1]) {
        2 * k
    } else {
        2 * k + 1
    };
    assert(partner(t_ind) == if t_ind == 2 * k {
        2 * k + 1
    } else {
        2 * k
    });
    lemma_pairs_ready(points, known, t, t_ind);
    t_ind
}

/// A point that angles with polarities pin stands at a place of an angle
/// whose other two points are known: for that place the constraint can be
/// lowered, if each of its angles has a polarity.
pub proof fn lemma_triples_have_a_ready_place(
    points: Seq<PointID>,
    polarities: Seq<Polarity>,
    known: nat,
    t: PointID,
) -> (t_ind: int)
    requires
        points.len() == 3 * polarities.len(),
        pins(Rule::Triples, points, below(known), t),
    ensures
        0 <= t_ind < points.len(),
        points[t_ind] == t,
        chirality_ready(points, polarities, known, t_ind),
{
    let n = points.len() / 3;
    let k = choose|k: int| 0 <= k < n && #[trigger] triple_pins(points, below(known), k, t);
    let three = triple(points, k);
    let j = choose|j: int|
        0 <= j < 3 && #[trigger] three[j] == t && others_known(three, below(known), j);
    let t_ind = 3 * k + j;
    assert(below(known).contains(three[(j + 1) % 3]));
    assert(below(known).contains(three[(j + 2) % 3]));
    assert(three[(j + 1) % 3] == points[3 * k + (j + 1) % 3]);
    assert(three[(j + 2) % 3] == points[3 * k + (j + 2) % 3]);
    assert(three[j] == points[3 * k + j]);
    assert(t_ind / 3 == k && t_ind % 3 == j);
    t_ind
}

} // verus!
