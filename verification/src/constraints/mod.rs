//! Constraints between points, and the rules by which they pin points.

pub mod constraints;
pub mod elements;
pub mod locus;
pub mod lower;
pub mod rules;

use crate::constraints::constraints::{AnglePolarity, Collinear, Parallel, Perpendicular, Polarity};
use crate::constraints::elements::{Angle, Distance};
use crate::constraints::rules::{all_below, renamed, targets_of, PointID, Rule};
use crate::flags::ConFlags;
use std::collections::HashSet;
use vstd::prelude::*;

verus! {

broadcast use vstd::array::group_array_axioms;

/// A geometric relationship between points.
#[derive(Debug)]
pub enum Constraint {
    Distance(Distance),
    Angle(Angle),
    Parallel(Parallel),
    Perpendicular(Perpendicular),
    Collinear(Collinear),
    Chirality(AnglePolarity),
}

/// What a constraint says, as a mathematical value.
pub enum ConstraintView {
    Distance { points: Seq<PointID>, dist: u64 },
    Angle { points: Seq<PointID>, measure: u64 },
    Parallel { points: Seq<PointID> },
    Perpendicular { points: Seq<PointID> },
    Collinear { points: Seq<PointID> },
    Chirality { points: Seq<PointID>, polarities: Seq<Polarity> },
}

impl ConstraintView {
    /// The points that the constraint names, in order, duplicates
    /// included.
    pub open spec fn points(self) -> Seq<PointID> {
        match self {
            ConstraintView::Distance { points, .. } => points,
            ConstraintView::Angle { points, .. } => points,
            ConstraintView::Parallel { points } => points,
            ConstraintView::Perpendicular { points } => points,
            ConstraintView::Collinear { points } => points,
            ConstraintView::Chirality { points, .. } => points,
        }
    }

    /// The rule by which the constraint pins points.
    pub open spec fn rule(self) -> Rule {
        match self {
            ConstraintView::Distance { .. } => Rule::Sole,
            ConstraintView::Angle { .. } => Rule::Sole,
            ConstraintView::Parallel { .. } => Rule::Pairs,
            ConstraintView::Perpendicular { .. } => Rule::Pairs,
            ConstraintView::Collinear { .. } => Rule::TwoKnown,
            ConstraintView::Chirality { .. } => Rule::Triples,
        }
    }

    /// Whether the constraint counts towards discreteness: all do but the
    /// handedness of angles.
    pub open spec fn discretizing(self) -> bool {
        !(self is Chirality)
    }

    /// The same constraint on other points.
    pub open spec fn with_points(self, points: Seq<PointID>) -> ConstraintView {
        match self {
            ConstraintView::Distance { dist, .. } => ConstraintView::Distance { points, dist },
            ConstraintView::Angle { measure, .. } => ConstraintView::Angle { points, measure },
            ConstraintView::Parallel { .. } => ConstraintView::Parallel { points },
            ConstraintView::Perpendicular { .. } => ConstraintView::Perpendicular { points },
            ConstraintView::Collinear { .. } => ConstraintView::Collinear { points },
            ConstraintView::Chirality { polarities, .. } => ConstraintView::Chirality {
                points,
                polarities,
            },
        }
    }

    /// The constraint after each point `p` was replaced by `mapping[p]`.
    pub open spec fn renamed(self, mapping: Seq<PointID>) -> ConstraintView {
        self.with_points(renamed(self.points(), mapping))
    }

    /// The points that the constraint can pin when exactly the points of
    /// `known` are known.
    pub open spec fn targets(self, known: Set<PointID>) -> Seq<PointID> {
        targets_of(self.rule(), self.points(), known)
    }

    /// A distance names two points and an angle three.
    pub open spec fn arity_ok(self) -> bool {
        match self {
            ConstraintView::Distance { points, .. } => points.len() == 2,
            ConstraintView::Angle { points, .. } => points.len() == 3,
            _ => true,
        }
    }

    /// Every point that the constraint names is below `n`.
    pub open spec fn within(self, n: nat) -> bool {
        all_below(self.points(), n)
    }
}

impl View for Constraint {
    type V = ConstraintView;

    open spec fn view(&self) -> ConstraintView {
        match self {
            Constraint::Distance(d) => ConstraintView::Distance {
                points: d.points@,
                dist: d.dist,
            },
            Constraint::Angle(a) => ConstraintView::Angle {
                points: a.points@,
                measure: a.measure,
            },
            Constraint::Parallel(c) => ConstraintView::Parallel { points: c.points@ },
            Constraint::Perpendicular(c) => ConstraintView::Perpendicular { points: c.points@ },
            Constraint::Collinear(c) => ConstraintView::Collinear { points: c.points@ },
            Constraint::Chirality(c) => ConstraintView::Chirality {
                points: c.points@,
                polarities: c.polarities@,
            },
        }
    }
}

impl Constraint {
    /// The points that the constraint names, in order, duplicates
    /// included.
    pub fn points(&self) -> (r: &[PointID])
        ensures
            r@ == self@.points(),
    {
        match self {
            Constraint::Distance(c) => c.points(),
            Constraint::Angle(c) => c.points(),
            Constraint::Parallel(c) => c.points(),
            Constraint::Perpendicular(c) => c.points(),
            Constraint::Collinear(c) => c.points(),
            Constraint::Chirality(c) => c.points(),
        }
    }

    /// The unknown points that the constraint can pin, given the known
    /// ones; none while it cannot contribute.
    pub fn targets(&self, known_points: &HashSet<PointID>) -> (r: Vec<PointID>)
        ensures
            r@ == self@.targets(known_points@),
    {
        match self {
            Constraint::Distance(c) => c.targets(known_points),
            Constraint::Angle(c) => c.targets(known_points),
            Constraint::Parallel(c) => c.targets(known_points),
            Constraint::Perpendicular(c) => c.targets(known_points),
            Constraint::Collinear(c) => c.targets(known_points),
            Constraint::Chirality(c) => c.targets(known_points),
        }
    }

    /// The flags that characterise the constraint.
    pub fn flags(&self) -> (r: ConFlags)
        ensures
            r.is_discretizing() == self@.discretizing(),
            r.bits == (if self@.discretizing() {
                1u8
            } else {
                0u8
            }),
    {
        match self {
            Constraint::Distance(c) => c.flags(),
            Constraint::Angle(c) => c.flags(),
            Constraint::Parallel(c) => c.flags(),
            Constraint::Perpendicular(c) => c.flags(),
            Constraint::Collinear(c) => c.flags(),
            Constraint::Chirality(c) => c.flags(),
        }
    }

    /// Replaces each point `p` by `mapping[p]`.
    pub fn map_points(&mut self, mapping: &[PointID])
        requires
            old(self)@.within(mapping@.len()),
        ensures
            final(self)@ == old(self)@.renamed(mapping@),
    {
        match self {
            Constraint::Distance(c) => {
                assert(forall|i: int| 0 <= i < 2 ==> c.points@[i] == old(self)@.points()[i]);
                c.map_points(mapping)
            },
            Constraint::Angle(c) => {
                assert(forall|i: int| 0 <= i < 3 ==> c.points@[i] == old(self)@.points()[i]);
                c.map_points(mapping)
            },
            Constraint::Parallel(c) => c.map_points(mapping),
            Constraint::Perpendicular(c) => c.map_points(mapping),
            Constraint::Collinear(c) => c.map_points(mapping),
            Constraint::Chirality(c) => c.map_points(mapping),
        }
    }
}

} // verus!
