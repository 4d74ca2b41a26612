//! Constraints without a measure: parallel and perpendicular lines,
//! collinear points, and the handedness of angles.

use crate::constraints::rules::{
    all_below, pair_rule_targets, rename_points, renamed, targets_of, triple_rule_targets,
    two_known_targets, PointID, Rule,
};
use crate::flags::ConFlags;
use std::collections::HashSet;
use vstd::prelude::*;

verus! {

/// Lines that are parallel to each other, each given by two points.
#[derive(Debug, PartialEq, Eq, Hash)]
pub struct Parallel {
    pub points: Vec<PointID>,
}

impl Parallel {
    /// At least two lines, each with both ends.
    pub open spec fn well_formed(&self) -> bool {
        self.points@.len() >= 4 && self.points@.len() % 2 == 0
    }

    /// The constraint on the given lines, end by end; nothing unless there
    /// are at least two whole lines.
    pub fn new(points: Vec<PointID>) -> (r: Option<Parallel>)
        ensures
            r is Some <==> (points@.len() >= 4 && points@.len() % 2 == 0),
            r is Some ==> r.unwrap().points@ == points@ && r.unwrap().well_formed(),
    {
        if points.len() >= 4 && points.len() % 2 == 0 {
            Some(Parallel { points })
        } else {
            None
        }
    }

    /// The points, in the order in which they were named.
    pub fn points(&self) -> (r: &[PointID])
        ensures
            r@ == self.points@,
    {
        self.points.as_slice()
    }

    /// Once a line is known, the unknown end of each line whose other end
    /// is known.
    pub fn targets(&self, known_points: &HashSet<PointID>) -> (r: Vec<PointID>)
        ensures
            r@ == targets_of(Rule::Pairs, self.points@, known_points@),
    {
        pair_rule_targets(self.points.as_slice(), known_points)
    }

    /// A parallel constraint counts towards discreteness.
    pub fn flags(&self) -> (r: ConFlags)
        ensures
            r.bits == 1,
            r.is_discretizing(),
    {
        ConFlags::discretizing()
    }

    /// Replaces each point `p` by `mapping[p]`.
    pub fn map_points(&mut self, mapping: &[PointID])
        requires
            all_below(old(self).points@, mapping@.len()),
        ensures
            final(self).points@ == renamed(old(self).points@, mapping@),
    {
        rename_points(&mut self.points, mapping);
    }
}

/// Lines of which each is perpendicular to the next, each given by two
/// points.
#[derive(Debug, PartialEq, Eq, Hash)]
pub struct Perpendicular {
    pub points: Vec<PointID>,
}

impl Perpendicular {
    /// At least two lines, each with both ends.
    pub open spec fn well_formed(&self) -> bool {
        self.points@.len() >= 4 && self.points@.len() % 2 == 0
    }

    /// The constraint on the given lines, end by end; nothing unless there
    /// are at least two whole lines.
    pub fn new(points: Vec<PointID>) -> (r: Option<Perpendicular>)
        ensures
            r is Some <==> (points@.len() >= 4 && points@.len() % 2 == 0),
            r is Some ==> r.unwrap().points@ == points@ && r.unwrap().well_formed(),
    {
        if points.len() >= 4 && points.len() % 2 == 0 {
            Some(Perpendicular { points })
        } else {
            None
        }
    }

    /// The points, in the order in which they were named.
    pub fn points(&self) -> (r: &[PointID])
        ensures
            r@ == self.points@,
    {
        self.points.as_slice()
    }

    /// Once a line is known, the unknown end of each line whose other end
    /// is known.
    pub fn targets(&self, known_points: &HashSet<PointID>) -> (r: Vec<PointID>)
        ensures
            r@ == targets_of(Rule::Pairs, self.points@, known_points@),
    {
        pair_rule_targets(self.points.as_slice(), known_points)
    }

    /// A perpendicular constraint counts towards discreteness.
    pub fn flags(&self) -> (r: ConFlags)
        ensures
            r.bits == 1,
            r.is_discretizing(),
    {
        ConFlags::discretizing()
    }

    /// Replaces each point `p` by `mapping[p]`.
    pub fn map_points(&mut self, mapping: &[PointID])
        requires
            all_below(old(self).points@, mapping@.len()),
        ensures
            final(self).points@ == renamed(old(self).points@, mapping@),
    {
        rename_points(&mut self.points, mapping);
    }
}

/// Points that lie on one line.
#[derive(Debug, PartialEq, Eq, Hash)]
pub struct Collinear {
    pub points: Vec<PointID>,
}

impl Collinear {
    /// At least three points.
    pub open spec fn well_formed(&self) -> bool {
        self.points@.len() >= 3
    }

    /// The constraint on the given points; nothing unless there are at
    /// least three.
    pub fn new(points: Vec<PointID>) -> (r: Option<Collinear>)
        ensures
            r is Some <==> points@.len() >= 3,
            r is Some ==> r.unwrap().points@ == points@ && r.unwrap().well_formed(),
    {
        if points.len() >= 3 {
            Some(Collinear { points })
        } else {
            None
        }
    }

    /// The points, in the order in which they were named.
    pub fn points(&self) -> (r: &[PointID])
        ensures
            r@ == self.points@,
    {
        self.points.as_slice()
    }

    /// Every unknown point, once two are known.
    pub fn targets(&self, known_points: &HashSet<PointID>) -> (r: Vec<PointID>)
        ensures
            r@ == targets_of(Rule::TwoKnown, self.points@, known_points@),
    {
        two_known_targets(self.points.as_slice(), known_points)
    }

    /// A collinear constraint counts towards discreteness.
    pub fn flags(&self) -> (r: ConFlags)
        ensures
            r.bits == 1,
            r.is_discretizing(),
    {
        ConFlags::discretizing()
    }

    /// Replaces each point `p` by `mapping[p]`.
    pub fn map_points(&mut self, mapping: &[PointID])
        requires
            all_below(old(self).points@, mapping@.len()),
        ensures
            final(self).points@ == renamed(old(self).points@, mapping@),
    {
        rename_points(&mut self.points, mapping);
    }
}

/// Whether an angle turns the way the first angle of its constraint does.
#[derive(Debug, Clone, Copy, PartialEq, Eq, Hash, Structural)]
pub enum Polarity {
    /// The same way.
    Pro,
    /// The other way.
    Anti,
}

/// Angles, each given by three points, with the way each of them turns
/// relative to the others.
#[derive(Debug, PartialEq, Eq, Hash)]
pub struct AnglePolarity {
    pub points: Vec<PointID>,
    pub polarities: Vec<Polarity>,
}

impl AnglePolarity {
    /// At least two angles, each with three points and a polarity.
    pub open spec fn well_formed(&self) -> bool {
        self.polarities@.len() >= 2 && self.points@.len() == 3 * self.polarities@.len()
    }

    /// The constraint on the given angles, point by point; nothing unless
    /// there are at least two angles and three points for each polarity.
    pub fn new(points: Vec<PointID>, polarities: Vec<Polarity>) -> (r: Option<AnglePolarity>)
        ensures
            r is Some <==> (polarities@.len() >= 2 && points@.len() == 3 * polarities@.len()),
            r is Some ==> r.unwrap().points@ == points@ && r.unwrap().polarities@
                == polarities@ && r.unwrap().well_formed(),
    {
        if polarities.len() >= 2 && points.len() / 3 == polarities.len() && points.len() % 3
            == 0 {
            Some(AnglePolarity { points, polarities })
        } else {
            None
        }
    }

    /// The points, in the order in which they were named.
    pub fn points(&self) -> (r: &[PointID])
        ensures
            r@ == self.points@,
    {
        self.points.as_slice()
    }

    /// Once an angle is known, the one unknown point of each angle whose
    /// other two points are known.
    pub fn targets(&self, known_points: &HashSet<PointID>) -> (r: Vec<PointID>)
        ensures
            r@ == targets_of(Rule::Triples, self.points@, known_points@),
    {
        triple_rule_targets(self.points.as_slice(), known_points)
    }

    /// The handedness of angles does not count towards discreteness.
    pub fn flags(&self) -> (r: ConFlags)
        ensures
            r.bits == 0,
            !r.is_discretizing(),
    {
        ConFlags::empty()
    }

    /// Replaces each point `p` by `mapping[p]`.
    pub fn map_points(&mut self, mapping: &[PointID])
        requires
            all_below(old(self).points@, mapping@.len()),
        ensures
            final(self).points@ == renamed(old(self).points@, mapping@),
            final(self).polarities == old(self).polarities,
    {
        rename_points(&mut self.points, mapping);
    }
}

} // verus!
