//! Constraints that carry a measure: distances and angles.

use crate::constraints::rules::{renamed, sole_targets, targets_of, PointID, Rule};
use crate::flags::ConFlags;
use std::collections::HashSet;
use vstd::prelude::*;

verus! {

broadcast use vstd::array::group_array_axioms;

/// The distance between two points.
///
/// The measure is kept as the bit pattern of a double-precision number;
/// nothing here reads it.
#[derive(Debug, Clone, Copy)]
pub struct Distance {
    pub points: [PointID; 2],
    pub dist: u64,
}

impl Distance {
    /// The two points, in the order in which they were named.
    pub fn points(&self) -> (r: &[PointID])
        ensures
            r@ == self.points@,
    {
        self.points.as_slice()
    }

    /// The unknown end, once the other end is known.
    pub fn targets(&self, known_points: &HashSet<PointID>) -> (r: Vec<PointID>)
        ensures
            r@ == targets_of(Rule::Sole, self.points@, known_points@),
    {
        sole_targets(self.points.as_slice(), known_points)
    }

    /// A distance counts towards discreteness.
    pub fn flags(&self) -> (r: ConFlags)
        ensures
            r.bits == 1,
            r.is_discretizing(),
    {
        ConFlags::discretizing()
    }

    /// Replaces each point `p` by `mapping[p]`.
    pub fn map_points(&mut self, mapping: &[PointID])
        requires
            forall|i: int| 0 <= i < 2 ==> old(self).points@[i] < mapping@.len(),
        ensures
            final(self).points@ == renamed(old(self).points@, mapping@),
            final(self).dist == old(self).dist,
    {
        let a = mapping[self.points[0]];
        let b = mapping[self.points[1]];
        self.points = [a, b];
        assert(self.points@ =~= renamed(old(self).points@, mapping@));
    }
}

/// The angle at the second of three points, from the first to the third.
///
/// The measure is kept as the bit pattern of a double-precision number;
/// nothing here reads it.
#[derive(Debug, Clone, Copy)]
pub struct Angle {
    pub points: [PointID; 3],
    pub measure: u64,
}

impl Angle {
    /// The three points, in the order in which they were named.
    pub fn points(&self) -> (r: &[PointID])
        ensures
            r@ == self.points@,
    {
        self.points.as_slice()
    }

    /// The one unknown point, once the other two are known.
    pub fn targets(&self, known_points: &HashSet<PointID>) -> (r: Vec<PointID>)
        ensures
            r@ == targets_of(Rule::Sole, self.points@, known_points@),
    {
        sole_targets(self.points.as_slice(), known_points)
    }

    /// An angle counts towards discreteness.
    pub fn flags(&self) -> (r: ConFlags)
        ensures
            r.bits == 1,
            r.is_discretizing(),
    {
        ConFlags::discretizing()
    }

    /// Replaces each point `p` by `mapping[p]`.
    pub fn map_points(&mut self, mapping: &[PointID])
        requires
            forall|i: int| 0 <= i < 3 ==> old(self).points@[i] < mapping@.len(),
        ensures
            final(self).points@ == renamed(old(self).points@, mapping@),
            final(self).measure == old(self).measure,
    {
        let a = mapping[self.points[0]];
        let b = mapping[self.points[1]];
        let c = mapping[self.points[2]];
        self.points = [a, b, c];
        assert(self.points@ =~= renamed(old(self).points@, mapping@));
    }
}

} // verus!
