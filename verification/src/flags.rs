//! Flags that characterise a constraint.

use vstd::prelude::*;

verus! {

/// A set of flags, one bit each.
#[derive(Debug, Clone, Copy, PartialEq, Eq, Structural)]
pub struct ConFlags {
    pub bits: u8,
}

impl ConFlags {
    /// The bits of the set with no flag.
    pub const NONE: u8 = 0;

    /// The bit of the flag carried by a constraint that counts towards
    /// the two constraints that make a point discrete.
    pub const DISCRETIZING: u8 = 1;

    /// Every flag of `other` is set in `self`.
    pub open spec fn contains_spec(self, other: ConFlags) -> bool {
        self.bits & other.bits == other.bits
    }

    /// Whether the constraint counts towards discreteness.
    pub open spec fn is_discretizing(self) -> bool {
        self.contains_spec(ConFlags { bits: 1 })
    }

    /// The empty set of flags.
    pub fn empty() -> (r: ConFlags)
        ensures
            r.bits == 0,
            !r.is_discretizing(),
    {
        assert(0u8 & 1u8 != 1u8) by (bit_vector);
        ConFlags { bits: 0 }
    }

    /// The set that holds the discretizing flag alone.
    pub fn discretizing() -> (r: ConFlags)
        ensures
            r.bits == 1,
            r.is_discretizing(),
    {
        assert(1u8 & 1u8 == 1u8) by (bit_vector);
        ConFlags { bits: 1 }
    }

    /// The bits of the set.
    pub fn bits(self) -> (r: u8)
        ensures
            r == self.bits,
    {
        self.bits
    }

    /// Tests whether every flag of `other` is set in `self`.
    pub fn contains(self, other: ConFlags) -> (r: bool)
        ensures
            r == self.contains_spec(other),
    {
        self.bits & other.bits == other.bits
    }

    /// The flags set in both.
    pub fn bitand(self, rhs: ConFlags) -> (r: ConFlags)
        ensures
            r.bits == self.bits & rhs.bits,
    {
        ConFlags { bits: self.bits & rhs.bits }
    }

    /// The flags set in either.
    pub fn bitor(self, rhs: ConFlags) -> (r: ConFlags)
        ensures
            r.bits == self.bits | rhs.bits,
    {
        ConFlags { bits: self.bits | rhs.bits }
    }

    /// The flags set in exactly one of the two.
    pub fn bitxor(self, rhs: ConFlags) -> (r: ConFlags)
        ensures
            r.bits == self.bits ^ rhs.bits,
    {
        ConFlags { bits: self.bits ^ rhs.bits }
    }
}

impl Default for ConFlags {
    fn default() -> (r: ConFlags)
        ensures
            r.bits == 1,
            r.is_discretizing(),
    {
        ConFlags::discretizing()
    }
}

} // verus!
