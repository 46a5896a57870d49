//! Versions, the lexicographic order on them, and the six comparators.
use vstd::prelude::*;

verus! {

/// A (major, minor, patch) version triple.
#[derive(Clone, Copy, Debug, PartialEq, Eq, Structural)]
pub struct Version {
    pub major: u64,
    pub minor: u64,
    pub patch: u64,
}

impl Version {
    pub fn new(major: u64, minor: u64, patch: u64) -> (r: Version)
        ensures
            r == (Version { major, minor, patch }),
    {
        Version { major, minor, patch }
    }

    /// `self` comes strictly before `other` in the lexicographic order on
    /// (major, minor, patch).
    pub open spec fn precedes(self, other: Version) -> bool {
        ||| self.major < other.major
        ||| self.major == other.major && self.minor < other.minor
        ||| self.major == other.major && self.minor == other.minor && self.patch < other.patch
    }

    /// Executable form of `precedes`.
    pub fn is_before(&self, other: &Version) -> (r: bool)
        ensures
            r == self.precedes(*other),
    {
        if self.major != other.major {
            self.major < other.major
        } else if self.minor != other.minor {
            self.minor < other.minor
        } else {
            self.patch < other.patch
        }
    }
}

/// A comparison operator between two versions.
#[derive(Clone, Copy, Debug, PartialEq, Eq, Structural)]
pub enum Cmp {
    EQ,
    NE,
    GT,
    LT,
    GE,
    LE,
}

impl Cmp {
    /// `left cmp right` holds.
    pub open spec fn holds(self, left: Version, right: Version) -> bool {
        match self {
            Cmp::EQ => left == right,
            Cmp::NE => left != right,
            Cmp::GT => right.precedes(left),
            Cmp::LT => left.precedes(right),
            Cmp::GE => !left.precedes(right),
            Cmp::LE => !right.precedes(left),
        }
    }
}

/// Decides `left cmp right`.
pub fn is_condition_true(left: Version, cmp: Cmp, right: Version) -> (r: bool)
    ensures
        r == cmp.holds(left, right),
{
    match cmp {
        Cmp::EQ => left == right,
        Cmp::NE => left != right,
        Cmp::GT => right.is_before(&left),
        Cmp::GE => !left.is_before(&right),
        Cmp::LT => left.is_before(&right),
        Cmp::LE => !right.is_before(&left),
    }
}

/// The six comparators agree with the lexicographic order on
/// (major, minor, patch): `EQ` is equality and is reflexive, `NE` is its
/// negation, `GE` and `LE` are `GT` or `EQ` and `LT` or `EQ`, `GT` is `LT`
/// with its sides swapped, and of `EQ`, `LT` and `GT` exactly one holds of
/// any two versions.
pub proof fn lemma_comparators_agree_with_order(l: Version, r: Version)
    ensures
        Cmp::EQ.holds(l, r) <==> l == r,
        Cmp::EQ.holds(l, l),
        Cmp::NE.holds(l, r) <==> l != r,
        Cmp::LT.holds(l, r) <==> l.precedes(r),
        Cmp::GT.holds(l, r) <==> Cmp::LT.holds(r, l),
        Cmp::GE.holds(l, r) <==> (Cmp::GT.holds(l, r) || Cmp::EQ.holds(l, r)),
        Cmp::LE.holds(l, r) <==> (Cmp::LT.holds(l, r) || Cmp::EQ.holds(l, r)),
        (Cmp::EQ.holds(l, r) as int) + (Cmp::LT.holds(l, r) as int) + (Cmp::GT.holds(l, r) as int)
            == 1,
{
}

} // verus!
