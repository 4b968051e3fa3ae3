//! The relations of Allen's interval algebra between two ranges.

use std::cmp::Ordering;
use vstd::prelude::*;

verus! {

/// How two ranges relate to each other, after Allen's interval algebra.
///
/// Each variant reads "the first range ... the second one".
#[derive(Clone, Copy, Debug, Hash, PartialEq, Eq, Structural)]
pub enum RangesRelation {
    /// Ends before the second one starts, with a gap between them.
    StrictlyBefore,
    /// Starts after the second one ends, with a gap between them.
    StrictlyAfter,
    /// Ends exactly where the second one starts, without overlap or gap.
    Meets,
    /// Starts exactly where the second one ends, without overlap or gap.
    IsMet,
    /// Starts first, and ends inside the second one.
    Overlaps,
    /// Starts inside the second one, and ends after it.
    IsOverlapped,
    /// Starts with the second one, and ends first.
    Starts,
    /// Starts with the second one, and ends after it.
    IsStarted,
    /// Starts before and ends after the second one.
    StrictlyContains,
    /// Starts after and ends before the second one.
    IsStrictlyContained,
    /// Ends with the second one, and starts after it.
    Finishes,
    /// Ends with the second one, and starts before it.
    IsFinished,
    /// Starts and ends with the second one.
    Equal,
}

impl RangesRelation {
    /// The relation of the second range to the first.
    pub open spec fn inverse(self) -> RangesRelation {
        match self {
            RangesRelation::StrictlyBefore => RangesRelation::StrictlyAfter,
            RangesRelation::StrictlyAfter => RangesRelation::StrictlyBefore,
            RangesRelation::Meets => RangesRelation::IsMet,
            RangesRelation::IsMet => RangesRelation::Meets,
            RangesRelation::Overlaps => RangesRelation::IsOverlapped,
            RangesRelation::IsOverlapped => RangesRelation::Overlaps,
            RangesRelation::Starts => RangesRelation::IsStarted,
            RangesRelation::IsStarted => RangesRelation::Starts,
            RangesRelation::StrictlyContains => RangesRelation::IsStrictlyContained,
            RangesRelation::IsStrictlyContained => RangesRelation::StrictlyContains,
            RangesRelation::Finishes => RangesRelation::IsFinished,
            RangesRelation::IsFinished => RangesRelation::Finishes,
            RangesRelation::Equal => RangesRelation::Equal,
        }
    }

    pub open spec fn intersects_spec(self) -> bool {
        !(self is StrictlyBefore || self is StrictlyAfter)
    }

    pub open spec fn contains_spec(self) -> bool {
        self is Equal || self is StrictlyContains || self is IsFinished || self is IsStarted
    }

    /// How the start of the first range compares with the start of the second.
    pub open spec fn start_ordering_spec(self) -> Ordering {
        match self {
            RangesRelation::StrictlyBefore
            | RangesRelation::Meets
            | RangesRelation::Overlaps
            | RangesRelation::StrictlyContains
            | RangesRelation::IsFinished => Ordering::Less,
            RangesRelation::Starts | RangesRelation::IsStarted | RangesRelation::Equal => Ordering::Equal,
            RangesRelation::StrictlyAfter
            | RangesRelation::IsMet
            | RangesRelation::IsOverlapped
            | RangesRelation::IsStrictlyContained
            | RangesRelation::Finishes => Ordering::Greater,
        }
    }

    /// How the end of the first range compares with the end of the second.
    pub open spec fn end_ordering_spec(self) -> Ordering {
        match self {
            RangesRelation::StrictlyBefore
            | RangesRelation::Meets
            | RangesRelation::Overlaps
            | RangesRelation::Starts
            | RangesRelation::IsStrictlyContained => Ordering::Less,
            RangesRelation::Finishes | RangesRelation::IsFinished | RangesRelation::Equal => Ordering::Equal,
            RangesRelation::StrictlyAfter
            | RangesRelation::IsMet
            | RangesRelation::IsOverlapped
            | RangesRelation::IsStarted
            | RangesRelation::StrictlyContains => Ordering::Greater,
        }
    }

    /// Whether the two ranges share at least a point or touch: every relation
    /// but `StrictlyBefore` and `StrictlyAfter`.
    pub fn intersects(&self) -> (r: bool)
        ensures
            r == self.intersects_spec(),
    {
        match self {
            RangesRelation::StrictlyBefore | RangesRelation::StrictlyAfter => false,
            RangesRelation::Overlaps
            | RangesRelation::IsOverlapped
            | RangesRelation::Meets
            | RangesRelation::IsMet
            | RangesRelation::Starts
            | RangesRelation::IsStarted
            | RangesRelation::StrictlyContains
            | RangesRelation::IsStrictlyContained
            | RangesRelation::Finishes
            | RangesRelation::IsFinished
            | RangesRelation::Equal => true,
        }
    }

    /// Whether the two ranges are apart: `StrictlyBefore` or `StrictlyAfter`.
    pub fn disjoint(&self) -> (r: bool)
        ensures
            r == !self.intersects_spec(),
    {
        !self.intersects()
    }

    /// Whether the first range contains the second one: `Equal`,
    /// `StrictlyContains`, `IsFinished` or `IsStarted`.
    pub fn contains(&self) -> (r: bool)
        ensures
            r == self.contains_spec(),
    {
        match self {
            RangesRelation::Equal
            | RangesRelation::StrictlyContains
            | RangesRelation::IsFinished
            | RangesRelation::IsStarted => true,
            RangesRelation::StrictlyBefore
            | RangesRelation::StrictlyAfter
            | RangesRelation::Overlaps
            | RangesRelation::IsOverlapped
            | RangesRelation::Meets
            | RangesRelation::IsMet
            | RangesRelation::Starts
            | RangesRelation::IsStrictlyContained
            | RangesRelation::Finishes => false,
        }
    }

    /// The ordering of the start bounds of the two ranges.
    pub fn start_ordering(&self) -> (r: Ordering)
        ensures
            r == self.start_ordering_spec(),
    {
        match self {
            RangesRelation::StrictlyBefore => Ordering::Less,
            RangesRelation::StrictlyAfter => Ordering::Greater,
            RangesRelation::Meets => Ordering::Less,
            RangesRelation::IsMet => Ordering::Greater,
            RangesRelation::Overlaps => Ordering::Less,
            RangesRelation::IsOverlapped => Ordering::Greater,
            RangesRelation::Starts => Ordering::Equal,
            RangesRelation::IsStarted => Ordering::Equal,
            RangesRelation::StrictlyContains => Ordering::Less,
            RangesRelation::IsStrictlyContained => Ordering::Greater,
            RangesRelation::Finishes => Ordering::Greater,
            RangesRelation::IsFinished => Ordering::Less,
            RangesRelation::Equal => Ordering::Equal,
        }
    }

    /// The ordering of the end bounds of the two ranges.
    pub fn end_ordering(&self) -> (r: Ordering)
        ensures
            r == self.end_ordering_spec(),
    {
        match self {
            RangesRelation::StrictlyBefore => Ordering::Less,
            RangesRelation::StrictlyAfter => Ordering::Greater,
            RangesRelation::Meets => Ordering::Less,
            RangesRelation::IsMet => Ordering::Greater,
            RangesRelation::Overlaps => Ordering::Less,
            RangesRelation::IsOverlapped => Ordering::Greater,
            RangesRelation::Starts => Ordering::Less,
            RangesRelation::IsStarted => Ordering::Greater,
            RangesRelation::StrictlyContains => Ordering::Greater,
            RangesRelation::IsStrictlyContained => Ordering::Less,
            RangesRelation::Finishes => Ordering::Equal,
            RangesRelation::IsFinished => Ordering::Equal,
            RangesRelation::Equal => Ordering::Equal,
        }
    }
}

} // verus!
