//! The continuous range type, its model as bounds and values, and its set
//! operations.

use std::cmp::Ordering;
use vstd::prelude::*;
use vstd::std_specs::cmp::PartialOrdSpec;

use crate::bounds::{
    bound_cmp, bound_value, expect_bound, opt_bound_view, opt_bounds_view, partial_cmp_bounds, reverse_bound,
    reversed, Bound, BoundOrdering, BoundSide,
};
use crate::order::{admits, at_or_before, is_total_order};
use crate::relation::RangesRelation;

verus! {

/// `a < b` in the ordering of `T`.
pub open spec fn lt<T: PartialOrd>(a: T, b: T) -> bool {
    a.partial_cmp_spec(&b) == Some(Ordering::Less)
}

/// `a <= b` in the ordering of `T`.
pub open spec fn le<T: PartialOrd>(a: T, b: T) -> bool {
    a.partial_cmp_spec(&b) matches Some(Ordering::Less | Ordering::Equal)
}

/// `a > b` in the ordering of `T`.
pub open spec fn gt<T: PartialOrd>(a: T, b: T) -> bool {
    a.partial_cmp_spec(&b) == Some(Ordering::Greater)
}

/// `a >= b` in the ordering of `T`.
pub open spec fn ge<T: PartialOrd>(a: T, b: T) -> bool {
    a.partial_cmp_spec(&b) matches Some(Ordering::Greater | Ordering::Equal)
}

/// A continuous range (one without holes) of values of type `Idx`.
///
/// It is empty, holds a single value, runs between two values (each end
/// included or excluded), runs from or to a value without end on the other
/// side, or holds every value.
#[derive(Clone, Copy, Debug, Hash, PartialEq)]
pub enum ContinuousRange<Idx> {
    /// No value: `[]`
    Empty,
    /// A single value: `value`
    Single(Idx),
    /// From `start` to `end`, both included: `[start..end]`
    Inclusive(Idx, Idx),
    /// From `start` to `end`, both excluded: `(start..end)`
    Exclusive(Idx, Idx),
    /// From `start` excluded to `end` included: `(start..end]`
    StartExclusive(Idx, Idx),
    /// From `start` included to `end` excluded: `[start..end)`
    EndExclusive(Idx, Idx),
    /// Every value from `start`, included: `[start..)`
    From(Idx),
    /// Every value after `start`: `(start..)`
    FromExclusive(Idx),
    /// Every value up to `end`, included: `(..end]`
    To(Idx),
    /// Every value below `end`: `(..end)`
    ToExclusive(Idx),
    /// Every value: `(..)`
    Full,
}

impl<Idx> ContinuousRange<Idx> {
    /// The start bound, `None` for `Empty`.
    pub open spec fn start_spec(self) -> Option<Bound<Idx>> {
        match self {
            ContinuousRange::Empty => None,
            ContinuousRange::Single(v) => Some(Bound::Included(v)),
            ContinuousRange::Inclusive(s, _) => Some(Bound::Included(s)),
            ContinuousRange::Exclusive(s, _) => Some(Bound::Excluded(s)),
            ContinuousRange::StartExclusive(s, _) => Some(Bound::Excluded(s)),
            ContinuousRange::EndExclusive(s, _) => Some(Bound::Included(s)),
            ContinuousRange::From(s) => Some(Bound::Included(s)),
            ContinuousRange::FromExclusive(s) => Some(Bound::Excluded(s)),
            ContinuousRange::To(_) => Some(Bound::Unbounded),
            ContinuousRange::ToExclusive(_) => Some(Bound::Unbounded),
            ContinuousRange::Full => Some(Bound::Unbounded),
        }
    }

    /// The end bound, `None` for `Empty`.
    pub open spec fn end_spec(self) -> Option<Bound<Idx>> {
        match self {
            ContinuousRange::Empty => None,
            ContinuousRange::Single(v) => Some(Bound::Included(v)),
            ContinuousRange::Inclusive(_, e) => Some(Bound::Included(e)),
            ContinuousRange::Exclusive(_, e) => Some(Bound::Excluded(e)),
            ContinuousRange::StartExclusive(_, e) => Some(Bound::Included(e)),
            ContinuousRange::EndExclusive(_, e) => Some(Bound::Excluded(e)),
            ContinuousRange::From(_) => Some(Bound::Unbounded),
            ContinuousRange::FromExclusive(_) => Some(Bound::Unbounded),
            ContinuousRange::To(e) => Some(Bound::Included(e)),
            ContinuousRange::ToExclusive(e) => Some(Bound::Excluded(e)),
            ContinuousRange::Full => Some(Bound::Unbounded),
        }
    }

    /// The pair of start and end bounds, `None` for `Empty`.
    pub open spec fn bounds_spec(self) -> Option<(Bound<Idx>, Bound<Idx>)> {
        match (self.start_spec(), self.end_spec()) {
            (Some(s), Some(e)) => Some((s, e)),
            _ => None,
        }
    }

    /// The start bound of a range that is not `Empty`.
    pub open spec fn start(self) -> Bound<Idx> {
        self.start_spec().unwrap()
    }

    /// The end bound of a range that is not `Empty`.
    pub open spec fn end(self) -> Bound<Idx> {
        self.end_spec().unwrap()
    }
}

impl<Idx: PartialOrd> ContinuousRange<Idx> {
    /// `[start..end]`, a single value where the two are equal, empty where
    /// `start > end`.
    pub open spec fn inclusive_spec(start: Idx, end: Idx) -> Self {
        match start.partial_cmp_spec(&end) {
            Some(Ordering::Equal) => ContinuousRange::Single(start),
            Some(Ordering::Greater) => ContinuousRange::Empty,
            _ => ContinuousRange::Inclusive(start, end),
        }
    }

    /// `(start..end)`, empty where `start >= end`.
    pub open spec fn exclusive_spec(start: Idx, end: Idx) -> Self {
        if ge(start, end) {
            ContinuousRange::Empty
        } else {
            ContinuousRange::Exclusive(start, end)
        }
    }

    /// `(start..end]`, empty where `start >= end`.
    pub open spec fn start_exclusive_spec(start: Idx, end: Idx) -> Self {
        if ge(start, end) {
            ContinuousRange::Empty
        } else {
            ContinuousRange::StartExclusive(start, end)
        }
    }

    /// `[start..end)`, empty where `start >= end`.
    pub open spec fn end_exclusive_spec(start: Idx, end: Idx) -> Self {
        if ge(start, end) {
            ContinuousRange::Empty
        } else {
            ContinuousRange::EndExclusive(start, end)
        }
    }

    /// The range with the given start and end bounds, normalized as the
    /// constructors do.
    pub open spec fn from_bounds_spec(start: Bound<Idx>, end: Bound<Idx>) -> Self {
        match (start, end) {
            (Bound::Unbounded, Bound::Unbounded) => ContinuousRange::Full,
            (Bound::Included(s), Bound::Included(e)) => Self::inclusive_spec(s, e),
            (Bound::Included(s), Bound::Excluded(e)) => Self::end_exclusive_spec(s, e),
            (Bound::Included(s), Bound::Unbounded) => ContinuousRange::From(s),
            (Bound::Excluded(s), Bound::Included(e)) => Self::start_exclusive_spec(s, e),
            (Bound::Excluded(s), Bound::Excluded(e)) => Self::exclusive_spec(s, e),
            (Bound::Excluded(s), Bound::Unbounded) => ContinuousRange::FromExclusive(s),
            (Bound::Unbounded, Bound::Included(e)) => ContinuousRange::To(e),
            (Bound::Unbounded, Bound::Excluded(e)) => ContinuousRange::ToExclusive(e),
        }
    }

    /// The range in normal form: two-value variants whose bounds are equal or
    /// inverted become `Single` or `Empty` as the constructors make them.
    pub open spec fn simplify_spec(self) -> Self {
        match self {
            ContinuousRange::Inclusive(s, e) => Self::inclusive_spec(s, e),
            ContinuousRange::Exclusive(s, e) => Self::exclusive_spec(s, e),
            ContinuousRange::StartExclusive(s, e) => Self::start_exclusive_spec(s, e),
            ContinuousRange::EndExclusive(s, e) => Self::end_exclusive_spec(s, e),
            _ => self,
        }
    }

    /// Holds no value: `Empty`, or a two-value variant whose bounds leave no
    /// room between them.
    pub open spec fn is_empty_spec(self) -> bool {
        match self {
            ContinuousRange::Empty => true,
            ContinuousRange::Inclusive(s, e) => gt(s, e),
            ContinuousRange::Exclusive(s, e) => ge(s, e),
            ContinuousRange::StartExclusive(s, e) => ge(s, e),
            ContinuousRange::EndExclusive(s, e) => ge(s, e),
            _ => false,
        }
    }

    /// Whether `value` lies in the range.
    pub open spec fn contains_spec(self, value: Idx) -> bool {
        match self {
            ContinuousRange::Empty => false,
            ContinuousRange::Single(v) => value.partial_cmp_spec(&v) == Some(Ordering::Equal),
            ContinuousRange::Inclusive(s, e) => ge(value, s) && le(value, e),
            ContinuousRange::Exclusive(s, e) => gt(value, s) && lt(value, e),
            ContinuousRange::StartExclusive(s, e) => gt(value, s) && le(value, e),
            ContinuousRange::EndExclusive(s, e) => ge(value, s) && lt(value, e),
            ContinuousRange::From(s) => ge(value, s),
            ContinuousRange::FromExclusive(s) => gt(value, s),
            ContinuousRange::To(e) => le(value, e),
            ContinuousRange::ToExclusive(e) => lt(value, e),
            ContinuousRange::Full => true,
        }
    }

    /// The relation of `self` to `other` (Allen's interval algebra), from the
    /// comparisons of their bounds. Two empty ranges are `Equal`; an empty
    /// range and another one are not comparable.
    #[verifier::opaque]
    pub open spec fn compare_spec(self, other: Self) -> Option<RangesRelation> {
        if self.is_empty_spec() {
            if other.is_empty_spec() {
                Some(RangesRelation::Equal)
            } else {
                None
            }
        } else if other.is_empty_spec() {
            None
        } else {
            relation_of_bounds(self.start(), self.end(), other.start(), other.end())
        }
    }

    /// The range that both ranges make together, knowing their relation.
    pub open spec fn union_knowing_spec(self, other: Self, cmp: RangesRelation) -> Option<Self> {
        match cmp {
            RangesRelation::StrictlyBefore | RangesRelation::StrictlyAfter => None,
            RangesRelation::Meets | RangesRelation::Overlaps => Some(
                Self::from_bounds_spec(self.start(), other.end()),
            ),
            RangesRelation::IsMet | RangesRelation::IsOverlapped => Some(
                Self::from_bounds_spec(other.start(), self.end()),
            ),
            RangesRelation::Starts
            | RangesRelation::IsStrictlyContained
            | RangesRelation::Finishes => Some(other),
            RangesRelation::IsStarted
            | RangesRelation::StrictlyContains
            | RangesRelation::IsFinished
            | RangesRelation::Equal => Some(self),
        }
    }

    /// The range that both ranges make together, `None` where that is no
    /// single continuous range.
    pub open spec fn union_spec(self, other: Self) -> Option<Self> {
        if self is Full || other is Full {
            Some(ContinuousRange::Full)
        } else if self.is_empty_spec() {
            Some(other)
        } else if other.is_empty_spec() {
            Some(self)
        } else {
            match self.compare_spec(other) {
                Some(cmp) => self.union_knowing_spec(other, cmp),
                None => None,
            }
        }
    }

    /// The part that the two ranges share; ranges that touch share the point
    /// where they meet.
    pub open spec fn intersection_spec(self, other: Self) -> Self {
        if self.is_empty_spec() || other.is_empty_spec() {
            ContinuousRange::Empty
        } else if self is Full {
            other
        } else if other is Full {
            self
        } else {
            match self.compare_spec(other) {
                Some(cmp) => match cmp {
                    RangesRelation::StrictlyBefore | RangesRelation::StrictlyAfter => ContinuousRange::Empty,
                    RangesRelation::Meets => ContinuousRange::Single(bound_value(self.end())),
                    RangesRelation::IsMet => ContinuousRange::Single(bound_value(self.start())),
                    RangesRelation::Overlaps => Self::from_bounds_spec(other.start(), self.end()),
                    RangesRelation::IsOverlapped => Self::from_bounds_spec(self.start(), other.end()),
                    RangesRelation::Starts
                    | RangesRelation::IsStrictlyContained
                    | RangesRelation::Finishes
                    | RangesRelation::Equal => self,
                    RangesRelation::IsStarted
                    | RangesRelation::StrictlyContains
                    | RangesRelation::IsFinished => other,
                },
                None => ContinuousRange::Empty,
            }
        }
    }

    /// What is left of `self` once `other` is taken out, `None` where that is
    /// two pieces, or where the ranges are not comparable. Taking `Empty` out
    /// leaves `self`; taking anything out of `Empty` gives `other` back. The
    /// piece left is cut at the bound of `other`, turned to the other
    /// inclusivity.
    pub open spec fn difference_spec(self, other: Self) -> Option<Self> {
        if self is Empty {
            Some(other)
        } else if other is Empty {
            Some(self)
        } else {
            match self.compare_spec(other) {
                Some(cmp) => match cmp {
                    RangesRelation::StrictlyBefore | RangesRelation::StrictlyAfter => Some(self),
                    RangesRelation::Equal
                    | RangesRelation::IsStrictlyContained
                    | RangesRelation::Starts
                    | RangesRelation::Finishes => Some(ContinuousRange::Empty),
                    RangesRelation::StrictlyContains => None,
                    RangesRelation::Meets
                    | RangesRelation::Overlaps
                    | RangesRelation::IsFinished => Some(Self::from_bounds_spec(self.start(), reversed(other.start()))),
                    RangesRelation::IsMet
                    | RangesRelation::IsOverlapped
                    | RangesRelation::IsStarted => Some(Self::from_bounds_spec(reversed(other.end()), self.end())),
                },
                None => None,
            }
        }
    }

    /// Whether the two ranges share a point or touch. Two empty ranges do not.
    pub open spec fn intersects_spec(self, other: Self) -> bool {
        if self.is_empty_spec() && other.is_empty_spec() {
            false
        } else {
            match self.compare_spec(other) {
                Some(r) => r.intersects_spec(),
                None => false,
            }
        }
    }

    /// Whether `self` contains `other`, as their relation says.
    pub open spec fn contains_range_spec(self, other: Self) -> bool {
        match self.compare_spec(other) {
            Some(r) => r.contains_spec(),
            None => false,
        }
    }
}

/// Allen's relation between two non-empty ranges given by their bounds,
/// `None` where a comparison of their values is undefined.
pub open spec fn relation_of_bounds<T: PartialOrd>(
    s1: Bound<T>,
    e1: Bound<T>,
    s2: Bound<T>,
    e2: Bound<T>,
) -> Option<RangesRelation> {
    let end_start = bound_cmp(e1, BoundSide::End, s2, BoundSide::Start);
    let start_end = bound_cmp(s1, BoundSide::Start, e2, BoundSide::End);
    let start_start = bound_cmp(s1, BoundSide::Start, s2, BoundSide::Start);
    let end_end = bound_cmp(e1, BoundSide::End, e2, BoundSide::End);
    if end_start is None {
        None
    } else if end_start == Some(BoundOrdering::Less) {
        Some(RangesRelation::StrictlyBefore)
    } else if end_start == Some(BoundOrdering::Meets) {
        Some(RangesRelation::Meets)
    } else if start_end is None {
        None
    } else if start_end == Some(BoundOrdering::Greater) {
        Some(RangesRelation::StrictlyAfter)
    } else if start_end == Some(BoundOrdering::IsMet) {
        Some(RangesRelation::IsMet)
    } else {
        match (start_start, end_end) {
            (Some(ss), Some(ee)) => overlap_relation(ss, ee),
            _ => None,
        }
    }
}

/// The relation of two overlapping ranges from how their starts and their
/// ends compare.
pub open spec fn overlap_relation(start_start: BoundOrdering, end_end: BoundOrdering) -> Option<RangesRelation> {
    match (start_start, end_end) {
        (BoundOrdering::Less, BoundOrdering::Less) => Some(RangesRelation::Overlaps),
        (BoundOrdering::Greater, BoundOrdering::Greater) => Some(RangesRelation::IsOverlapped),
        (BoundOrdering::Equal, BoundOrdering::Less) => Some(RangesRelation::Starts),
        (BoundOrdering::Equal, BoundOrdering::Greater) => Some(RangesRelation::IsStarted),
        (BoundOrdering::Greater, BoundOrdering::Equal) => Some(RangesRelation::Finishes),
        (BoundOrdering::Less, BoundOrdering::Equal) => Some(RangesRelation::IsFinished),
        (BoundOrdering::Less, BoundOrdering::Greater) => Some(RangesRelation::StrictlyContains),
        (BoundOrdering::Greater, BoundOrdering::Less) => Some(RangesRelation::IsStrictlyContained),
        (BoundOrdering::Equal, BoundOrdering::Equal) => Some(RangesRelation::Equal),
        _ => None,
    }
}

/// Bounds on the same side never touch, an end never lies just after a start
/// and a start never just before an end.
pub proof fn lemma_bound_cmp_shape<T: PartialOrd>(a: Bound<T>, b: Bound<T>)
    ensures
        !(bound_cmp(a, BoundSide::Start, b, BoundSide::Start) matches Some(BoundOrdering::Meets | BoundOrdering::IsMet)),
        !(bound_cmp(a, BoundSide::End, b, BoundSide::End) matches Some(BoundOrdering::Meets | BoundOrdering::IsMet)),
        bound_cmp(a, BoundSide::End, b, BoundSide::Start) != Some(BoundOrdering::IsMet),
        bound_cmp(a, BoundSide::Start, b, BoundSide::End) != Some(BoundOrdering::Meets),
{
}

} // verus!

verus! {

impl<Idx> ContinuousRange<Idx> {
    /// A range holding no value: `[]`
    pub fn empty() -> (r: ContinuousRange<Idx>)
        ensures
            r is Empty,
    {
        ContinuousRange::Empty
    }

    /// A range holding a single value: `value`
    pub fn single(value: Idx) -> (r: ContinuousRange<Idx>)
        ensures
            r == ContinuousRange::Single(value),
    {
        ContinuousRange::Single(value)
    }

    /// Every value from `start`, included: `[start..)`
    pub fn from(start: Idx) -> (r: ContinuousRange<Idx>)
        ensures
            r == ContinuousRange::From(start),
    {
        ContinuousRange::From(start)
    }

    /// Every value after `start`: `(start..)`
    pub fn from_exclusive(start: Idx) -> (r: ContinuousRange<Idx>)
        ensures
            r == ContinuousRange::FromExclusive(start),
    {
        ContinuousRange::FromExclusive(start)
    }

    /// Every value up to `end`, included: `(..end]`
    pub fn to(end: Idx) -> (r: ContinuousRange<Idx>)
        ensures
            r == ContinuousRange::To(end),
    {
        ContinuousRange::To(end)
    }

    /// Every value below `end`: `(..end)`
    pub fn to_exclusive(end: Idx) -> (r: ContinuousRange<Idx>)
        ensures
            r == ContinuousRange::ToExclusive(end),
    {
        ContinuousRange::ToExclusive(end)
    }

    /// Every value: `(..)`
    pub fn full() -> (r: ContinuousRange<Idx>)
        ensures
            r is Full,
    {
        ContinuousRange::Full
    }

    /// The start and end bounds, `None` for `Empty`.
    pub fn range_bounds(&self) -> (r: Option<(Bound<&Idx>, Bound<&Idx>)>)
        ensures
            opt_bounds_view(r) == self.bounds_spec(),
    {
        match self {
            ContinuousRange::Empty => None,
            ContinuousRange::Single(value) => Some((Bound::Included(value), Bound::Included(value))),
            ContinuousRange::Inclusive(start, end) => Some((Bound::Included(start), Bound::Included(end))),
            ContinuousRange::Exclusive(start, end) => Some((Bound::Excluded(start), Bound::Excluded(end))),
            ContinuousRange::StartExclusive(start, end) => Some((Bound::Excluded(start), Bound::Included(end))),
            ContinuousRange::EndExclusive(start, end) => Some((Bound::Included(start), Bound::Excluded(end))),
            ContinuousRange::From(start) => Some((Bound::Included(start), Bound::Unbounded)),
            ContinuousRange::FromExclusive(start) => Some((Bound::Excluded(start), Bound::Unbounded)),
            ContinuousRange::To(end) => Some((Bound::Unbounded, Bound::Included(end))),
            ContinuousRange::ToExclusive(end) => Some((Bound::Unbounded, Bound::Excluded(end))),
            ContinuousRange::Full => Some((Bound::Unbounded, Bound::Unbounded)),
        }
    }

    /// The start bound, `None` for `Empty`.
    pub fn start_bound(&self) -> (r: Option<Bound<&Idx>>)
        ensures
            opt_bound_view(r) == self.start_spec(),
    {
        match self {
            ContinuousRange::Empty => None,
            ContinuousRange::Single(value) => Some(Bound::Included(value)),
            ContinuousRange::Inclusive(start, _) => Some(Bound::Included(start)),
            ContinuousRange::Exclusive(start, _) => Some(Bound::Excluded(start)),
            ContinuousRange::StartExclusive(start, _) => Some(Bound::Excluded(start)),
            ContinuousRange::EndExclusive(start, _) => Some(Bound::Included(start)),
            ContinuousRange::From(start) => Some(Bound::Included(start)),
            ContinuousRange::FromExclusive(start) => Some(Bound::Excluded(start)),
            ContinuousRange::To(_) | ContinuousRange::ToExclusive(_) | ContinuousRange::Full => Some(Bound::Unbounded),
        }
    }

    /// The end bound, `None` for `Empty`.
    pub fn end_bound(&self) -> (r: Option<Bound<&Idx>>)
        ensures
            opt_bound_view(r) == self.end_spec(),
    {
        match self {
            ContinuousRange::Empty => None,
            ContinuousRange::Single(value) => Some(Bound::Included(value)),
            ContinuousRange::Inclusive(_, end) => Some(Bound::Included(end)),
            ContinuousRange::Exclusive(_, end) => Some(Bound::Excluded(end)),
            ContinuousRange::StartExclusive(_, end) => Some(Bound::Included(end)),
            ContinuousRange::EndExclusive(_, end) => Some(Bound::Excluded(end)),
            ContinuousRange::To(end) => Some(Bound::Included(end)),
            ContinuousRange::ToExclusive(end) => Some(Bound::Excluded(end)),
            ContinuousRange::From(_) | ContinuousRange::FromExclusive(_) | ContinuousRange::Full => Some(Bound::Unbounded),
        }
    }

    /// Whether this is the range of every value.
    pub fn is_full(&self) -> (r: bool)
        ensures
            r == (*self is Full),
    {
        matches!(self, ContinuousRange::Full)
    }
}

impl<Idx: PartialOrd> ContinuousRange<Idx> {
    /// `[start..end]`: a single value where `start == end`, empty where
    /// `start > end`.
    pub fn inclusive(start: Idx, end: Idx) -> (r: ContinuousRange<Idx>)
        requires
            Idx::obeys_partial_cmp_spec(),
        ensures
            r == Self::inclusive_spec(start, end),
    {
        match start.partial_cmp(&end) {
            Some(Ordering::Equal) => ContinuousRange::Single(start),
            Some(Ordering::Greater) => ContinuousRange::Empty,
            _ => ContinuousRange::Inclusive(start, end),
        }
    }

    /// `(start..end)`: empty where `start >= end`.
    pub fn exclusive(start: Idx, end: Idx) -> (r: ContinuousRange<Idx>)
        requires
            Idx::obeys_partial_cmp_spec(),
        ensures
            r == Self::exclusive_spec(start, end),
    {
        if start >= end {
            ContinuousRange::Empty
        } else {
            ContinuousRange::Exclusive(start, end)
        }
    }

    /// `(start..end]`: empty where `start >= end`.
    pub fn start_exclusive(start: Idx, end: Idx) -> (r: ContinuousRange<Idx>)
        requires
            Idx::obeys_partial_cmp_spec(),
        ensures
            r == Self::start_exclusive_spec(start, end),
    {
        if start >= end {
            ContinuousRange::Empty
        } else {
            ContinuousRange::StartExclusive(start, end)
        }
    }

    /// `[start..end)`: empty where `start >= end`.
    pub fn end_exclusive(start: Idx, end: Idx) -> (r: ContinuousRange<Idx>)
        requires
            Idx::obeys_partial_cmp_spec(),
        ensures
            r == Self::end_exclusive_spec(start, end),
    {
        if start >= end {
            ContinuousRange::Empty
        } else {
            ContinuousRange::EndExclusive(start, end)
        }
    }

    /// Whether `value` lies in the range.
    pub fn contains(&self, value: &Idx) -> (r: bool)
        requires
            Idx::obeys_partial_cmp_spec(),
        ensures
            r == self.contains_spec(*value),
    {
        match self {
            ContinuousRange::Empty => false,
            ContinuousRange::Single(single_value) => matches!(value.partial_cmp(single_value), Some(Ordering::Equal)),
            ContinuousRange::Inclusive(start, end) => value >= start && value <= end,
            ContinuousRange::Exclusive(start, end) => value > start && value < end,
            ContinuousRange::StartExclusive(start, end) => value > start && value <= end,
            ContinuousRange::EndExclusive(start, end) => value >= start && value < end,
            ContinuousRange::From(start) => value >= start,
            ContinuousRange::FromExclusive(start) => value > start,
            ContinuousRange::To(end) => value <= end,
            ContinuousRange::ToExclusive(end) => value < end,
            ContinuousRange::Full => true,
        }
    }

    /// Whether the range holds no value: `Empty`, or bounds that leave no
    /// room between them.
    pub fn is_empty(&self) -> (r: bool)
        requires
            Idx::obeys_partial_cmp_spec(),
        ensures
            r == self.is_empty_spec(),
    {
        match self {
            ContinuousRange::Empty => true,
            ContinuousRange::Inclusive(start, end) => start > end,
            ContinuousRange::Exclusive(start, end)
            | ContinuousRange::StartExclusive(start, end)
            | ContinuousRange::EndExclusive(start, end) => start >= end,
            ContinuousRange::Single(_)
            | ContinuousRange::From(_)
            | ContinuousRange::FromExclusive(_)
            | ContinuousRange::To(_)
            | ContinuousRange::ToExclusive(_)
            | ContinuousRange::Full => false,
        }
    }

    /// The same range in normal form: equal bounds on an inclusive range give
    /// `Single`, bounds that leave no room give `Empty`.
    pub fn simplify(self) -> (r: Self)
        requires
            Idx::obeys_partial_cmp_spec(),
        ensures
            r == self.simplify_spec(),
    {
        match self {
            ContinuousRange::Inclusive(start, end) => Self::inclusive(start, end),
            ContinuousRange::Exclusive(start, end) => Self::exclusive(start, end),
            ContinuousRange::StartExclusive(start, end) => Self::start_exclusive(start, end),
            ContinuousRange::EndExclusive(start, end) => Self::end_exclusive(start, end),
            _ => self,
        }
    }

    /// How `self` relates to `other` in Allen's interval algebra. Two empty
    /// ranges are `Equal`; `None` where one of the two is empty and the other
    /// is not, or where the values of their bounds are not comparable.
    pub fn compare(&self, other: &ContinuousRange<Idx>) -> (r: Option<RangesRelation>)
        requires
            Idx::obeys_partial_cmp_spec(),
        ensures
            r == self.compare_spec(*other),
    {
        reveal(ContinuousRange::compare_spec);
        if self.is_empty() {
            return if other.is_empty() {
                Some(RangesRelation::Equal)
            } else {
                None
            };
        } else if other.is_empty() {
            return None;
        }
        let (self_start, self_end) = self.range_bounds().expect("a range that is not empty has bounds");
        let (other_start, other_end) = other.range_bounds().expect("a range that is not empty has bounds");
        proof {
            lemma_bound_cmp_shape(self.start(), other.end());
            lemma_bound_cmp_shape(self.end(), other.start());
            lemma_bound_cmp_shape(self.start(), other.start());
            lemma_bound_cmp_shape(self.end(), other.end());
        }

        let cmp_end_start = match partial_cmp_bounds(&self_end, BoundSide::End, &other_start, BoundSide::Start) {
            Some(c) => c,
            None => return None,
        };
        if cmp_end_start == BoundOrdering::Less {
            return Some(RangesRelation::StrictlyBefore);
        }
        if cmp_end_start == BoundOrdering::Meets {
            return Some(RangesRelation::Meets);
        }
        let cmp_start_end = match partial_cmp_bounds(&self_start, BoundSide::Start, &other_end, BoundSide::End) {
            Some(c) => c,
            None => return None,
        };
        if cmp_start_end == BoundOrdering::Greater {
            return Some(RangesRelation::StrictlyAfter);
        }
        if cmp_start_end == BoundOrdering::IsMet {
            return Some(RangesRelation::IsMet);
        }
        let cmp_start_start = match partial_cmp_bounds(&self_start, BoundSide::Start, &other_start, BoundSide::Start) {
            Some(c) => c,
            None => return None,
        };
        let cmp_end_end = match partial_cmp_bounds(&self_end, BoundSide::End, &other_end, BoundSide::End) {
            Some(c) => c,
            None => return None,
        };

        if cmp_start_start == BoundOrdering::Less
            && (cmp_end_start == BoundOrdering::Greater || cmp_end_start == BoundOrdering::Equal)
            && cmp_end_end == BoundOrdering::Less {
            return Some(RangesRelation::Overlaps);
        }
        if cmp_start_start == BoundOrdering::Greater
            && (cmp_start_end == BoundOrdering::Less || cmp_start_end == BoundOrdering::Equal)
            && cmp_end_end == BoundOrdering::Greater {
            return Some(RangesRelation::IsOverlapped);
        }
        if cmp_start_start == BoundOrdering::Equal && cmp_end_end == BoundOrdering::Less {
            return Some(RangesRelation::Starts);
        }
        if cmp_start_start == BoundOrdering::Equal && cmp_end_end == BoundOrdering::Greater {
            return Some(RangesRelation::IsStarted);
        }
        if cmp_start_start == BoundOrdering::Greater && cmp_end_end == BoundOrdering::Equal {
            return Some(RangesRelation::Finishes);
        }
        if cmp_start_start == BoundOrdering::Less && cmp_end_end == BoundOrdering::Equal {
            return Some(RangesRelation::IsFinished);
        }
        if cmp_start_start == BoundOrdering::Less && cmp_end_end == BoundOrdering::Greater {
            return Some(RangesRelation::StrictlyContains);
        }
        if cmp_start_start == BoundOrdering::Greater && cmp_end_end == BoundOrdering::Less {
            return Some(RangesRelation::IsStrictlyContained);
        }
        // Bounds on the same side never touch, so one of the cases above holds.
        Some(RangesRelation::Equal)
    }

    /// Whether `self` contains `other`: their relation is `Equal`,
    /// `StrictlyContains`, `IsStarted` or `IsFinished`.
    pub fn contains_range(&self, other: &ContinuousRange<Idx>) -> (r: bool)
        requires
            Idx::obeys_partial_cmp_spec(),
        ensures
            r == self.contains_range_spec(*other),
    {
        match self.compare(other) {
            Some(r) => r.contains(),
            None => false,
        }
    }

    /// Whether the two ranges are apart; ranges that cannot be compared count
    /// as apart.
    pub fn disjoint_from_range(&self, other: &ContinuousRange<Idx>) -> (r: bool)
        requires
            Idx::obeys_partial_cmp_spec(),
        ensures
            r == match self.compare_spec(*other) {
                Some(rel) => !rel.intersects_spec(),
                None => true,
            },
    {
        match self.compare(other) {
            Some(r) => r.disjoint(),
            None => true,
        }
    }

    /// Whether the two ranges share a point or touch. Two empty ranges do not.
    pub fn intersects(&self, other: &ContinuousRange<Idx>) -> (r: bool)
        requires
            Idx::obeys_partial_cmp_spec(),
        ensures
            r == self.intersects_spec(*other),
    {
        if self.is_empty() && other.is_empty() {
            false
        } else {
            match self.compare(other) {
                Some(relation) => relation.intersects(),
                None => false,
            }
        }
    }
}

} // verus!

verus! {

impl<Idx: PartialOrd + Copy> ContinuousRange<Idx> {
    /// The range with the given start and end bounds, normalized as the
    /// constructors do.
    pub fn from_bounds(bounds: (Bound<&Idx>, Bound<&Idx>)) -> (r: Self)
        requires
            Idx::obeys_partial_cmp_spec(),
        ensures
            r == Self::from_bounds_spec(bounds.0@, bounds.1@),
    {
        match bounds {
            (Bound::Unbounded, Bound::Unbounded) => Self::full(),
            (Bound::Included(start), Bound::Included(end)) => Self::inclusive(*start, *end),
            (Bound::Included(start), Bound::Excluded(end)) => Self::end_exclusive(*start, *end),
            (Bound::Included(start), Bound::Unbounded) => Self::from(*start),
            (Bound::Excluded(start), Bound::Included(end)) => Self::start_exclusive(*start, *end),
            (Bound::Excluded(start), Bound::Excluded(end)) => Self::exclusive(*start, *end),
            (Bound::Excluded(start), Bound::Unbounded) => Self::from_exclusive(*start),
            (Bound::Unbounded, Bound::Included(end)) => Self::to(*end),
            (Bound::Unbounded, Bound::Excluded(end)) => Self::to_exclusive(*end),
        }
    }

    /// The union of two ranges whose relation `cmp` is already known.
    pub(crate) fn union_knowing_cmp(&self, other: &ContinuousRange<Idx>, cmp: RangesRelation) -> (r: Option<
        ContinuousRange<Idx>,
    >)
        requires
            Idx::obeys_partial_cmp_spec(),
            self.compare_spec(*other) == Some(cmp),
        ensures
            r == self.union_knowing_spec(*other, cmp),
    {
        reveal(ContinuousRange::compare_spec);
        match cmp {
            RangesRelation::StrictlyBefore => None,
            RangesRelation::StrictlyAfter => None,
            RangesRelation::Meets | RangesRelation::Overlaps => {
                let start = self.start_bound().expect("a range that meets another has bounds");
                let end = other.end_bound().expect("a range that is met has bounds");
                Some(ContinuousRange::from_bounds((start, end)))
            },
            RangesRelation::IsMet | RangesRelation::IsOverlapped => {
                let end = self.end_bound().expect("a range that is met has bounds");
                let start = other.start_bound().expect("a range that meets another has bounds");
                Some(ContinuousRange::from_bounds((start, end)))
            },
            RangesRelation::Starts => Some(*other),
            RangesRelation::IsStarted => Some(*self),
            RangesRelation::StrictlyContains => Some(*self),
            RangesRelation::IsStrictlyContained => Some(*other),
            RangesRelation::Finishes => Some(*other),
            RangesRelation::IsFinished => Some(*self),
            RangesRelation::Equal => Some(*self),
        }
    }

    /// The range that both ranges make together. `Full` absorbs and `Empty`
    /// gives the other range back; `None` where the ranges are apart (no
    /// single continuous range holds both) or not comparable.
    pub fn union(&self, other: &ContinuousRange<Idx>) -> (r: Option<ContinuousRange<Idx>>)
        requires
            Idx::obeys_partial_cmp_spec(),
        ensures
            r == self.union_spec(*other),
    {
        if self.is_full() || other.is_full() {
            Some(ContinuousRange::Full)
        } else if self.is_empty() {
            Some(*other)
        } else if other.is_empty() {
            Some(*self)
        } else {
            match self.compare(other) {
                Some(cmp) => self.union_knowing_cmp(other, cmp),
                None => None,
            }
        }
    }

    /// The part that the two ranges share: empty where they are apart or not
    /// comparable, the common point where they touch.
    pub fn intersection(&self, other: &ContinuousRange<Idx>) -> (r: ContinuousRange<Idx>)
        requires
            Idx::obeys_partial_cmp_spec(),
        ensures
            r == self.intersection_spec(*other),
    {
        reveal(ContinuousRange::compare_spec);
        if self.is_empty() || other.is_empty() {
            ContinuousRange::Empty
        } else if self.is_full() {
            *other
        } else if other.is_full() {
            *self
        } else {
            match self.compare(other) {
                Some(cmp) => match cmp {
                    RangesRelation::StrictlyBefore => ContinuousRange::Empty,
                    RangesRelation::StrictlyAfter => ContinuousRange::Empty,
                    RangesRelation::Meets => {
                        let end = expect_bound(self.end_bound(), "a range that meets another ends on a value");
                        ContinuousRange::single(*end)
                    },
                    RangesRelation::IsMet => {
                        let start = expect_bound(self.start_bound(), "a range that is met starts on a value");
                        ContinuousRange::single(*start)
                    },
                    RangesRelation::Overlaps => {
                        let (_, end) = self.range_bounds().expect("an overlapping range has bounds");
                        let (start, _) = other.range_bounds().expect("an overlapped range has bounds");
                        ContinuousRange::from_bounds((start, end))
                    },
                    RangesRelation::IsOverlapped => {
                        let (start, _) = self.range_bounds().expect("an overlapped range has bounds");
                        let (_, end) = other.range_bounds().expect("an overlapping range has bounds");
                        ContinuousRange::from_bounds((start, end))
                    },
                    RangesRelation::Starts => *self,
                    RangesRelation::IsStarted => *other,
                    RangesRelation::StrictlyContains => *other,
                    RangesRelation::IsStrictlyContained => *self,
                    RangesRelation::Finishes => *self,
                    RangesRelation::IsFinished => *other,
                    RangesRelation::Equal => *self,
                },
                None => ContinuousRange::Empty,
            }
        }
    }

    /// What is left of `self` once `other` is taken out. `None` where `other`
    /// lies strictly inside `self` (two pieces would be left) or where the two
    /// are not comparable. Taking `Empty` out leaves `self`, and taking
    /// anything out of `Empty` gives `other` back.
    pub fn difference(&self, other: &ContinuousRange<Idx>) -> (r: Option<ContinuousRange<Idx>>)
        requires
            Idx::obeys_partial_cmp_spec(),
        ensures
            r == self.difference_spec(*other),
    {
        match (self, other) {
            (ContinuousRange::Empty, r) => Some(*r),
            (_, ContinuousRange::Empty) => Some(*self),
            _ => match self.compare(other) {
                Some(cmp) => match cmp {
                    RangesRelation::StrictlyBefore => Some(*self),
                    RangesRelation::StrictlyAfter => Some(*self),
                    RangesRelation::Equal => Some(ContinuousRange::Empty),
                    RangesRelation::IsStrictlyContained => Some(ContinuousRange::Empty),
                    RangesRelation::StrictlyContains => None,
                    RangesRelation::Meets | RangesRelation::Overlaps | RangesRelation::IsFinished => {
                        let start = self.start_bound().expect("an overlapping range has bounds");
                        let end = other.start_bound().expect("an overlapped range has bounds");
                        let end = reverse_bound(end);
                        Some(ContinuousRange::from_bounds((start, end)))
                    },
                    RangesRelation::IsMet | RangesRelation::IsOverlapped | RangesRelation::IsStarted => {
                        let end = self.end_bound().expect("an overlapped range has bounds");
                        let start = other.end_bound().expect("an overlapping range has bounds");
                        let start = reverse_bound(start);
                        Some(ContinuousRange::from_bounds((start, end)))
                    },
                    RangesRelation::Starts => Some(ContinuousRange::Empty),
                    RangesRelation::Finishes => Some(ContinuousRange::Empty),
                },
                None => None,
            },
        }
    }
}

impl<Idx> Default for ContinuousRange<Idx> {
    fn default() -> (r: Self)
        ensures
            r is Empty,
    {
        ContinuousRange::Empty
    }
}

} // verus!

verus! {


impl<Idx: PartialOrd> ContinuousRange<Idx> {
    /// A value lies in a range exactly when both of its bounds admit it.
    pub proof fn lemma_contains_by_bounds(self, value: Idx)
        requires
            is_total_order::<Idx>(),
        ensures
            self.contains_spec(value) <==> (self.start_spec() is Some && admits(self.start(), BoundSide::Start, value)
                && admits(self.end(), BoundSide::End, value)),
    {
    }

    /// A range that is not empty starts at or before its end, and its
    /// bounds compare with themselves as equal.
    pub proof fn lemma_not_empty_bounds(self)
        requires
            is_total_order::<Idx>(),
            !self.is_empty_spec(),
        ensures
            self.start_spec() is Some,
            at_or_before(self.start(), BoundSide::Start, self.end(), BoundSide::End),
            bound_cmp(self.start(), BoundSide::Start, self.start(), BoundSide::Start) == Some(BoundOrdering::Equal),
            bound_cmp(self.end(), BoundSide::End, self.end(), BoundSide::End) == Some(BoundOrdering::Equal),
    {
    }

    /// Normalizing keeps the values of a range.
    pub proof fn lemma_simplify_contains(self, value: Idx)
        requires
            is_total_order::<Idx>(),
        ensures
            self.simplify_spec().contains_spec(value) == self.contains_spec(value),
            self.simplify_spec().is_empty_spec() == self.is_empty_spec(),
            self.is_empty_spec() ==> !self.contains_spec(value),
    {
    }

    /// A value lies in a range built from bounds exactly when both bounds
    /// admit it.
    pub proof fn lemma_from_bounds_contains(start: Bound<Idx>, end: Bound<Idx>, value: Idx)
        requires
            is_total_order::<Idx>(),
        ensures
            Self::from_bounds_spec(start, end).contains_spec(value) == (admits(start, BoundSide::Start, value)
                && admits(end, BoundSide::End, value)),
    {
        match (start, end) {
            (Bound::Included(s), Bound::Included(e)) | (Bound::Included(s), Bound::Excluded(e))
            | (Bound::Excluded(s), Bound::Included(e)) | (Bound::Excluded(s), Bound::Excluded(e)) => {
                crate::order::lemma_trichotomy(s, e);
                crate::order::lemma_trichotomy(s, value);
                crate::order::lemma_trichotomy(e, value);
                if lt(s, value) && lt(value, e) {
                    assert(lt(s, e));
                }
                if lt(e, value) && lt(value, s) {
                    assert(lt(e, s));
                }
            },
            _ => {},
        }
    }

    /// A range built from bounds is in normal form.
    pub proof fn lemma_from_bounds_simplified(start: Bound<Idx>, end: Bound<Idx>)
        ensures
            Self::from_bounds_spec(start, end).simplify_spec() == Self::from_bounds_spec(start, end),
    {
    }

    /// A range built from a start that lies at or before its end is not
    /// empty and has those very bounds.
    pub proof fn lemma_from_bounds_exact(start: Bound<Idx>, end: Bound<Idx>)
        requires
            is_total_order::<Idx>(),
            at_or_before(start, BoundSide::Start, end, BoundSide::End),
        ensures
            !Self::from_bounds_spec(start, end).is_empty_spec(),
            Self::from_bounds_spec(start, end).start_spec() == Some(start),
            Self::from_bounds_spec(start, end).end_spec() == Some(end),
    {
    }
}

} // verus!

verus! {

/// Relies on `RangeInclusive::into_inner`: it hands back the start and the
/// end that the range was made of.
pub assume_specification<Idx>[ std::ops::RangeInclusive::<Idx>::into_inner ](
    r: std::ops::RangeInclusive<Idx>,
) -> (res: (Idx, Idx))
    ensures
        res.0 == r@.start,
        res.1 == r@.end,
;

impl<Idx: PartialOrd> From<std::ops::Range<Idx>> for ContinuousRange<Idx> {
    /// `start..end` is `[start..end)`, empty where `start >= end`.
    fn from(r: std::ops::Range<Idx>) -> Self {
        let std::ops::Range { start, end } = r;
        if start >= end {
            ContinuousRange::Empty
        } else {
            ContinuousRange::EndExclusive(start, end)
        }
    }
}

impl<Idx: PartialOrd> vstd::std_specs::convert::FromSpecImpl<std::ops::Range<Idx>> for ContinuousRange<Idx> {
    open spec fn obeys_from_spec() -> bool {
        Idx::obeys_partial_cmp_spec()
    }

    open spec fn from_spec(r: std::ops::Range<Idx>) -> Self {
        Self::end_exclusive_spec(r.start, r.end)
    }
}

impl<Idx: PartialOrd> From<std::ops::RangeInclusive<Idx>> for ContinuousRange<Idx> {
    /// `start..=end` is `[start..end]`, normalized as `inclusive` does.
    fn from(r: std::ops::RangeInclusive<Idx>) -> Self {
        let (start, end) = r.into_inner();
        match start.partial_cmp(&end) {
            Some(Ordering::Equal) => ContinuousRange::Single(start),
            Some(Ordering::Greater) => ContinuousRange::Empty,
            _ => ContinuousRange::Inclusive(start, end),
        }
    }
}

impl<Idx: PartialOrd> vstd::std_specs::convert::FromSpecImpl<std::ops::RangeInclusive<Idx>> for ContinuousRange<Idx> {
    open spec fn obeys_from_spec() -> bool {
        Idx::obeys_partial_cmp_spec()
    }

    open spec fn from_spec(r: std::ops::RangeInclusive<Idx>) -> Self {
        Self::inclusive_spec(r@.start, r@.end)
    }
}

impl<Idx> From<()> for ContinuousRange<Idx> {
    /// The unit value stands for the empty range.
    fn from(_unit: ()) -> Self {
        ContinuousRange::Empty
    }
}

impl<Idx> vstd::std_specs::convert::FromSpecImpl<()> for ContinuousRange<Idx> {
    open spec fn obeys_from_spec() -> bool {
        true
    }

    open spec fn from_spec(v: ()) -> Self {
        ContinuousRange::Empty
    }
}

/// `std::ops::RangeFull`, `..`; it holds nothing.
#[verifier::external_type_specification]
#[verifier::external_body]
pub struct ExRangeFull(std::ops::RangeFull);

/// `std::ops::RangeFrom`, `start..`, with its public field `start`.
#[verifier::external_type_specification]
#[verifier::reject_recursive_types(Idx)]
pub struct ExRangeFrom<Idx>(std::ops::RangeFrom<Idx>);

/// `std::ops::RangeTo`, `..end`, with its public field `end`.
#[verifier::external_type_specification]
#[verifier::reject_recursive_types(Idx)]
pub struct ExRangeTo<Idx>(std::ops::RangeTo<Idx>);

/// `std::ops::RangeToInclusive`, `..=end`, with its public field `end`.
#[verifier::external_type_specification]
#[verifier::reject_recursive_types(Idx)]
pub struct ExRangeToInclusive<Idx>(std::ops::RangeToInclusive<Idx>);

impl<Idx> From<std::ops::RangeFull> for ContinuousRange<Idx> {
    /// `..` holds every value.
    fn from(_r: std::ops::RangeFull) -> Self {
        ContinuousRange::Full
    }
}

impl<Idx> vstd::std_specs::convert::FromSpecImpl<std::ops::RangeFull> for ContinuousRange<Idx> {
    open spec fn obeys_from_spec() -> bool {
        true
    }

    open spec fn from_spec(r: std::ops::RangeFull) -> Self {
        ContinuousRange::Full
    }
}

impl<Idx> From<std::ops::RangeFrom<Idx>> for ContinuousRange<Idx> {
    /// `start..` is `[start..)`.
    fn from(r: std::ops::RangeFrom<Idx>) -> Self {
        ContinuousRange::From(r.start)
    }
}

impl<Idx> vstd::std_specs::convert::FromSpecImpl<std::ops::RangeFrom<Idx>> for ContinuousRange<Idx> {
    open spec fn obeys_from_spec() -> bool {
        true
    }

    open spec fn from_spec(r: std::ops::RangeFrom<Idx>) -> Self {
        ContinuousRange::From(r.start)
    }
}

impl<Idx> From<std::ops::RangeTo<Idx>> for ContinuousRange<Idx> {
    /// `..end` is `(..end)`.
    fn from(r: std::ops::RangeTo<Idx>) -> Self {
        ContinuousRange::ToExclusive(r.end)
    }
}

impl<Idx> vstd::std_specs::convert::FromSpecImpl<std::ops::RangeTo<Idx>> for ContinuousRange<Idx> {
    open spec fn obeys_from_spec() -> bool {
        true
    }

    open spec fn from_spec(r: std::ops::RangeTo<Idx>) -> Self {
        ContinuousRange::ToExclusive(r.end)
    }
}

impl<Idx> From<std::ops::RangeToInclusive<Idx>> for ContinuousRange<Idx> {
    /// `..=end` is `(..end]`.
    fn from(r: std::ops::RangeToInclusive<Idx>) -> Self {
        ContinuousRange::To(r.end)
    }
}

impl<Idx> vstd::std_specs::convert::FromSpecImpl<std::ops::RangeToInclusive<Idx>> for ContinuousRange<Idx> {
    open spec fn obeys_from_spec() -> bool {
        true
    }

    open spec fn from_spec(r: std::ops::RangeToInclusive<Idx>) -> Self {
        ContinuousRange::To(r.end)
    }
}

} // verus!
