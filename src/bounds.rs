//! Bounds of ranges and how two bounds compare, each at the side of a range it
//! stands for.

use std::cmp::Ordering;
use vstd::prelude::*;
use vstd::std_specs::cmp::PartialOrdSpec;

verus! {

/// Which end of a range a bound stands for.
#[derive(Clone, Copy, Debug, Hash, PartialEq, Eq, Structural)]
pub enum BoundSide {
    Start,
    End,
}

/// An end point of a range.
#[derive(Clone, Copy, Debug, Hash, PartialEq, Eq)]
pub enum Bound<T> {
    /// The value is part of the range.
    Included(T),
    /// The value is not part of the range.
    Excluded(T),
    /// The range goes on without end on this side.
    Unbounded,
}

impl<'a, T> View for Bound<&'a T> {
    type V = Bound<T>;

    open spec fn view(&self) -> Bound<T> {
        match *self {
            Bound::Included(x) => Bound::Included(*x),
            Bound::Excluded(x) => Bound::Excluded(*x),
            Bound::Unbounded => Bound::Unbounded,
        }
    }
}

/// The result of comparing two bounds.
///
/// The variants are declared in increasing order.
#[derive(Clone, Copy, Debug, Hash, PartialEq, Eq, PartialOrd, Ord, Structural)]
pub enum BoundOrdering {
    /// Less than the other bound, and touching it: an end and a start on the
    /// same value with no gap and no overlap between them.
    Meets,
    /// Less than the other bound.
    Less,
    /// Equal to the other bound.
    Equal,
    /// Greater than the other bound.
    Greater,
    /// Greater than the other bound, and touching it.
    IsMet,
}

pub open spec fn bound_ordering_of(o: Ordering) -> BoundOrdering {
    match o {
        Ordering::Less => BoundOrdering::Less,
        Ordering::Equal => BoundOrdering::Equal,
        Ordering::Greater => BoundOrdering::Greater,
    }
}

impl From<Ordering> for BoundOrdering {
    fn from(value: Ordering) -> Self {
        match value {
            Ordering::Less => BoundOrdering::Less,
            Ordering::Equal => BoundOrdering::Equal,
            Ordering::Greater => BoundOrdering::Greater,
        }
    }
}

impl vstd::std_specs::convert::FromSpecImpl<Ordering> for BoundOrdering {
    open spec fn obeys_from_spec() -> bool {
        true
    }

    open spec fn from_spec(v: Ordering) -> BoundOrdering {
        bound_ordering_of(v)
    }
}

pub open spec fn lift_ordering(o: Option<Ordering>) -> Option<BoundOrdering> {
    match o {
        Some(o) => Some(bound_ordering_of(o)),
        None => None,
    }
}

/// How two finite bounds on the same value compare.
///
/// Two included bounds coincide. On the same side, an included start comes
/// before an excluded one and an included end after an excluded one. An end
/// and a start touch unless both are excluded, in which case the value itself
/// is a gap between them.
pub open spec fn same_value_ordering(
    this_included: bool,
    this_side: BoundSide,
    other_included: bool,
    other_side: BoundSide,
) -> BoundOrdering {
    if this_included && other_included {
        BoundOrdering::Equal
    } else if this_side == other_side {
        if this_included == other_included {
            BoundOrdering::Equal
        } else if (this_side == BoundSide::Start) == this_included {
            BoundOrdering::Less
        } else {
            BoundOrdering::Greater
        }
    } else if this_side == BoundSide::End {
        if !this_included && !other_included {
            BoundOrdering::Less
        } else {
            BoundOrdering::Meets
        }
    } else {
        if !this_included && !other_included {
            BoundOrdering::Greater
        } else {
            BoundOrdering::IsMet
        }
    }
}

/// Compares two finite bounds from the ordering of their values.
pub open spec fn finite_bounds_ordering<T: PartialOrd>(
    this_value: T,
    this_included: bool,
    this_side: BoundSide,
    other_value: T,
    other_included: bool,
    other_side: BoundSide,
) -> Option<BoundOrdering> {
    match this_value.partial_cmp_spec(&other_value) {
        Some(Ordering::Equal) => Some(
            same_value_ordering(this_included, this_side, other_included, other_side),
        ),
        o => lift_ordering(o),
    }
}

/// The ordering of two bounds, each placed at the side of a range it stands
/// for: an unbounded start lies before every other bound, an unbounded end
/// after every other bound. `None` when the two values are not comparable.
pub open spec fn bound_cmp<T: PartialOrd>(
    this: Bound<T>,
    this_side: BoundSide,
    other: Bound<T>,
    other_side: BoundSide,
) -> Option<BoundOrdering> {
    match (this, other) {
        (Bound::Unbounded, Bound::Unbounded) => Some(
            if this_side == other_side {
                BoundOrdering::Equal
            } else if this_side == BoundSide::Start {
                BoundOrdering::Less
            } else {
                BoundOrdering::Greater
            },
        ),
        (Bound::Unbounded, _) => Some(
            if this_side == BoundSide::Start {
                BoundOrdering::Less
            } else {
                BoundOrdering::Greater
            },
        ),
        (_, Bound::Unbounded) => Some(
            if other_side == BoundSide::Start {
                BoundOrdering::Greater
            } else {
                BoundOrdering::Less
            },
        ),
        (Bound::Included(a), Bound::Included(b)) => finite_bounds_ordering(
            a, true, this_side, b, true, other_side),
        (Bound::Included(a), Bound::Excluded(b)) => finite_bounds_ordering(
            a, true, this_side, b, false, other_side),
        (Bound::Excluded(a), Bound::Included(b)) => finite_bounds_ordering(
            a, false, this_side, b, true, other_side),
        (Bound::Excluded(a), Bound::Excluded(b)) => finite_bounds_ordering(
            a, false, this_side, b, false, other_side),
    }
}

fn lift_cmp(o: Option<Ordering>) -> (r: Option<BoundOrdering>)
    ensures
        r == lift_ordering(o),
{
    match o {
        Some(o) => Some(BoundOrdering::from(o)),
        None => None,
    }
}

/// Compares the bounds of two ranges, each at the side it stands for.
pub fn partial_cmp_bounds<Idx: PartialOrd>(
    this: &Bound<&Idx>,
    this_side: BoundSide,
    other: &Bound<&Idx>,
    other_side: BoundSide,
) -> (r: Option<BoundOrdering>)
    requires
        Idx::obeys_partial_cmp_spec(),
    ensures
        r == bound_cmp(this@, this_side, other@, other_side),
{
    match *this {
        Bound::Included(this_value) => match *other {
            Bound::Included(other_value) => lift_cmp(this_value.partial_cmp(other_value)),
            Bound::Excluded(other_value) => match this_value.partial_cmp(other_value) {
                Some(Ordering::Equal) => match (this_side, other_side) {
                    (BoundSide::Start, BoundSide::Start) => Some(BoundOrdering::Less),
                    (BoundSide::End, BoundSide::End) => Some(BoundOrdering::Greater),
                    (BoundSide::Start, BoundSide::End) => Some(BoundOrdering::IsMet),
                    (BoundSide::End, BoundSide::Start) => Some(BoundOrdering::Meets),
                },
                o => lift_cmp(o),
            },
            Bound::Unbounded => match other_side {
                BoundSide::Start => Some(BoundOrdering::Greater),
                BoundSide::End => Some(BoundOrdering::Less),
            },
        },
        Bound::Excluded(this_value) => match *other {
            Bound::Included(other_value) => match this_value.partial_cmp(other_value) {
                Some(Ordering::Equal) => match (this_side, other_side) {
                    (BoundSide::Start, BoundSide::Start) => Some(BoundOrdering::Greater),
                    (BoundSide::End, BoundSide::End) => Some(BoundOrdering::Less),
                    (BoundSide::Start, BoundSide::End) => Some(BoundOrdering::IsMet),
                    (BoundSide::End, BoundSide::Start) => Some(BoundOrdering::Meets),
                },
                o => lift_cmp(o),
            },
            Bound::Excluded(other_value) => match this_value.partial_cmp(other_value) {
                Some(Ordering::Equal) => match (this_side, other_side) {
                    (BoundSide::Start, BoundSide::Start) => Some(BoundOrdering::Equal),
                    (BoundSide::End, BoundSide::End) => Some(BoundOrdering::Equal),
                    (BoundSide::Start, BoundSide::End) => Some(BoundOrdering::Greater),
                    (BoundSide::End, BoundSide::Start) => Some(BoundOrdering::Less),
                },
                o => lift_cmp(o),
            },
            Bound::Unbounded => match other_side {
                BoundSide::Start => Some(BoundOrdering::Greater),
                BoundSide::End => Some(BoundOrdering::Less),
            },
        },
        Bound::Unbounded => match *other {
            Bound::Included(_) | Bound::Excluded(_) => match this_side {
                BoundSide::Start => Some(BoundOrdering::Less),
                BoundSide::End => Some(BoundOrdering::Greater),
            },
            Bound::Unbounded => match (this_side, other_side) {
                (BoundSide::Start, BoundSide::Start) => Some(BoundOrdering::Equal),
                (BoundSide::End, BoundSide::End) => Some(BoundOrdering::Equal),
                (BoundSide::Start, BoundSide::End) => Some(BoundOrdering::Less),
                (BoundSide::End, BoundSide::Start) => Some(BoundOrdering::Greater),
            },
        },
    }
}

/// Whether a bound holds a value.
pub open spec fn is_finite<T>(b: Bound<T>) -> bool {
    !(b is Unbounded)
}

/// The value of a finite bound.
pub open spec fn bound_value<T>(b: Bound<T>) -> T
    recommends
        is_finite(b),
{
    match b {
        Bound::Included(x) => x,
        Bound::Excluded(x) => x,
        Bound::Unbounded => arbitrary(),
    }
}

/// The value of a bound that is known to be present and finite.
pub fn expect_bound<'a, Idx>(bound: Option<Bound<&'a Idx>>, _msg: &'static str) -> (r: &'a Idx)
    requires
        bound is Some,
        is_finite(bound.unwrap()@),
    ensures
        *r == bound_value(bound.unwrap()@),
{
    match bound {
        Some(Bound::Included(x)) => x,
        Some(Bound::Excluded(x)) => x,
        _ => {
            proof {
                assert(false);
            }
            unreached()
        },
    }
}

/// The same value with the other inclusivity; `Unbounded` stays as it is.
pub open spec fn reversed<T>(b: Bound<T>) -> Bound<T> {
    match b {
        Bound::Included(x) => Bound::Excluded(x),
        Bound::Excluded(x) => Bound::Included(x),
        Bound::Unbounded => Bound::Unbounded,
    }
}

/// Swaps a bound between [`Bound::Included`] and [`Bound::Excluded`].
///
/// [`Bound::Unbounded`] is kept as it is.
pub fn reverse_bound<Idx>(bound: Bound<&Idx>) -> (r: Bound<&Idx>)
    ensures
        r@ == reversed(bound@),
{
    match bound {
        Bound::Included(x) => Bound::Excluded(x),
        Bound::Excluded(x) => Bound::Included(x),
        Bound::Unbounded => Bound::Unbounded,
    }
}

} // verus!

verus! {

/// The values behind the references of an optional bound.
pub open spec fn opt_bound_view<'a, T>(o: Option<Bound<&'a T>>) -> Option<Bound<T>> {
    match o {
        Some(b) => Some(b@),
        None => None,
    }
}

/// The values behind the references of an optional pair of bounds.
pub open spec fn opt_bounds_view<'a, T>(o: Option<(Bound<&'a T>, Bound<&'a T>)>) -> Option<(Bound<T>, Bound<T>)> {
    match o {
        Some(p) => Some((p.0@, p.1@)),
        None => None,
    }
}

} // verus!
