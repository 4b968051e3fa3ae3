//! Laws that hold of ranges whose values are totally ordered.

use vstd::prelude::*;

use crate::bounds::{bound_cmp, bound_value, reversed, Bound, BoundOrdering, BoundSide};
use crate::continuous::ContinuousRange;
use crate::continuous::lemma_bound_cmp_shape;
use crate::order::{
    at_or_before, is_total_order, lemma_admits_monotone, lemma_admits_reversed, lemma_apart, lemma_bound_cmp_dual,
    lemma_bound_trans, lemma_no_gap, lemma_trichotomy,
};
use crate::relation::RangesRelation;
use crate::simplify::{
    covers, lemma_simplified_unique,
    lemma_strictly_before,
    is_simplified, lemma_nested_members, lemma_simplified_pairwise, lemma_starts_members, lemma_union_members,
};

verus! {

/// Every range that is not empty is `Equal` to itself; two empty ranges are
/// `Equal`; an empty range and one that is not are not comparable.
pub proof fn law_compare_reflexive<Idx: PartialOrd>(a: ContinuousRange<Idx>, b: ContinuousRange<Idx>)
    requires
        is_total_order::<Idx>(),
    ensures
        !a.is_empty_spec() ==> a.compare_spec(a) == Some(RangesRelation::Equal),
        a.is_empty_spec() && b.is_empty_spec() ==> a.compare_spec(b) == Some(RangesRelation::Equal),
        a.is_empty_spec() != b.is_empty_spec() ==> a.compare_spec(b) is None,
{
    reveal(ContinuousRange::compare_spec);
    if !a.is_empty_spec() {
        a.lemma_not_empty_bounds();
        lemma_bound_cmp_dual(a.start(), BoundSide::Start, a.end(), BoundSide::End);
    }
}

/// Comparing the other way round gives the inverse relation.
pub proof fn law_compare_symmetric<Idx: PartialOrd>(a: ContinuousRange<Idx>, b: ContinuousRange<Idx>)
    requires
        is_total_order::<Idx>(),
    ensures
        match a.compare_spec(b) {
            Some(r) => b.compare_spec(a) == Some(r.inverse()),
            None => b.compare_spec(a) is None,
        },
{
    reveal(ContinuousRange::compare_spec);
    if !a.is_empty_spec() && !b.is_empty_spec() {
        a.lemma_not_empty_bounds();
        b.lemma_not_empty_bounds();
        let (s1, e1, s2, e2) = (a.start(), a.end(), b.start(), b.end());
        lemma_bound_cmp_dual(e1, BoundSide::End, s2, BoundSide::Start);
        lemma_bound_cmp_dual(s1, BoundSide::Start, e2, BoundSide::End);
        lemma_bound_cmp_dual(s1, BoundSide::Start, s2, BoundSide::Start);
        lemma_bound_cmp_dual(e1, BoundSide::End, e2, BoundSide::End);
        // each range starts at or before its end: chain that with the comparisons across
        lemma_bound_trans(s1, BoundSide::Start, e1, BoundSide::End, s2, BoundSide::Start);
        lemma_bound_trans(s1, BoundSide::Start, s2, BoundSide::Start, e2, BoundSide::End);
        lemma_bound_trans(e1, BoundSide::End, s2, BoundSide::Start, e2, BoundSide::End);
        lemma_bound_trans(s2, BoundSide::Start, e2, BoundSide::End, s1, BoundSide::Start);
        lemma_bound_trans(s2, BoundSide::Start, s1, BoundSide::Start, e1, BoundSide::End);
        lemma_bound_trans(e2, BoundSide::End, s1, BoundSide::Start, e1, BoundSide::End);
        lemma_bound_cmp_shape(s1, e2);
        lemma_bound_cmp_shape(e1, s2);
        lemma_bound_cmp_shape(s2, e1);
        lemma_bound_cmp_shape(e2, s1);
        lemma_bound_cmp_shape(s1, s2);
        lemma_bound_cmp_shape(e1, e2);
    }
}

/// Whether two ranges intersect does not depend on their order.
pub proof fn law_intersects_symmetric<Idx: PartialOrd>(a: ContinuousRange<Idx>, b: ContinuousRange<Idx>)
    requires
        is_total_order::<Idx>(),
    ensures
        a.intersects_spec(b) == b.intersects_spec(a),
{
    law_compare_symmetric(a, b);
}

/// A range whose start lies at or before the start of another one, and whose
/// end lies at or after the end of that one, contains it.
pub proof fn lemma_contains_range_by_bounds<Idx: PartialOrd>(u: ContinuousRange<Idx>, a: ContinuousRange<Idx>)
    requires
        is_total_order::<Idx>(),
        !u.is_empty_spec(),
        !a.is_empty_spec(),
        at_or_before(u.start(), BoundSide::Start, a.start(), BoundSide::Start),
        at_or_before(a.end(), BoundSide::End, u.end(), BoundSide::End),
    ensures
        u.contains_range_spec(a),
{
    reveal(ContinuousRange::compare_spec);
    u.lemma_not_empty_bounds();
    a.lemma_not_empty_bounds();
    lemma_bound_trans(a.start(), BoundSide::Start, a.end(), BoundSide::End, u.end(), BoundSide::End);
    lemma_bound_trans(u.start(), BoundSide::Start, a.start(), BoundSide::Start, a.end(), BoundSide::End);
    lemma_bound_cmp_dual(a.start(), BoundSide::Start, u.end(), BoundSide::End);
    lemma_bound_cmp_dual(a.end(), BoundSide::End, u.end(), BoundSide::End);
    lemma_bound_cmp_shape(u.end(), a.start());
    lemma_bound_cmp_shape(u.start(), a.end());
    lemma_bound_cmp_shape(u.start(), a.start());
    lemma_bound_cmp_shape(u.end(), a.end());
}

/// Two ranges that meet or overlap lie inside the range from the start of
/// the first to the end of the second.
pub proof fn lemma_union_of_adjacent<Idx: PartialOrd>(a: ContinuousRange<Idx>, b: ContinuousRange<Idx>)
    requires
        is_total_order::<Idx>(),
        !a.is_empty_spec(),
        !b.is_empty_spec(),
        a.compare_spec(b) == Some(RangesRelation::Meets) || a.compare_spec(b) == Some(RangesRelation::Overlaps),
    ensures
        ContinuousRange::<Idx>::from_bounds_spec(a.start(), b.end()).contains_range_spec(a),
        ContinuousRange::<Idx>::from_bounds_spec(a.start(), b.end()).contains_range_spec(b),
{
    reveal(ContinuousRange::compare_spec);
    a.lemma_not_empty_bounds();
    b.lemma_not_empty_bounds();
    let (s1, e1, s2, e2) = (a.start(), a.end(), b.start(), b.end());
    lemma_bound_trans(s1, BoundSide::Start, e1, BoundSide::End, s2, BoundSide::Start);
    lemma_bound_trans(s1, BoundSide::Start, s2, BoundSide::Start, e2, BoundSide::End);
    lemma_bound_trans(e1, BoundSide::End, s2, BoundSide::Start, e2, BoundSide::End);
    ContinuousRange::<Idx>::lemma_from_bounds_exact(s1, e2);
    let u = ContinuousRange::<Idx>::from_bounds_spec(s1, e2);
    lemma_contains_range_by_bounds(u, a);
    lemma_contains_range_by_bounds(u, b);
}

/// Where two ranges make one range together, that range contains both.
pub proof fn law_union_contains_both<Idx: PartialOrd>(a: ContinuousRange<Idx>, b: ContinuousRange<Idx>)
    requires
        is_total_order::<Idx>(),
        a.is_empty_spec() == b.is_empty_spec(),
    ensures
        match a.union_spec(b) {
            Some(u) => u.contains_range_spec(a) && u.contains_range_spec(b),
            None => true,
        },
{
    law_compare_reflexive(a, a);
    law_compare_reflexive(b, b);
    law_compare_reflexive(b, a);
    law_compare_symmetric(a, b);
    if a.is_empty_spec() {
        assert(a.union_spec(b) == Some(b));
    } else {
        if a is Full || b is Full {
            let f = ContinuousRange::<Idx>::Full;
            a.lemma_not_empty_bounds();
            b.lemma_not_empty_bounds();
            lemma_contains_range_by_bounds(f, a);
            lemma_contains_range_by_bounds(f, b);
        } else if a.compare_spec(b) == Some(RangesRelation::Meets) || a.compare_spec(b) == Some(RangesRelation::Overlaps) {
            lemma_union_of_adjacent(a, b);
        } else if a.compare_spec(b) == Some(RangesRelation::IsMet) || a.compare_spec(b) == Some(RangesRelation::IsOverlapped) {
            lemma_union_of_adjacent(b, a);
        }
    }
}

/// Taking one range out of another fails exactly where the second lies
/// strictly inside the first, for ranges that are in normal form.
pub proof fn law_difference_fails_inside<Idx: PartialOrd>(a: ContinuousRange<Idx>, b: ContinuousRange<Idx>)
    requires
        is_total_order::<Idx>(),
        a is Empty || !a.is_empty_spec(),
        b is Empty || !b.is_empty_spec(),
    ensures
        (a.difference_spec(b) is None) == (a.compare_spec(b) == Some(RangesRelation::StrictlyContains)),
{
    reveal(ContinuousRange::compare_spec);
    law_compare_symmetric(a, b);
    if !(a is Empty) && !(b is Empty) {
        a.lemma_not_empty_bounds();
        b.lemma_not_empty_bounds();
        lemma_bound_cmp_dual(a.end(), BoundSide::End, b.start(), BoundSide::Start);
        lemma_bound_cmp_dual(a.start(), BoundSide::Start, b.end(), BoundSide::End);
        lemma_bound_cmp_dual(a.start(), BoundSide::Start, b.start(), BoundSide::Start);
        lemma_bound_cmp_dual(a.end(), BoundSide::End, b.end(), BoundSide::End);
        lemma_bound_cmp_shape(a.start(), b.start());
        lemma_bound_cmp_shape(a.end(), b.end());
    }
}

/// In canonical form, each range lies strictly before every later one, and
/// no two different ranges of the list intersect or touch.
pub proof fn law_simplified_apart<Idx: PartialOrd>(s: Seq<ContinuousRange<Idx>>, i: int, j: int)
    requires
        is_total_order::<Idx>(),
        is_simplified(s),
        0 <= i < s.len(),
        0 <= j < s.len(),
        i != j,
    ensures
        i < j ==> s[i].compare_spec(s[j]) == Some(RangesRelation::StrictlyBefore),
        !s[i].intersects_spec(s[j]),
{
    if i < j {
        lemma_simplified_pairwise(s, i, j);
    } else {
        lemma_simplified_pairwise(s, j, i);
    }
    law_compare_symmetric(s[i], s[j]);
}

/// Where two ranges make one range together, a value lies in that range
/// exactly when it lies in one of the two.
pub proof fn law_union_values<Idx: PartialOrd>(a: ContinuousRange<Idx>, b: ContinuousRange<Idx>, value: Idx)
    requires
        is_total_order::<Idx>(),
    ensures
        match a.union_spec(b) {
            Some(u) => u.contains_spec(value) == (a.contains_spec(value) || b.contains_spec(value)),
            None => true,
        },
{
    a.lemma_simplify_contains(value);
    b.lemma_simplify_contains(value);
    if !(a is Full || b is Full) && !a.is_empty_spec() && !b.is_empty_spec() {
        law_compare_symmetric(a, b);
        match a.compare_spec(b) {
            Some(RangesRelation::Meets) | Some(RangesRelation::Overlaps) => lemma_union_members(a, b, value),
            Some(RangesRelation::IsMet) | Some(RangesRelation::IsOverlapped) => lemma_union_members(b, a, value),
            Some(RangesRelation::Starts) => lemma_starts_members(a, b, value),
            Some(RangesRelation::IsStrictlyContained) | Some(RangesRelation::Finishes) => lemma_nested_members(
                b,
                a,
                value,
            ),
            Some(RangesRelation::IsStarted)
            | Some(RangesRelation::StrictlyContains)
            | Some(RangesRelation::IsFinished)
            | Some(RangesRelation::Equal) => lemma_nested_members(a, b, value),
            _ => {},
        }
    }
}

/// Where a range contains another by their relation, it holds every value of
/// the other one.
pub proof fn law_contains_range_values<Idx: PartialOrd>(a: ContinuousRange<Idx>, b: ContinuousRange<Idx>, value: Idx)
    requires
        is_total_order::<Idx>(),
        a.contains_range_spec(b),
    ensures
        b.contains_spec(value) ==> a.contains_spec(value),
{
    b.lemma_simplify_contains(value);
    law_compare_reflexive(a, b);
    if !a.is_empty_spec() && !b.is_empty_spec() {
        lemma_nested_members(a, b, value);
    }
}

/// Where `a` comes first and `b` ends at or after `a` with no gap before
/// it, cutting `a` at the start of `b` keeps exactly the values of `a` that
/// are not in `b`.
proof fn lemma_cut_at_start<Idx: PartialOrd>(a: ContinuousRange<Idx>, b: ContinuousRange<Idx>, value: Idx)
    requires
        is_total_order::<Idx>(),
        !a.is_empty_spec(),
        !b.is_empty_spec(),
        !(b.start() is Unbounded),
        bound_cmp(a.end(), BoundSide::End, b.start(), BoundSide::Start) != Some(BoundOrdering::Less),
        at_or_before(a.end(), BoundSide::End, b.end(), BoundSide::End),
    ensures
        ContinuousRange::<Idx>::from_bounds_spec(a.start(), reversed(b.start())).contains_spec(value) == (
        a.contains_spec(value) && !b.contains_spec(value)),
{
    ContinuousRange::<Idx>::lemma_from_bounds_contains(a.start(), reversed(b.start()), value);
    lemma_admits_reversed(b.start(), value);
    a.lemma_contains_by_bounds(value);
    b.lemma_contains_by_bounds(value);
    lemma_no_gap(a.end(), b.start(), value);
    lemma_admits_monotone(a.end(), b.end(), value);
}

/// Where `b` comes first and `a` starts at or after `b` with no gap after
/// it, cutting `a` at the end of `b` keeps exactly the values of `a` that are
/// not in `b`.
proof fn lemma_cut_at_end<Idx: PartialOrd>(a: ContinuousRange<Idx>, b: ContinuousRange<Idx>, value: Idx)
    requires
        is_total_order::<Idx>(),
        !a.is_empty_spec(),
        !b.is_empty_spec(),
        !(b.end() is Unbounded),
        bound_cmp(b.end(), BoundSide::End, a.start(), BoundSide::Start) != Some(BoundOrdering::Less),
        at_or_before(b.start(), BoundSide::Start, a.start(), BoundSide::Start),
    ensures
        ContinuousRange::<Idx>::from_bounds_spec(reversed(b.end()), a.end()).contains_spec(value) == (
        a.contains_spec(value) && !b.contains_spec(value)),
{
    ContinuousRange::<Idx>::lemma_from_bounds_contains(reversed(b.end()), a.end(), value);
    lemma_admits_reversed(b.end(), value);
    a.lemma_contains_by_bounds(value);
    b.lemma_contains_by_bounds(value);
    lemma_no_gap(b.end(), a.start(), value);
    lemma_admits_monotone(b.start(), a.start(), value);
}

/// Where `a` meets, overlaps or is finished by `b`, cutting `a` at the start
/// of `b` keeps exactly the values of `a` that are not in `b`.
proof fn lemma_difference_before<Idx: PartialOrd>(a: ContinuousRange<Idx>, b: ContinuousRange<Idx>, value: Idx)
    requires
        is_total_order::<Idx>(),
        a.compare_spec(b) matches Some(RangesRelation::Meets | RangesRelation::Overlaps | RangesRelation::IsFinished),
    ensures
        ContinuousRange::<Idx>::from_bounds_spec(a.start(), reversed(b.start())).contains_spec(value) == (
        a.contains_spec(value) && !b.contains_spec(value)),
{
    reveal(ContinuousRange::compare_spec);
    a.lemma_not_empty_bounds();
    b.lemma_not_empty_bounds();
    lemma_bound_trans(a.end(), BoundSide::End, b.start(), BoundSide::Start, b.end(), BoundSide::End);
    lemma_cut_at_start(a, b, value);
}

/// Where `a` is met, overlapped or started by `b`, cutting `a` at the end of
/// `b` keeps exactly the values of `a` that are not in `b`.
proof fn lemma_difference_after<Idx: PartialOrd>(a: ContinuousRange<Idx>, b: ContinuousRange<Idx>, value: Idx)
    requires
        is_total_order::<Idx>(),
        a.compare_spec(b) matches Some(RangesRelation::IsMet | RangesRelation::IsOverlapped | RangesRelation::IsStarted),
    ensures
        ContinuousRange::<Idx>::from_bounds_spec(reversed(b.end()), a.end()).contains_spec(value) == (
        a.contains_spec(value) && !b.contains_spec(value)),
{
    reveal(ContinuousRange::compare_spec);
    a.lemma_not_empty_bounds();
    b.lemma_not_empty_bounds();
    lemma_bound_cmp_dual(a.start(), BoundSide::Start, b.end(), BoundSide::End);
    lemma_bound_cmp_dual(a.start(), BoundSide::Start, b.start(), BoundSide::Start);
    lemma_bound_trans(b.start(), BoundSide::Start, b.end(), BoundSide::End, a.start(), BoundSide::Start);
    lemma_cut_at_end(a, b, value);
}

/// Where taking `b` out of a range `a` that is not empty gives a range, that
/// range holds exactly the values of `a` that are not in `b`.
pub proof fn law_difference_values<Idx: PartialOrd>(a: ContinuousRange<Idx>, b: ContinuousRange<Idx>, value: Idx)
    requires
        is_total_order::<Idx>(),
        !a.is_empty_spec(),
        b is Empty || !b.is_empty_spec(),
    ensures
        match a.difference_spec(b) {
            Some(d) => d.contains_spec(value) == (a.contains_spec(value) && !b.contains_spec(value)),
            None => true,
        },
{
    a.lemma_simplify_contains(value);
    b.lemma_simplify_contains(value);
    ContinuousRange::<Idx>::Empty.lemma_simplify_contains(value);
    if !(b is Empty) {
        law_compare_symmetric(a, b);
        lemma_compare_total(a, b);
        match a.compare_spec(b) {
            Some(RangesRelation::StrictlyBefore) => lemma_strictly_before_apart(a, b, value),
            Some(RangesRelation::StrictlyAfter) => lemma_strictly_before_apart(b, a, value),
            Some(RangesRelation::Meets) | Some(RangesRelation::Overlaps) | Some(RangesRelation::IsFinished) => {
                lemma_difference_before(a, b, value)
            },
            Some(RangesRelation::IsMet) | Some(RangesRelation::IsOverlapped) | Some(RangesRelation::IsStarted) => {
                lemma_difference_after(a, b, value)
            },
            Some(RangesRelation::Equal)
            | Some(RangesRelation::IsStrictlyContained)
            | Some(RangesRelation::Starts)
            | Some(RangesRelation::Finishes) => lemma_nested_members(b, a, value),
            _ => {},
        }
    }
}

/// Where two ranges do not merely touch, their intersection holds exactly
/// the values that lie in both. (Ranges that touch give the point where they
/// meet, which lies in only one of them.)
pub proof fn law_intersection_values<Idx: PartialOrd>(a: ContinuousRange<Idx>, b: ContinuousRange<Idx>, value: Idx)
    requires
        is_total_order::<Idx>(),
        !(a.compare_spec(b) matches Some(RangesRelation::Meets | RangesRelation::IsMet)),
    ensures
        a.intersection_spec(b).contains_spec(value) == (a.contains_spec(value) && b.contains_spec(value)),
{
    a.lemma_simplify_contains(value);
    b.lemma_simplify_contains(value);
    ContinuousRange::<Idx>::Empty.lemma_simplify_contains(value);
    if !a.is_empty_spec() && !b.is_empty_spec() && !(a is Full) && !(b is Full) {
        law_compare_symmetric(a, b);
        lemma_compare_total(a, b);
        match a.compare_spec(b) {
            Some(RangesRelation::StrictlyBefore) => lemma_strictly_before_apart(a, b, value),
            Some(RangesRelation::StrictlyAfter) => lemma_strictly_before_apart(b, a, value),
            Some(RangesRelation::Overlaps) => lemma_overlap_values(a, b, value),
            Some(RangesRelation::IsOverlapped) => lemma_overlap_values(b, a, value),
            Some(RangesRelation::Starts)
            | Some(RangesRelation::IsStrictlyContained)
            | Some(RangesRelation::Finishes)
            | Some(RangesRelation::Equal) => lemma_nested_members(b, a, value),
            Some(RangesRelation::IsStarted)
            | Some(RangesRelation::StrictlyContains)
            | Some(RangesRelation::IsFinished) => lemma_nested_members(a, b, value),
            _ => {},
        }
    }
}

/// Under a total order any two ranges that are not empty compare.
pub proof fn lemma_compare_total<Idx: PartialOrd>(a: ContinuousRange<Idx>, b: ContinuousRange<Idx>)
    requires
        is_total_order::<Idx>(),
        !a.is_empty_spec(),
        !b.is_empty_spec(),
    ensures
        a.compare_spec(b) is Some,
{
    reveal(ContinuousRange::compare_spec);
    a.lemma_not_empty_bounds();
    b.lemma_not_empty_bounds();
    lemma_bound_cmp_dual(a.end(), BoundSide::End, b.start(), BoundSide::Start);
    lemma_bound_cmp_dual(a.start(), BoundSide::Start, b.end(), BoundSide::End);
    lemma_bound_cmp_dual(a.start(), BoundSide::Start, b.start(), BoundSide::Start);
    lemma_bound_cmp_dual(a.end(), BoundSide::End, b.end(), BoundSide::End);
    lemma_bound_cmp_shape(a.start(), b.start());
    lemma_bound_cmp_shape(a.end(), b.end());
}

/// Ranges of which the first lies strictly before the second share no value.
proof fn lemma_strictly_before_apart<Idx: PartialOrd>(a: ContinuousRange<Idx>, b: ContinuousRange<Idx>, value: Idx)
    requires
        is_total_order::<Idx>(),
        a.compare_spec(b) == Some(RangesRelation::StrictlyBefore),
    ensures
        !(a.contains_spec(value) && b.contains_spec(value)),
{
    lemma_strictly_before(a, b);
    a.lemma_contains_by_bounds(value);
    b.lemma_contains_by_bounds(value);
    lemma_apart(a.end(), b.start(), value);
}

/// Where `a` overlaps `b`, the range from the start of `b` to the end of `a`
/// holds exactly their common values.
proof fn lemma_overlap_values<Idx: PartialOrd>(a: ContinuousRange<Idx>, b: ContinuousRange<Idx>, value: Idx)
    requires
        is_total_order::<Idx>(),
        a.compare_spec(b) == Some(RangesRelation::Overlaps),
    ensures
        ContinuousRange::<Idx>::from_bounds_spec(b.start(), a.end()).contains_spec(value) == (a.contains_spec(value)
            && b.contains_spec(value)),
{
    reveal(ContinuousRange::compare_spec);
    a.lemma_contains_by_bounds(value);
    b.lemma_contains_by_bounds(value);
    ContinuousRange::<Idx>::lemma_from_bounds_contains(b.start(), a.end(), value);
    lemma_admits_monotone(a.start(), b.start(), value);
    lemma_admits_monotone(a.end(), b.end(), value);
}

/// A value lies in a range exactly when the range reaches over the point
/// where that value stands as an included start; so lists that cover the
/// same points cover the same values.
pub proof fn law_values_as_points<Idx: PartialOrd>(r: ContinuousRange<Idx>, value: Idx)
    requires
        is_total_order::<Idx>(),
    ensures
        r.holds_point((Bound::Included(value), BoundSide::Start)) == r.contains_spec(value),
{
    r.lemma_contains_by_bounds(value);
    r.lemma_simplify_contains(value);
    if !r.is_empty_spec() {
        r.lemma_not_empty_bounds();
        lemma_trichotomy(bound_value(r.start()), value);
        lemma_trichotomy(value, bound_value(r.end()));
    }
}

/// A list in canonical form is fixed by the points it covers: two canonical
/// lists that cover the same points are the same list. So the result of
/// reducing a list is the one canonical list that covers its points.
pub proof fn law_simplified_unique<Idx: PartialOrd>(s: Seq<ContinuousRange<Idx>>, t: Seq<ContinuousRange<Idx>>)
    requires
        is_total_order::<Idx>(),
        is_simplified(s),
        is_simplified(t),
        forall|p: (Bound<Idx>, BoundSide)| covers(s, p) == covers(t, p),
    ensures
        s == t,
{
    lemma_simplified_unique(s, t);
}

} // verus!
