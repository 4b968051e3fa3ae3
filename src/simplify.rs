//! Reduction of a list of ranges to canonical form.

use vstd::prelude::*;

use vstd::std_specs::cmp::PartialOrdSpec;

use crate::bounds::{bound_cmp, partial_cmp_bounds, reversed, Bound, BoundOrdering, BoundSide};
use crate::continuous::{lemma_bound_cmp_shape, ContinuousRange};
use crate::order::{
    admits, at_or_before, before, is_total_order, lemma_admits_monotone, lemma_bound_cmp_dual, lemma_bound_trans,
    lemma_bound_antisymmetric, lemma_no_gap, lemma_no_gap_point, lemma_point_after_end,
};
use crate::relation::RangesRelation;

verus! {

/// A list of ranges in canonical form: every range is in normal form and not
/// empty, and each range lies strictly before the next one, with a gap
/// between them.
pub open spec fn is_simplified<Idx: PartialOrd>(s: Seq<ContinuousRange<Idx>>) -> bool {
    &&& forall|i: int| 0 <= i < s.len() ==> !(#[trigger] s[i]).is_empty_spec() && s[i].simplify_spec() == s[i]
    &&& forall|i: int|
        0 <= i < s.len() - 1 ==> (#[trigger] s[i]).compare_spec(s[i + 1]) == Some(RangesRelation::StrictlyBefore)
}

/// Some range of the list reaches over the point `p` (see
/// [`ContinuousRange::holds_point`]).
pub open spec fn covers<Idx: PartialOrd>(s: Seq<ContinuousRange<Idx>>, p: (Bound<Idx>, BoundSide)) -> bool {
    exists|i: int| 0 <= i < s.len() && (#[trigger] s[i]).holds_point(p)
}

/// The starts of the ranges never decrease along the list.
pub open spec fn sorted_by_start<Idx: PartialOrd>(s: Seq<ContinuousRange<Idx>>) -> bool {
    forall|i: int, j: int|
        0 <= i < j < s.len() ==> at_or_before(
            (#[trigger] s[i]).start(),
            BoundSide::Start,
            (#[trigger] s[j]).start(),
            BoundSide::Start,
        )
}

/// `a` lies strictly before `b` exactly when neither is empty and the end of
/// `a` lies before the start of `b` with a gap.
pub proof fn lemma_strictly_before<Idx: PartialOrd>(a: ContinuousRange<Idx>, b: ContinuousRange<Idx>)
    ensures
        (a.compare_spec(b) == Some(RangesRelation::StrictlyBefore)) == (!a.is_empty_spec() && !b.is_empty_spec()
            && bound_cmp(a.end(), BoundSide::End, b.start(), BoundSide::Start) == Some(BoundOrdering::Less)),
{
    reveal(ContinuousRange::compare_spec);
}

/// Lying strictly before is transitive, and a range that lies strictly
/// before another starts before it.
pub proof fn lemma_strictly_before_trans<Idx: PartialOrd>(
    a: ContinuousRange<Idx>,
    b: ContinuousRange<Idx>,
    c: ContinuousRange<Idx>,
)
    requires
        is_total_order::<Idx>(),
        a.compare_spec(b) == Some(RangesRelation::StrictlyBefore),
        b.compare_spec(c) == Some(RangesRelation::StrictlyBefore),
    ensures
        a.compare_spec(c) == Some(RangesRelation::StrictlyBefore),
{
    lemma_strictly_before(a, b);
    lemma_strictly_before(b, c);
    lemma_strictly_before(a, c);
    b.lemma_not_empty_bounds();
    lemma_bound_trans(a.end(), BoundSide::End, b.start(), BoundSide::Start, b.end(), BoundSide::End);
    lemma_bound_trans(a.end(), BoundSide::End, b.end(), BoundSide::End, c.start(), BoundSide::Start);
    lemma_bound_cmp_dual(a.end(), BoundSide::End, c.start(), BoundSide::Start);
}

/// A range that lies strictly before another starts before it.
pub proof fn lemma_strictly_before_starts_before<Idx: PartialOrd>(a: ContinuousRange<Idx>, b: ContinuousRange<Idx>)
    requires
        is_total_order::<Idx>(),
        a.compare_spec(b) == Some(RangesRelation::StrictlyBefore),
    ensures
        before(a.start(), BoundSide::Start, b.start(), BoundSide::Start),
{
    lemma_strictly_before(a, b);
    a.lemma_not_empty_bounds();
    lemma_bound_trans(a.start(), BoundSide::Start, a.end(), BoundSide::End, b.start(), BoundSide::Start);
    lemma_bound_cmp_shape(a.start(), b.start());
}

/// Two starts that compare as equal are the same bound.
pub proof fn lemma_equal_starts<T: PartialOrd>(x: Bound<T>, y: Bound<T>)
    requires
        is_total_order::<T>(),
        bound_cmp(x, BoundSide::Start, y, BoundSide::Start) == Some(BoundOrdering::Equal),
    ensures
        x == y,
{
}

/// Two ends that compare as equal are the same bound.
pub proof fn lemma_equal_ends<T: PartialOrd>(x: Bound<T>, y: Bound<T>)
    requires
        is_total_order::<T>(),
        bound_cmp(x, BoundSide::End, y, BoundSide::End) == Some(BoundOrdering::Equal),
    ensures
        x == y,
{
}

/// A bound never lies strictly before itself.
pub proof fn lemma_not_before_itself<T: PartialOrd>(x: Bound<T>, side: BoundSide)
    requires
        is_total_order::<T>(),
    ensures
        bound_cmp(x, side, x, side) == Some(BoundOrdering::Equal),
{
    match x {
        Bound::Included(v) => assert(v.partial_cmp_spec(&v) is Some),
        Bound::Excluded(v) => assert(v.partial_cmp_spec(&v) is Some),
        Bound::Unbounded => {},
    }
}

/// A range that starts at or before another one can only stand before it,
/// meet or overlap it, start with it, or contain it.
pub proof fn lemma_relation_when_starts_first<Idx: PartialOrd>(a: ContinuousRange<Idx>, b: ContinuousRange<Idx>)
    requires
        is_total_order::<Idx>(),
        !a.is_empty_spec(),
        !b.is_empty_spec(),
        at_or_before(a.start(), BoundSide::Start, b.start(), BoundSide::Start),
    ensures
        a.compare_spec(b) matches Some(
            RangesRelation::StrictlyBefore
            | RangesRelation::Meets
            | RangesRelation::Overlaps
            | RangesRelation::Starts
            | RangesRelation::IsStarted
            | RangesRelation::StrictlyContains
            | RangesRelation::IsFinished
            | RangesRelation::Equal,
        ),
{
    reveal(ContinuousRange::compare_spec);
    a.lemma_not_empty_bounds();
    b.lemma_not_empty_bounds();
    lemma_bound_trans(a.start(), BoundSide::Start, b.start(), BoundSide::Start, b.end(), BoundSide::End);
    lemma_bound_cmp_dual(a.end(), BoundSide::End, b.start(), BoundSide::Start);
    lemma_bound_cmp_dual(a.start(), BoundSide::Start, b.end(), BoundSide::End);
    lemma_bound_cmp_dual(a.end(), BoundSide::End, b.end(), BoundSide::End);
    lemma_bound_cmp_dual(a.start(), BoundSide::Start, b.start(), BoundSide::Start);
    lemma_bound_cmp_shape(a.start(), b.start());
    lemma_bound_cmp_shape(a.end(), b.end());
    lemma_bound_cmp_shape(a.start(), b.end());
    lemma_bound_cmp_shape(a.end(), b.start());
}

/// Two ranges that meet or overlap make together the range from the start of
/// the first to the end of the second: it holds exactly their values, and it
/// starts where the first one does.
pub proof fn lemma_union_members<Idx: PartialOrd>(a: ContinuousRange<Idx>, b: ContinuousRange<Idx>, value: Idx)
    requires
        is_total_order::<Idx>(),
        a.compare_spec(b) == Some(RangesRelation::Meets) || a.compare_spec(b) == Some(RangesRelation::Overlaps),
    ensures
        !ContinuousRange::<Idx>::from_bounds_spec(a.start(), b.end()).is_empty_spec(),
        ContinuousRange::<Idx>::from_bounds_spec(a.start(), b.end()).start_spec() == Some(a.start()),
        ContinuousRange::<Idx>::from_bounds_spec(a.start(), b.end()).simplify_spec()
            == ContinuousRange::<Idx>::from_bounds_spec(a.start(), b.end()),
        ContinuousRange::<Idx>::from_bounds_spec(a.start(), b.end()).contains_spec(value) == (a.contains_spec(value)
            || b.contains_spec(value)),
{
    reveal(ContinuousRange::compare_spec);
    a.lemma_not_empty_bounds();
    b.lemma_not_empty_bounds();
    let (s1, e1, s2, e2) = (a.start(), a.end(), b.start(), b.end());
    lemma_bound_trans(s1, BoundSide::Start, e1, BoundSide::End, s2, BoundSide::Start);
    lemma_bound_trans(s1, BoundSide::Start, s2, BoundSide::Start, e2, BoundSide::End);
    lemma_bound_trans(e1, BoundSide::End, s2, BoundSide::Start, e2, BoundSide::End);
    ContinuousRange::<Idx>::lemma_from_bounds_exact(s1, e2);
    ContinuousRange::<Idx>::lemma_from_bounds_simplified(s1, e2);
    let u = ContinuousRange::<Idx>::from_bounds_spec(s1, e2);
    u.lemma_contains_by_bounds(value);
    a.lemma_contains_by_bounds(value);
    b.lemma_contains_by_bounds(value);
    lemma_admits_monotone(s1, s2, value);
    lemma_admits_monotone(e1, e2, value);
    lemma_no_gap(e1, s2, value);
}

/// Where `a` contains `b` by their relation, every value of `b` lies in `a`.
pub proof fn lemma_nested_members<Idx: PartialOrd>(a: ContinuousRange<Idx>, b: ContinuousRange<Idx>, value: Idx)
    requires
        is_total_order::<Idx>(),
        !a.is_empty_spec(),
        !b.is_empty_spec(),
        a.compare_spec(b) matches Some(
            RangesRelation::IsStarted
            | RangesRelation::StrictlyContains
            | RangesRelation::IsFinished
            | RangesRelation::Equal,
        ),
    ensures
        b.contains_spec(value) ==> a.contains_spec(value),
{
    reveal(ContinuousRange::compare_spec);
    a.lemma_contains_by_bounds(value);
    b.lemma_contains_by_bounds(value);
    lemma_bound_cmp_dual(a.end(), BoundSide::End, b.end(), BoundSide::End);
    lemma_admits_monotone(a.start(), b.start(), value);
    lemma_admits_monotone(b.end(), a.end(), value);
}

/// Where `a` starts `b`, the two start on the same bound.
pub proof fn lemma_starts_same_start<Idx: PartialOrd>(a: ContinuousRange<Idx>, b: ContinuousRange<Idx>)
    requires
        is_total_order::<Idx>(),
        a.compare_spec(b) == Some(RangesRelation::Starts),
    ensures
        a.start() == b.start(),
{
    reveal(ContinuousRange::compare_spec);
    lemma_equal_starts(a.start(), b.start());
}

/// Where `a` starts `b`, the two start on the same bound and every value of
/// `a` lies in `b`.
pub proof fn lemma_starts_members<Idx: PartialOrd>(a: ContinuousRange<Idx>, b: ContinuousRange<Idx>, value: Idx)
    requires
        is_total_order::<Idx>(),
        !a.is_empty_spec(),
        !b.is_empty_spec(),
        a.compare_spec(b) == Some(RangesRelation::Starts),
    ensures
        a.start() == b.start(),
        a.contains_spec(value) ==> b.contains_spec(value),
{
    reveal(ContinuousRange::compare_spec);
    lemma_equal_starts(a.start(), b.start());
    a.lemma_contains_by_bounds(value);
    b.lemma_contains_by_bounds(value);
    lemma_admits_monotone(a.end(), b.end(), value);
}

impl<Idx: PartialOrd> ContinuousRange<Idx> {
    /// Whether the range reaches over the point where bound `p.0` stands at
    /// side `p.1`: it is not empty, it starts at or before that point, and it
    /// ends at or after it. Points tell apart what values alone do not: the
    /// ends of the order, and a bound that includes a value from one that
    /// excludes it.
    pub open spec fn holds_point(self, p: (Bound<Idx>, BoundSide)) -> bool {
        &&& !self.is_empty_spec()
        &&& at_or_before(self.start(), BoundSide::Start, p.0, p.1)
        &&& at_or_before(p.0, p.1, self.end(), BoundSide::End)
    }
}

/// Normalizing keeps the points of a range.
pub proof fn lemma_simplify_points<Idx: PartialOrd>(r: ContinuousRange<Idx>, p: (Bound<Idx>, BoundSide))
    requires
        is_total_order::<Idx>(),
    ensures
        r.simplify_spec().holds_point(p) == r.holds_point(p),
{
    match r {
        ContinuousRange::Inclusive(s, e) => crate::order::lemma_trichotomy(s, e),
        _ => {},
    }
}

/// Two ranges that meet or overlap make together a range that reaches over
/// exactly their points.
pub proof fn lemma_union_points<Idx: PartialOrd>(
    a: ContinuousRange<Idx>,
    b: ContinuousRange<Idx>,
    p: (Bound<Idx>, BoundSide),
)
    requires
        is_total_order::<Idx>(),
        a.compare_spec(b) == Some(RangesRelation::Meets) || a.compare_spec(b) == Some(RangesRelation::Overlaps),
    ensures
        ContinuousRange::<Idx>::from_bounds_spec(a.start(), b.end()).holds_point(p) == (a.holds_point(p)
            || b.holds_point(p)),
{
    reveal(ContinuousRange::compare_spec);
    a.lemma_not_empty_bounds();
    b.lemma_not_empty_bounds();
    let (s1, e1, s2, e2) = (a.start(), a.end(), b.start(), b.end());
    let (st, en) = (BoundSide::Start, BoundSide::End);
    lemma_bound_trans(s1, st, e1, en, s2, st);
    lemma_bound_trans(e1, en, s2, st, e2, en);
    lemma_bound_trans(s1, st, s2, st, e2, en);
    ContinuousRange::<Idx>::lemma_from_bounds_exact(s1, e2);
    lemma_bound_trans(p.0, p.1, e1, en, e2, en);
    lemma_bound_trans(s1, st, s2, st, p.0, p.1);
    lemma_no_gap_point(e1, s2, p.0, p.1);
}

/// Where `a` contains `b` by their relation, `a` reaches over every point of
/// `b`.
pub proof fn lemma_nested_points<Idx: PartialOrd>(
    a: ContinuousRange<Idx>,
    b: ContinuousRange<Idx>,
    p: (Bound<Idx>, BoundSide),
)
    requires
        is_total_order::<Idx>(),
        a.compare_spec(b) matches Some(
            RangesRelation::IsStarted
            | RangesRelation::StrictlyContains
            | RangesRelation::IsFinished
            | RangesRelation::Equal,
        ),
    ensures
        b.holds_point(p) ==> a.holds_point(p),
{
    reveal(ContinuousRange::compare_spec);
    lemma_bound_cmp_dual(a.end(), BoundSide::End, b.end(), BoundSide::End);
    lemma_bound_trans(a.start(), BoundSide::Start, b.start(), BoundSide::Start, p.0, p.1);
    lemma_bound_trans(p.0, p.1, b.end(), BoundSide::End, a.end(), BoundSide::End);
}

/// Where `a` starts `b`, `b` reaches over every point of `a`.
pub proof fn lemma_starts_points<Idx: PartialOrd>(
    a: ContinuousRange<Idx>,
    b: ContinuousRange<Idx>,
    p: (Bound<Idx>, BoundSide),
)
    requires
        is_total_order::<Idx>(),
        a.compare_spec(b) == Some(RangesRelation::Starts),
    ensures
        a.holds_point(p) ==> b.holds_point(p),
{
    reveal(ContinuousRange::compare_spec);
    lemma_equal_starts(a.start(), b.start());
    lemma_bound_trans(p.0, p.1, a.end(), BoundSide::End, b.end(), BoundSide::End);
}

/// In canonical form every range lies strictly before every later one.
pub proof fn lemma_simplified_pairwise<Idx: PartialOrd>(s: Seq<ContinuousRange<Idx>>, i: int, j: int)
    requires
        is_total_order::<Idx>(),
        is_simplified(s),
        0 <= i < j < s.len(),
    ensures
        s[i].compare_spec(s[j]) == Some(RangesRelation::StrictlyBefore),
    decreases j - i,
{
    if j > i + 1 {
        lemma_simplified_pairwise(s, i, j - 1);
        lemma_strictly_before_trans(s[i], s[j - 1], s[j]);
    }
}

/// A list in canonical form is sorted by start.
pub proof fn lemma_simplified_sorted<Idx: PartialOrd>(s: Seq<ContinuousRange<Idx>>)
    requires
        is_total_order::<Idx>(),
        is_simplified(s),
    ensures
        sorted_by_start(s),
{
    assert forall|i: int, j: int| 0 <= i < j < s.len() implies at_or_before(
        (#[trigger] s[i]).start(),
        BoundSide::Start,
        (#[trigger] s[j]).start(),
        BoundSide::Start,
    ) by {
        lemma_simplified_pairwise(s, i, j);
        lemma_strictly_before_starts_before(s[i], s[j]);
    }
}

/// In canonical form `Full` stands alone.
pub proof fn lemma_full_alone<Idx: PartialOrd>(s: Seq<ContinuousRange<Idx>>, i: int)
    requires
        is_simplified(s),
        0 <= i < s.len(),
        s[i] is Full,
    ensures
        s.len() == 1,
{
    if i > 0 {
        lemma_strictly_before(s[i - 1], s[i]);
    }
    if i + 1 < s.len() {
        lemma_strictly_before(s[i], s[i + 1]);
    }
}

/// Two ranges in normal form, not empty, with the same bounds are the same
/// range.
pub proof fn lemma_same_bounds_same_range<Idx: PartialOrd>(a: ContinuousRange<Idx>, b: ContinuousRange<Idx>)
    requires
        is_total_order::<Idx>(),
        !a.is_empty_spec(),
        !b.is_empty_spec(),
        a.simplify_spec() == a,
        b.simplify_spec() == b,
        a.start() == b.start(),
        a.end() == b.end(),
    ensures
        a == b,
{
    match a {
        ContinuousRange::Inclusive(s, e) => crate::order::lemma_trichotomy(s, e),
        _ => {},
    }
    match b {
        ContinuousRange::Inclusive(s, e) => crate::order::lemma_trichotomy(s, e),
        _ => {},
    }
}

/// A range that is not empty reaches over its own start and end.
proof fn lemma_holds_own_bounds<Idx: PartialOrd>(a: ContinuousRange<Idx>)
    requires
        is_total_order::<Idx>(),
        !a.is_empty_spec(),
    ensures
        a.holds_point((a.start(), BoundSide::Start)),
        a.holds_point((a.end(), BoundSide::End)),
{
    a.lemma_not_empty_bounds();
}

/// In canonical form, the points of the first range are the points of the
/// list that the rest of the list does not reach over.
proof fn lemma_cover_rest<Idx: PartialOrd>(s: Seq<ContinuousRange<Idx>>, p: (Bound<Idx>, BoundSide))
    requires
        is_total_order::<Idx>(),
        is_simplified(s),
        s.len() > 0,
    ensures
        covers(s.skip(1), p) == (covers(s, p) && !s[0].holds_point(p)),
{
    if covers(s.skip(1), p) {
        let k = choose|k: int| 0 <= k < s.skip(1).len() && (#[trigger] s.skip(1)[k]).holds_point(p);
        assert(s[k + 1] == s.skip(1)[k]);
        if s[0].holds_point(p) {
            lemma_simplified_pairwise(s, 0, k + 1);
            lemma_strictly_before(s[0], s[k + 1]);
            lemma_bound_trans(s[k + 1].start(), BoundSide::Start, p.0, p.1, s[0].end(), BoundSide::End);
            lemma_bound_cmp_dual(s[0].end(), BoundSide::End, s[k + 1].start(), BoundSide::Start);
        }
    }
    if covers(s, p) && !s[0].holds_point(p) {
        let k = choose|k: int| 0 <= k < s.len() && (#[trigger] s[k]).holds_point(p);
        assert(s.skip(1)[k - 1] == s[k]);
    }
}

/// Of two canonical lists that cover the same points, the second starts at
/// or before the first.
proof fn lemma_first_start<Idx: PartialOrd>(s: Seq<ContinuousRange<Idx>>, t: Seq<ContinuousRange<Idx>>)
    requires
        is_total_order::<Idx>(),
        is_simplified(s),
        is_simplified(t),
        s.len() > 0,
        forall|p: (Bound<Idx>, BoundSide)| covers(s, p) == covers(t, p),
    ensures
        t.len() > 0,
        at_or_before(t[0].start(), BoundSide::Start, s[0].start(), BoundSide::Start),
{
    let p = (s[0].start(), BoundSide::Start);
    lemma_holds_own_bounds(s[0]);
    assert(covers(s, p));
    let j = choose|j: int| 0 <= j < t.len() && (#[trigger] t[j]).holds_point(p);
    if j > 0 {
        lemma_simplified_pairwise(t, 0, j);
        lemma_strictly_before_starts_before(t[0], t[j]);
        lemma_bound_trans(t[0].start(), BoundSide::Start, t[j].start(), BoundSide::Start, p.0, p.1);
    }
}

/// Of two canonical lists that cover the same points and whose first ranges
/// start together, the first range of the first list does not end before
/// that of the second.
proof fn lemma_first_end<Idx: PartialOrd>(s: Seq<ContinuousRange<Idx>>, t: Seq<ContinuousRange<Idx>>)
    requires
        is_total_order::<Idx>(),
        is_simplified(s),
        is_simplified(t),
        s.len() > 0,
        t.len() > 0,
        s[0].start() == t[0].start(),
        forall|p: (Bound<Idx>, BoundSide)| covers(s, p) == covers(t, p),
    ensures
        bound_cmp(s[0].end(), BoundSide::End, t[0].end(), BoundSide::End) != Some(BoundOrdering::Less),
{
    let (a, b) = (s[0], t[0]);
    if bound_cmp(a.end(), BoundSide::End, b.end(), BoundSide::End) == Some(BoundOrdering::Less) {
        a.lemma_not_empty_bounds();
        lemma_point_after_end(a.end(), b.end(), a.end());
        let q = (reversed(a.end()), BoundSide::Start);
        lemma_bound_trans(a.start(), BoundSide::Start, a.end(), BoundSide::End, q.0, q.1);
        assert(b.holds_point(q));
        assert(covers(t, q));
        let k = choose|k: int| 0 <= k < s.len() && (#[trigger] s[k]).holds_point(q);
        if k > 0 {
            lemma_simplified_pairwise(s, 0, k);
            lemma_strictly_before(a, s[k]);
            lemma_point_after_end(a.end(), b.end(), s[k].start());
        }
    }
}

/// Two canonical lists that cover the same points are the same list.
pub proof fn lemma_simplified_unique<Idx: PartialOrd>(s: Seq<ContinuousRange<Idx>>, t: Seq<ContinuousRange<Idx>>)
    requires
        is_total_order::<Idx>(),
        is_simplified(s),
        is_simplified(t),
        forall|p: (Bound<Idx>, BoundSide)| covers(s, p) == covers(t, p),
    ensures
        s == t,
    decreases s.len(),
{
    if s.len() == 0 {
        if t.len() > 0 {
            lemma_first_start(t, s);
        }
        assert(s =~= t);
    } else {
        lemma_first_start(s, t);
        lemma_first_start(t, s);
        lemma_bound_antisymmetric(s[0].start(), t[0].start(), BoundSide::Start);
        lemma_first_end(s, t);
        lemma_first_end(t, s);
        lemma_bound_cmp_dual(s[0].end(), BoundSide::End, t[0].end(), BoundSide::End);
        lemma_bound_cmp_shape(s[0].end(), t[0].end());
        lemma_equal_ends(s[0].end(), t[0].end());
        lemma_same_bounds_same_range(s[0], t[0]);
        let (s1, t1) = (s.skip(1), t.skip(1));
        assert forall|k: int| 0 <= k < s1.len() - 1 implies (#[trigger] s1[k]).compare_spec(s1[k + 1]) == Some(
            RangesRelation::StrictlyBefore,
        ) by {
            assert(s1[k] == s[k + 1] && s1[k + 1] == s[k + 2]);
        }
        assert forall|k: int| 0 <= k < t1.len() - 1 implies (#[trigger] t1[k]).compare_spec(t1[k + 1]) == Some(
            RangesRelation::StrictlyBefore,
        ) by {
            assert(t1[k] == t[k + 1] && t1[k + 1] == t[k + 2]);
        }
        assert forall|k: int| 0 <= k < s1.len() implies !(#[trigger] s1[k]).is_empty_spec() && s1[k].simplify_spec()
            == s1[k] by {
            assert(s1[k] == s[k + 1]);
        }
        assert forall|k: int| 0 <= k < t1.len() implies !(#[trigger] t1[k]).is_empty_spec() && t1[k].simplify_spec()
            == t1[k] by {
            assert(t1[k] == t[k + 1]);
        }
        assert forall|p: (Bound<Idx>, BoundSide)| covers(s1, p) == covers(t1, p) by {
            lemma_cover_rest(s, p);
            lemma_cover_rest(t, p);
        }
        lemma_simplified_unique(s1, t1);
        assert(s =~= seq![s[0]] + s1);
        assert(t =~= seq![t[0]] + t1);
    }
}

proof fn lemma_covers_push<Idx: PartialOrd>(s: Seq<ContinuousRange<Idx>>, r: ContinuousRange<Idx>, value: (Bound<Idx>, BoundSide))
    ensures
        covers(s.push(r), value) == (covers(s, value) || r.holds_point(value)),
{
    if covers(s.push(r), value) {
        let k = choose|k: int| 0 <= k < s.push(r).len() && (#[trigger] s.push(r)[k]).holds_point(value);
        if k < s.len() {
            assert(s[k] == s.push(r)[k]);
        }
    }
    if covers(s, value) {
        let k = choose|k: int| 0 <= k < s.len() && (#[trigger] s[k]).holds_point(value);
        assert(s.push(r)[k] == s[k]);
    }
    if r.holds_point(value) {
        assert(s.push(r)[s.len() as int] == r);
    }
}

proof fn lemma_covers_skip<Idx: PartialOrd>(s: Seq<ContinuousRange<Idx>>, r: int, value: (Bound<Idx>, BoundSide))
    requires
        0 <= r < s.len(),
    ensures
        covers(s.skip(r), value) == (s[r].holds_point(value) || covers(s.skip(r + 1), value)),
{
    assert(s.skip(r) =~= seq![s[r]] + s.skip(r + 1));
    if covers(s.skip(r), value) {
        let k = choose|k: int| 0 <= k < s.skip(r).len() && (#[trigger] s.skip(r)[k]).holds_point(value);
        if k > 0 {
            assert(s.skip(r + 1)[k - 1] == s.skip(r)[k]);
        }
    }
    if covers(s.skip(r + 1), value) {
        let k = choose|k: int| 0 <= k < s.skip(r + 1).len() && (#[trigger] s.skip(r + 1)[k]).holds_point(value);
        assert(s.skip(r)[k + 1] == s.skip(r + 1)[k]);
    }
    if s[r].holds_point(value) {
        assert(s.skip(r)[0] == s[r]);
    }
}

proof fn lemma_covers_concat<Idx: PartialOrd>(s: Seq<ContinuousRange<Idx>>, t: Seq<ContinuousRange<Idx>>, value: (Bound<Idx>, BoundSide))
    ensures
        covers(s + t, value) == (covers(s, value) || covers(t, value)),
{
    if covers(s + t, value) {
        let k = choose|k: int| 0 <= k < (s + t).len() && (#[trigger] (s + t)[k]).holds_point(value);
        if k < s.len() {
            assert(s[k] == (s + t)[k]);
        } else {
            assert(t[k - s.len()] == (s + t)[k]);
        }
    }
    if covers(s, value) {
        let k = choose|k: int| 0 <= k < s.len() && (#[trigger] s[k]).holds_point(value);
        assert((s + t)[k] == s[k]);
    }
    if covers(t, value) {
        let k = choose|k: int| 0 <= k < t.len() && (#[trigger] t[k]).holds_point(value);
        assert((s + t)[k + s.len()] == t[k]);
    }
}

/// Every range is in normal form and not empty.
pub open spec fn all_normal<Idx: PartialOrd>(s: Seq<ContinuousRange<Idx>>) -> bool {
    forall|k: int| 0 <= k < s.len() ==> !(#[trigger] s[k]).is_empty_spec() && s[k].simplify_spec() == s[k]
}

/// Merges two lists sorted by start into one list sorted by start. Where the
/// first list comes wholly before the second, the result is the two lists
/// one after the other.
fn merge_two<Idx: PartialOrd + Copy>(a: &Vec<ContinuousRange<Idx>>, b: &Vec<ContinuousRange<Idx>>) -> (out: Vec<
    ContinuousRange<Idx>,
>)
    requires
        is_total_order::<Idx>(),
        all_normal(a@),
        all_normal(b@),
        sorted_by_start(a@),
        sorted_by_start(b@),
        a.len() + b.len() <= usize::MAX,
    ensures
        out.len() == a.len() + b.len(),
        all_normal(out@),
        sorted_by_start(out@),
        forall|x: (Bound<Idx>, BoundSide)| covers(out@, x) == (covers(a@, x) || covers(b@, x)),
        sorted_by_start(a@ + b@) ==> out@ == a@ + b@,
{
    let mut out: Vec<ContinuousRange<Idx>> = Vec::new();
    let mut i: usize = 0;
    let mut j: usize = 0;
    proof {
        assert forall|x: (Bound<Idx>, BoundSide)| (covers(out@, x) || covers(a@.skip(0), x) || covers(b@.skip(0), x)) == (covers(a@, x)
            || covers(b@, x)) by {
            assert(a@.skip(0) =~= a@);
            assert(b@.skip(0) =~= b@);
        }
    }
    while i < a.len() || j < b.len()
        invariant
            is_total_order::<Idx>(),
            all_normal(a@),
            all_normal(b@),
            sorted_by_start(a@),
            sorted_by_start(b@),
            0 <= i <= a.len(),
            0 <= j <= b.len(),
            out.len() == i + j,
            all_normal(out@),
            sorted_by_start(out@),
            out.len() > 0 && i < a.len() ==> at_or_before(out@.last().start(), BoundSide::Start, a[i as int].start(), BoundSide::Start),
            out.len() > 0 && j < b.len() ==> at_or_before(out@.last().start(), BoundSide::Start, b[j as int].start(), BoundSide::Start),
            forall|x: (Bound<Idx>, BoundSide)| (covers(out@, x) || covers(a@.skip(i as int), x) || covers(b@.skip(j as int), x)) == (covers(a@, x)
                || covers(b@, x)),
            sorted_by_start(a@ + b@) ==> (j > 0 ==> i == a.len()) && out@ == a@.take(i as int) + b@.take(j as int),
        decreases a.len() + b.len() - i - j,
    {
        let take_a = if j == b.len() {
            true
        } else if i == a.len() {
            false
        } else {
            let sb = b[j].start_bound().expect("a range that is not empty has a start");
            let sa = a[i].start_bound().expect("a range that is not empty has a start");
            !matches!(partial_cmp_bounds(&sb, BoundSide::Start, &sa, BoundSide::Start), Some(BoundOrdering::Less))
        };
        let ghost before_out = out@;
        if take_a {
            let e = a[i];
            proof {
                if j < b.len() {
                    b[j as int].lemma_not_empty_bounds();
                    lemma_bound_cmp_dual(b[j as int].start(), BoundSide::Start, e.start(), BoundSide::Start);
                    lemma_bound_cmp_shape(b[j as int].start(), e.start());
                }
                assert forall|k: int| 0 <= k < out.len() implies at_or_before(
                    (#[trigger] out@[k]).start(),
                    BoundSide::Start,
                    e.start(),
                    BoundSide::Start,
                ) by {
                    lemma_bound_trans(out@[k].start(), BoundSide::Start, out@.last().start(), BoundSide::Start, e.start(), BoundSide::Start);
                }
                assert forall|x: (Bound<Idx>, BoundSide)| (covers(out@.push(e), x) || covers(a@.skip(i + 1), x) || covers(b@.skip(j as int), x))
                    == (covers(a@, x) || covers(b@, x)) by {
                    lemma_covers_push(out@, e, x);
                    lemma_covers_skip(a@, i as int, x);
                }
                if sorted_by_start(a@ + b@) {
                    assert(a@.take(i + 1) =~= a@.take(i as int).push(e));
                    assert(b@.take(j as int) =~= Seq::<ContinuousRange<Idx>>::empty());
                }
            }
            out.push(e);
            i += 1;
        } else {
            let e = b[j];
            proof {
                if i < a.len() {
                    lemma_bound_cmp_shape(e.start(), a[i as int].start());
                    if sorted_by_start(a@ + b@) {
                        assert((a@ + b@)[i as int] == a[i as int]);
                        assert((a@ + b@)[a.len() + j] == e);
                        lemma_not_before_itself(e.start(), BoundSide::Start);
                        lemma_bound_trans(e.start(), BoundSide::Start, a[i as int].start(), BoundSide::Start, e.start(), BoundSide::Start);
                    }
                }
                assert forall|k: int| 0 <= k < out.len() implies at_or_before(
                    (#[trigger] out@[k]).start(),
                    BoundSide::Start,
                    e.start(),
                    BoundSide::Start,
                ) by {
                    lemma_bound_trans(out@[k].start(), BoundSide::Start, out@.last().start(), BoundSide::Start, e.start(), BoundSide::Start);
                }
                assert forall|x: (Bound<Idx>, BoundSide)| (covers(out@.push(e), x) || covers(a@.skip(i as int), x) || covers(b@.skip(j + 1), x))
                    == (covers(a@, x) || covers(b@, x)) by {
                    lemma_covers_push(out@, e, x);
                    lemma_covers_skip(b@, j as int, x);
                }
                if sorted_by_start(a@ + b@) {
                    assert(b@.take(j + 1) =~= b@.take(j as int).push(e));
                }
            }
            out.push(e);
            j += 1;
        }
        proof {
            assert(out@ == before_out.push(out@.last()));
        }
    }
    proof {
        assert(a@.skip(a.len() as int) =~= Seq::<ContinuousRange<Idx>>::empty());
        assert(b@.skip(b.len() as int) =~= Seq::<ContinuousRange<Idx>>::empty());
        assert(a@.take(a.len() as int) =~= a@);
        assert(b@.take(b.len() as int) =~= b@);
    }
    out
}

/// Sorts the ranges `v[lo..hi]` by their start bound (merge sort). A part
/// that is already sorted comes back as it is.
fn sorted_part<Idx: PartialOrd + Copy>(v: &Vec<ContinuousRange<Idx>>, lo: usize, hi: usize) -> (out: Vec<
    ContinuousRange<Idx>,
>)
    requires
        is_total_order::<Idx>(),
        lo <= hi <= v.len(),
        all_normal(v@),
    ensures
        out.len() == hi - lo,
        all_normal(out@),
        sorted_by_start(out@),
        forall|x: (Bound<Idx>, BoundSide)| covers(out@, x) == covers(v@.subrange(lo as int, hi as int), x),
        sorted_by_start(v@.subrange(lo as int, hi as int)) ==> out@ == v@.subrange(lo as int, hi as int),
    decreases hi - lo,
{
    if hi - lo <= 1 {
        let mut out: Vec<ContinuousRange<Idx>> = Vec::new();
        if hi > lo {
            out.push(v[lo]);
        }
        proof {
            assert(out@ =~= v@.subrange(lo as int, hi as int));
        }
        return out;
    }
    let mid = lo + (hi - lo) / 2;
    let a = sorted_part(v, lo, mid);
    let b = sorted_part(v, mid, hi);
    let ghost whole = v@.subrange(lo as int, hi as int);
    proof {
        assert(whole =~= v@.subrange(lo as int, mid as int) + v@.subrange(mid as int, hi as int));
        if sorted_by_start(whole) {
            assert forall|p: int, q: int| 0 <= p < q < mid - lo implies at_or_before(
                (#[trigger] v@.subrange(lo as int, mid as int)[p]).start(),
                BoundSide::Start,
                (#[trigger] v@.subrange(lo as int, mid as int)[q]).start(),
                BoundSide::Start,
            ) by {
                assert(whole[p] == v@.subrange(lo as int, mid as int)[p]);
                assert(whole[q] == v@.subrange(lo as int, mid as int)[q]);
            }
            assert forall|p: int, q: int| 0 <= p < q < hi - mid implies at_or_before(
                (#[trigger] v@.subrange(mid as int, hi as int)[p]).start(),
                BoundSide::Start,
                (#[trigger] v@.subrange(mid as int, hi as int)[q]).start(),
                BoundSide::Start,
            ) by {
                assert(whole[p + mid - lo] == v@.subrange(mid as int, hi as int)[p]);
                assert(whole[q + mid - lo] == v@.subrange(mid as int, hi as int)[q]);
            }
            assert(a@ + b@ == whole);
        }
    }
    let out = merge_two(&a, &b);
    proof {
        assert forall|x: (Bound<Idx>, BoundSide)| covers(out@, x) == covers(whole, x) by {
            lemma_covers_concat(v@.subrange(lo as int, mid as int), v@.subrange(mid as int, hi as int), x);
        }
    }
    out
}

/// Sorts ranges that are not empty by their start bound; a list that is
/// already sorted stays as it is.
fn sort_by_start<Idx: PartialOrd + Copy>(v: &mut Vec<ContinuousRange<Idx>>)
    requires
        is_total_order::<Idx>(),
        forall|k: int|
            0 <= k < old(v).len() ==> !(#[trigger] old(v)[k]).is_empty_spec() && old(v)[k].simplify_spec() == old(v)[k],
    ensures
        final(v).len() == old(v).len(),
        forall|k: int|
            0 <= k < final(v).len() ==> !(#[trigger] final(v)[k]).is_empty_spec() && final(v)[k].simplify_spec() == final(v)[k],
        forall|x: (Bound<Idx>, BoundSide)| covers(final(v)@, x) == covers(old(v)@, x),
        sorted_by_start(final(v)@),
        sorted_by_start(old(v)@) ==> final(v)@ == old(v)@,
{
    let n = v.len();
    let sorted = sorted_part(v, 0, n);
    proof {
        assert(v@.subrange(0, n as int) =~= v@);
    }
    *v = sorted;
}

/// The ranges of `done` and those of `todo` together cover exactly what the
/// ranges of `all` cover.
#[verifier::opaque]
pub open spec fn covers_split<Idx: PartialOrd>(
    done: Seq<ContinuousRange<Idx>>,
    todo: Seq<ContinuousRange<Idx>>,
    all: Seq<ContinuousRange<Idx>>,
) -> bool {
    forall|x: (Bound<Idx>, BoundSide)| (covers(done, x) || covers(todo, x)) == covers(all, x)
}

/// Moving the next range to be merged to the end of the merged ones keeps
/// what they cover.
proof fn lemma_split_append<Idx: PartialOrd>(done: Seq<ContinuousRange<Idx>>, s: Seq<ContinuousRange<Idx>>, r: int)
    requires
        0 <= r < s.len(),
        covers_split(done, s.skip(r), s),
    ensures
        covers_split(done.push(s[r]), s.skip(r + 1), s),
{
    reveal(covers_split);
    assert forall|x: (Bound<Idx>, BoundSide)| (covers(done.push(s[r]), x) || covers(s.skip(r + 1), x)) == covers(s, x) by {
        lemma_covers_push(done, s[r], x);
        lemma_covers_skip(s, r, x);
    }
}

/// Replacing the last merged range and the next one by a range that holds
/// exactly their values keeps what they cover.
proof fn lemma_split_replace<Idx: PartialOrd>(
    done: Seq<ContinuousRange<Idx>>,
    last: ContinuousRange<Idx>,
    merged: ContinuousRange<Idx>,
    s: Seq<ContinuousRange<Idx>>,
    r: int,
)
    requires
        0 <= r < s.len(),
        covers_split(done.push(last), s.skip(r), s),
        forall|x: (Bound<Idx>, BoundSide)| #[trigger] merged.holds_point(x) == (last.holds_point(x) || s[r].holds_point(x)),
    ensures
        covers_split(done.push(merged), s.skip(r + 1), s),
{
    reveal(covers_split);
    assert forall|x: (Bound<Idx>, BoundSide)| (covers(done.push(merged), x) || covers(s.skip(r + 1), x)) == covers(s, x) by {
        lemma_covers_push(done, merged, x);
        lemma_covers_push(done, last, x);
        lemma_covers_skip(s, r, x);
        assert(merged.holds_point(x) == (last.holds_point(x) || s[r].holds_point(x)));
    }
}

proof fn lemma_split_start<Idx: PartialOrd>(s: Seq<ContinuousRange<Idx>>)
    requires
        s.len() > 0,
    ensures
        covers_split(s.take(1), s.skip(1), s),
{
    reveal(covers_split);
    assert forall|x: (Bound<Idx>, BoundSide)| (covers(s.take(1), x) || covers(s.skip(1), x)) == covers(s, x) by {
        lemma_covers_skip(s, 0, x);
        assert(s.skip(0) =~= s);
        assert(s.take(1) =~= Seq::<ContinuousRange<Idx>>::empty().push(s[0]));
        lemma_covers_push(Seq::<ContinuousRange<Idx>>::empty(), s[0], x);
    }
}

proof fn lemma_split_end<Idx: PartialOrd>(done: Seq<ContinuousRange<Idx>>, s: Seq<ContinuousRange<Idx>>)
    requires
        covers_split(done, s.skip(s.len() as int), s),
    ensures
        forall|x: (Bound<Idx>, BoundSide)| covers(done, x) == covers(s, x),
{
    reveal(covers_split);
    assert(s.skip(s.len() as int) =~= Seq::<ContinuousRange<Idx>>::empty());
}

/// Merges a list of ranges sorted by start into canonical form.
fn merge_sorted<Idx: PartialOrd + Copy>(v: &mut Vec<ContinuousRange<Idx>>)
    requires
        is_total_order::<Idx>(),
        forall|k: int|
            0 <= k < old(v).len() ==> !(#[trigger] old(v)[k]).is_empty_spec() && old(v)[k].simplify_spec() == old(v)[k],
        sorted_by_start(old(v)@),
    ensures
        is_simplified(final(v)@),
        forall|x: (Bound<Idx>, BoundSide)| covers(final(v)@, x) == covers(old(v)@, x),
        is_simplified(old(v)@) ==> final(v)@ == old(v)@,
{
    let n = v.len();
    if n == 0 {
        return;
    }
    let ghost s = v@;
    let mut w: usize = 0;
    let mut r: usize = 1;
    proof {
        lemma_split_start(s);
    }
    while r < n
        invariant
            is_total_order::<Idx>(),
            v.len() == n,
            s.len() == n,
            0 <= w < r <= n,
            forall|k: int| 0 <= k < n ==> !(#[trigger] s[k]).is_empty_spec() && s[k].simplify_spec() == s[k],
            sorted_by_start(s),
            forall|k: int| r <= k < n ==> #[trigger] v[k] == s[k],
            forall|k: int| 0 <= k <= w ==> !(#[trigger] v[k]).is_empty_spec() && v[k].simplify_spec() == v[k],
            forall|k: int|
                0 <= k < w ==> (#[trigger] v[k]).compare_spec(v[k + 1]) == Some(RangesRelation::StrictlyBefore),
            forall|k: int|
                r <= k < n ==> at_or_before(v[w as int].start(), BoundSide::Start, (#[trigger] s[k]).start(), BoundSide::Start),
            covers_split(v@.take(w + 1), s.skip(r as int), s),
            is_simplified(s) ==> r == w + 1 && v@ == s,
        decreases n - r,
    {
        let ghost cur = v[w as int];
        let ghost next = s[r as int];
        let ghost done = v@.take(w as int);
        proof {
            lemma_relation_when_starts_first(cur, next);
            assert(v@.take(w + 1) =~= done.push(cur));
            if is_simplified(s) {
                assert(s[w as int] == cur);
            }
        }
        let cmp = v[w].compare(&v[r]).expect("ranges that are not empty compare");
        match cmp {
            RangesRelation::StrictlyBefore => {
                proof {
                    lemma_split_append(v@.take(w + 1), s, r as int);
                }
                w += 1;
                let read = v[r];
                v.set(w, read);
                proof {
                    assert(v@.take(w + 1) =~= v@.take(w as int).push(next));
                    assert(v@.take(w as int) =~= done.push(cur));
                    if is_simplified(s) {
                        assert(v@ =~= s);
                    }
                }
                r += 1;
            },
            RangesRelation::Meets | RangesRelation::Overlaps => {
                let merged = v[w].union_knowing_cmp(&v[r], cmp).expect("ranges that meet or overlap make one range");
                proof {
                    assert forall|x: (Bound<Idx>, BoundSide)| #[trigger] merged.holds_point(x) == (cur.holds_point(x) || next.holds_point(x)) by {
                        lemma_union_points(cur, next, x);
                    }
                    lemma_split_replace(done, cur, merged, s, r as int);
                    if w > 0 {
                        lemma_strictly_before(v[w - 1], cur);
                        lemma_strictly_before(v[w - 1], merged);
                    }
                }
                v.set(w, merged);
                proof {
                    assert(v@.take(w + 1) =~= done.push(merged));
                }
                r += 1;
            },
            RangesRelation::Starts => {
                proof {
                    assert forall|x: (Bound<Idx>, BoundSide)| #[trigger] next.holds_point(x) == (cur.holds_point(x) || next.holds_point(x)) by {
                        lemma_starts_points(cur, next, x);
                    }
                    lemma_split_replace(done, cur, next, s, r as int);
                    lemma_starts_same_start(cur, next);
                    if w > 0 {
                        lemma_strictly_before(v[w - 1], cur);
                        lemma_strictly_before(v[w - 1], next);
                    }
                }
                let read = v[r];
                v.set(w, read);
                proof {
                    assert(v@.take(w + 1) =~= done.push(next));
                }
                r += 1;
            },
            RangesRelation::IsStarted
            | RangesRelation::StrictlyContains
            | RangesRelation::IsFinished
            | RangesRelation::Equal => {
                proof {
                    assert forall|x: (Bound<Idx>, BoundSide)| #[trigger] cur.holds_point(x) == (cur.holds_point(x) || next.holds_point(x)) by {
                        lemma_nested_points(cur, next, x);
                    }
                    lemma_split_replace(done, cur, cur, s, r as int);
                }
                r += 1;
            },
            RangesRelation::StrictlyAfter
            | RangesRelation::IsMet
            | RangesRelation::IsOverlapped
            | RangesRelation::Finishes
            | RangesRelation::IsStrictlyContained => {
                // the current range starts at or before the next one
                proof {
                    assert(false);
                }
                r += 1;
            },
        }
    }
    let ghost merged = v@;
    v.truncate(w + 1);
    proof {
        assert(v@ =~= merged.take(w + 1));
        lemma_split_end(v@, s);
    }
}

/// Reduces a list of ranges to canonical form, in place.
///
/// Every range is normalized and the empty ones are dropped; a `Full` range
/// leaves `[Full]` alone. The rest are sorted by start, and ranges that
/// overlap, meet or contain one another are merged, so that each range lies
/// strictly before the next one with a gap between them. The points covered
/// (bounds at a side, see [`ContinuousRange::holds_point`]) stay the same, and
/// so do the values; a canonical list is fixed by its points. A list already
/// in canonical form is left as it is, so that reducing twice gives what
/// reducing once gave.
pub fn simplify_ranges<Idx: PartialOrd + Copy>(ranges: &mut Vec<ContinuousRange<Idx>>)
    requires
        is_total_order::<Idx>(),
    ensures
        is_simplified(final(ranges)@),
        forall|x: (Bound<Idx>, BoundSide)| covers(final(ranges)@, x) == covers(old(ranges)@, x),
        is_simplified(old(ranges)@) ==> final(ranges)@ == old(ranges)@,
{
    let n = ranges.len();
    let mut kept: Vec<ContinuousRange<Idx>> = Vec::new();
    let mut i: usize = 0;
    while i < n
        invariant
            is_total_order::<Idx>(),
            ranges@ == old(ranges)@,
            n == ranges.len(),
            0 <= i <= n,
            forall|k: int|
                0 <= k < kept.len() ==> !(#[trigger] kept[k]).is_empty_spec() && kept[k].simplify_spec() == kept[k],
            forall|x: (Bound<Idx>, BoundSide)| covers(kept@, x) == covers(ranges@.take(i as int), x),
            is_simplified(ranges@) ==> kept@ == ranges@.take(i as int),
        decreases n - i,
    {
        let range = ranges[i].simplify();
        if range.is_full() {
            proof {
                let orig = old(ranges)@;
                assert(orig[i as int] is Full);
                assert forall|x: (Bound<Idx>, BoundSide)| covers(seq![ContinuousRange::<Idx>::Full], x) && covers(orig, x) by {
                    assert(orig[i as int].holds_point(x));
                    assert(seq![ContinuousRange::<Idx>::Full][0].holds_point(x));
                }
                if is_simplified(orig) {
                    lemma_full_alone(orig, i as int);
                }
            }
            ranges.set(0, ContinuousRange::Full);
            ranges.truncate(1);
            proof {
                assert(ranges@ =~= seq![ContinuousRange::<Idx>::Full]);
                assert(is_simplified(ranges@));
                if is_simplified(old(ranges)@) {
                    assert(old(ranges)@ =~= seq![ContinuousRange::<Idx>::Full]);
                }
            }
            return;
        }
        proof {
            let orig = old(ranges)@;
            assert(orig.take(i + 1) =~= orig.take(i as int).push(orig[i as int]));
            let next_kept = if range.is_empty_spec() { kept@ } else { kept@.push(range) };
            assert forall|x: (Bound<Idx>, BoundSide)| #[trigger] covers(next_kept, x) == covers(orig.take(i + 1), x) by {
                lemma_simplify_points(orig[i as int], x);
                lemma_covers_push(kept@, range, x);
                lemma_covers_push(orig.take(i as int), orig[i as int], x);
            }
        }
        if !range.is_empty() {
            kept.push(range);
        }
        i += 1;
    }
    proof {
        assert(old(ranges)@.take(n as int) =~= old(ranges)@);
        if is_simplified(old(ranges)@) {
            lemma_simplified_sorted(old(ranges)@);
        }
    }
    sort_by_start(&mut kept);
    merge_sorted(&mut kept);
    *ranges = kept;
}

} // verus!
