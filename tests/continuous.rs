use ranges::{Bound, ContinuousRange, RangeBuilder, RangesRelation};
use std::cmp::Ordering;

type R = ContinuousRange<i32>;

#[test]
fn constructors_normalize() {
    assert_eq!(R::inclusive(42, 42), R::Single(42));
    assert_eq!(R::inclusive(5, 1), R::Empty);
    assert_eq!(R::inclusive(1, 5), R::Inclusive(1, 5));
    assert_eq!(R::exclusive(5, 5), R::Empty);
    assert_eq!(R::exclusive(1, 5), R::Exclusive(1, 5));
    assert_eq!(R::start_exclusive(5, 5), R::Empty);
    assert_eq!(R::start_exclusive(1, 5), R::StartExclusive(1, 5));
    assert_eq!(R::end_exclusive(6, 5), R::Empty);
    assert_eq!(R::end_exclusive(1, 5), R::EndExclusive(1, 5));
    assert_eq!(R::empty(), R::Empty);
    assert_eq!(R::full(), R::Full);
    assert_eq!(R::single(3), R::Single(3));
    assert_eq!(R::from(3), R::From(3));
    assert_eq!(R::from_exclusive(3), R::FromExclusive(3));
    assert_eq!(R::to(3), R::To(3));
    assert_eq!(R::to_exclusive(3), R::ToExclusive(3));
    assert_eq!(R::default(), R::Empty);
}

#[test]
fn from_bounds_builds_each_shape() {
    assert_eq!(R::from_bounds((Bound::Unbounded, Bound::Unbounded)), R::Full);
    assert_eq!(R::from_bounds((Bound::Included(&1), Bound::Included(&1))), R::Single(1));
    assert_eq!(R::from_bounds((Bound::Included(&1), Bound::Excluded(&4))), R::EndExclusive(1, 4));
    assert_eq!(R::from_bounds((Bound::Excluded(&1), Bound::Included(&4))), R::StartExclusive(1, 4));
    assert_eq!(R::from_bounds((Bound::Excluded(&4), Bound::Excluded(&4))), R::Empty);
    assert_eq!(R::from_bounds((Bound::Included(&2), Bound::Unbounded)), R::From(2));
    assert_eq!(R::from_bounds((Bound::Excluded(&2), Bound::Unbounded)), R::FromExclusive(2));
    assert_eq!(R::from_bounds((Bound::Unbounded, Bound::Included(&2))), R::To(2));
    assert_eq!(R::from_bounds((Bound::Unbounded, Bound::Excluded(&2))), R::ToExclusive(2));
}

#[test]
fn bounds_of_each_shape() {
    assert_eq!(R::Empty.range_bounds(), None);
    assert_eq!(R::Single(3).range_bounds(), Some((Bound::Included(&3), Bound::Included(&3))));
    assert_eq!(R::StartExclusive(1, 3).range_bounds(), Some((Bound::Excluded(&1), Bound::Included(&3))));
    assert_eq!(R::ToExclusive(3).start_bound(), Some(Bound::Unbounded));
    assert_eq!(R::ToExclusive(3).end_bound(), Some(Bound::Excluded(&3)));
    assert_eq!(R::From(3).end_bound(), Some(Bound::Unbounded));
    assert_eq!(R::Empty.start_bound(), None);
    assert_eq!(R::Empty.end_bound(), None);
}

#[test]
fn contains_checks_inclusivity() {
    assert!(R::Inclusive(1, 5).contains(&1));
    assert!(R::Inclusive(1, 5).contains(&5));
    assert!(!R::Exclusive(1, 5).contains(&1));
    assert!(!R::Exclusive(1, 5).contains(&5));
    assert!(R::Exclusive(1, 5).contains(&3));
    assert!(R::StartExclusive(1, 5).contains(&5));
    assert!(!R::EndExclusive(1, 5).contains(&5));
    assert!(R::From(1).contains(&100));
    assert!(!R::FromExclusive(1).contains(&1));
    assert!(R::To(1).contains(&1));
    assert!(!R::ToExclusive(1).contains(&1));
    assert!(R::Single(7).contains(&7));
    assert!(!R::Single(7).contains(&8));
    assert!(R::Full.contains(&i32::MIN));
    assert!(!R::Empty.contains(&0));
}

#[test]
fn emptiness_and_fullness() {
    assert!(R::Empty.is_empty());
    assert!(R::Inclusive(2, 1).is_empty());
    assert!(!R::Inclusive(1, 1).is_empty());
    assert!(R::Exclusive(1, 1).is_empty());
    assert!(R::EndExclusive(1, 1).is_empty());
    assert!(!R::From(1).is_empty());
    assert!(R::Full.is_full());
    assert!(!R::From(1).is_full());
}

#[test]
fn simplify_collapses_degenerate_ranges() {
    assert_eq!(R::Inclusive(3, 3).simplify(), R::Single(3));
    assert_eq!(R::Inclusive(4, 3).simplify(), R::Empty);
    assert_eq!(R::StartExclusive(3, 3).simplify(), R::Empty);
    assert_eq!(R::Exclusive(1, 3).simplify(), R::Exclusive(1, 3));
    assert_eq!(R::To(3).simplify(), R::To(3));
}

#[test]
fn end_excluded_meets_start_included() {
    assert_eq!(R::EndExclusive(0, 5).compare(&R::From(5)), Some(RangesRelation::Meets));
    assert_eq!(R::From(5).compare(&R::EndExclusive(0, 5)), Some(RangesRelation::IsMet));
}

#[test]
fn compare_each_relation() {
    let a = R::Inclusive(0, 10);
    assert_eq!(a.compare(&R::Inclusive(20, 30)), Some(RangesRelation::StrictlyBefore));
    assert_eq!(a.compare(&R::Inclusive(-30, -20)), Some(RangesRelation::StrictlyAfter));
    assert_eq!(a.compare(&R::FromExclusive(10)), Some(RangesRelation::Meets));
    assert_eq!(a.compare(&R::ToExclusive(0)), Some(RangesRelation::IsMet));
    assert_eq!(a.compare(&R::Inclusive(5, 15)), Some(RangesRelation::Overlaps));
    assert_eq!(a.compare(&R::Inclusive(-5, 5)), Some(RangesRelation::IsOverlapped));
    assert_eq!(a.compare(&R::Inclusive(0, 15)), Some(RangesRelation::Starts));
    assert_eq!(a.compare(&R::Inclusive(0, 5)), Some(RangesRelation::IsStarted));
    assert_eq!(a.compare(&R::Inclusive(2, 5)), Some(RangesRelation::StrictlyContains));
    assert_eq!(a.compare(&R::Inclusive(-2, 15)), Some(RangesRelation::IsStrictlyContained));
    assert_eq!(a.compare(&R::Inclusive(-2, 10)), Some(RangesRelation::Finishes));
    assert_eq!(a.compare(&R::Inclusive(5, 10)), Some(RangesRelation::IsFinished));
    assert_eq!(a.compare(&R::Inclusive(0, 10)), Some(RangesRelation::Equal));
    assert_eq!(R::Exclusive(0, 10).compare(&R::Inclusive(0, 10)), Some(RangesRelation::IsStrictlyContained));
    assert_eq!(R::ToExclusive(5).compare(&R::FromExclusive(5)), Some(RangesRelation::StrictlyBefore));
}

#[test]
fn compare_with_empty_ranges() {
    assert_eq!(R::Empty.compare(&R::Empty), Some(RangesRelation::Equal));
    assert_eq!(R::Empty.compare(&R::Inclusive(3, 1)), Some(RangesRelation::Equal));
    assert_eq!(R::Empty.compare(&R::Single(1)), None);
    assert_eq!(R::Single(1).compare(&R::Empty), None);
    assert_eq!(R::Full.compare(&R::Full), Some(RangesRelation::Equal));
    assert_eq!(R::Single(4).compare(&R::Single(4)), Some(RangesRelation::Equal));
}

#[test]
fn compare_is_symmetric_on_examples() {
    let samples = [R::Single(3), R::Inclusive(0, 3), R::Exclusive(3, 9), R::To(3), R::FromExclusive(3), R::Full];
    for a in samples.iter() {
        for b in samples.iter() {
            let ab = a.compare(b).unwrap();
            let ba = b.compare(a).unwrap();
            assert_eq!(ab.start_ordering(), ba.start_ordering().reverse());
            assert_eq!(ab.end_ordering(), ba.end_ordering().reverse());
            assert_eq!(a.intersects(b), b.intersects(a));
        }
    }
}

#[test]
fn compare_is_undefined_for_incomparable_values() {
    let nan = f64::NAN;
    let a = ContinuousRange::Inclusive(0.0, nan);
    assert_eq!(a.compare(&ContinuousRange::Single(1.0)), None);
    assert!(!a.intersects(&ContinuousRange::Single(1.0)));
    assert!(!a.contains_range(&ContinuousRange::Single(1.0)));
    assert!(a.disjoint_from_range(&ContinuousRange::Single(1.0)));
}

#[test]
fn union_of_each_kind() {
    assert_eq!(R::Inclusive(0, 5).union(&R::Inclusive(3, 9)), Some(R::Inclusive(0, 9)));
    assert_eq!(R::Inclusive(3, 9).union(&R::Inclusive(0, 5)), Some(R::Inclusive(0, 9)));
    assert_eq!(R::EndExclusive(0, 5).union(&R::From(5)), Some(R::From(0)));
    assert_eq!(R::Inclusive(0, 5).union(&R::Inclusive(7, 9)), None);
    assert_eq!(R::Inclusive(0, 5).union(&R::Full), Some(R::Full));
    assert_eq!(R::Empty.union(&R::Single(4)), Some(R::Single(4)));
    assert_eq!(R::Single(4).union(&R::Empty), Some(R::Single(4)));
    assert_eq!(R::Inclusive(0, 9).union(&R::Single(4)), Some(R::Inclusive(0, 9)));
    assert_eq!(R::Single(4).union(&R::Inclusive(0, 9)), Some(R::Inclusive(0, 9)));
    assert_eq!(R::ToExclusive(5).union(&R::FromExclusive(5)), None);
}

#[test]
fn union_contains_both_operands() {
    let pairs = [
        (R::Inclusive(0, 5), R::Inclusive(3, 9)),
        (R::EndExclusive(0, 5), R::From(5)),
        (R::Single(4), R::Inclusive(0, 9)),
        (R::To(4), R::Full),
        (R::Empty, R::Inclusive(2, 1)),
    ];
    for (a, b) in pairs.iter() {
        let u = a.union(b).unwrap();
        assert!(u.contains_range(a));
        assert!(u.contains_range(b));
    }
}

#[test]
fn intersection_of_each_kind() {
    assert_eq!(R::Inclusive(0, 5).intersection(&R::Inclusive(3, 9)), R::Inclusive(3, 5));
    assert_eq!(R::Inclusive(3, 9).intersection(&R::Inclusive(0, 5)), R::Inclusive(3, 5));
    assert_eq!(R::Inclusive(0, 5).intersection(&R::Inclusive(7, 9)), R::Empty);
    assert_eq!(R::Inclusive(0, 5).intersection(&R::StartExclusive(5, 9)), R::Single(5));
    assert_eq!(R::StartExclusive(5, 9).intersection(&R::Inclusive(0, 5)), R::Single(5));
    assert_eq!(R::Inclusive(0, 9).intersection(&R::Single(4)), R::Single(4));
    assert_eq!(R::Full.intersection(&R::To(4)), R::To(4));
    assert_eq!(R::To(4).intersection(&R::Full), R::To(4));
    assert_eq!(R::Empty.intersection(&R::Full), R::Empty);
}

#[test]
fn difference_of_each_kind() {
    assert_eq!(R::Inclusive(0, 9).difference(&R::Inclusive(3, 5)), None);
    assert_eq!(R::Inclusive(0, 9).difference(&R::Inclusive(5, 12)), Some(R::EndExclusive(0, 5)));
    assert_eq!(R::Inclusive(5, 12).difference(&R::Inclusive(0, 9)), Some(R::StartExclusive(9, 12)));
    assert_eq!(R::Inclusive(0, 9).difference(&R::Inclusive(0, 5)), Some(R::StartExclusive(5, 9)));
    assert_eq!(R::Inclusive(0, 9).difference(&R::Inclusive(5, 9)), Some(R::EndExclusive(0, 5)));
    assert_eq!(R::Inclusive(0, 9).difference(&R::Inclusive(0, 9)), Some(R::Empty));
    assert_eq!(R::Inclusive(2, 3).difference(&R::Inclusive(0, 9)), Some(R::Empty));
    assert_eq!(R::Inclusive(0, 9).difference(&R::Inclusive(20, 29)), Some(R::Inclusive(0, 9)));
    assert_eq!(R::Inclusive(0, 5).difference(&R::StartExclusive(5, 9)), Some(R::Inclusive(0, 5)));
    assert_eq!(R::EndExclusive(0, 5).difference(&R::From(5)), Some(R::EndExclusive(0, 5)));
    assert_eq!(R::From(5).difference(&R::EndExclusive(0, 5)), Some(R::From(5)));
    assert_eq!(R::StartExclusive(5, 9).difference(&R::Inclusive(0, 5)), Some(R::StartExclusive(5, 9)));
    assert_eq!(R::Inclusive(0, 5).difference(&R::Inclusive(5, 9)), Some(R::EndExclusive(0, 5)));
    assert_eq!(R::Empty.difference(&R::Single(3)), Some(R::Single(3)));
    assert_eq!(R::Single(3).difference(&R::Empty), Some(R::Single(3)));
}

#[test]
fn contains_range_and_disjoint() {
    assert!(R::Inclusive(0, 9).contains_range(&R::Inclusive(2, 3)));
    assert!(R::Inclusive(0, 9).contains_range(&R::Inclusive(0, 9)));
    assert!(!R::Inclusive(2, 3).contains_range(&R::Inclusive(0, 9)));
    assert!(!R::Inclusive(0, 9).contains_range(&R::Empty));
    assert!(R::Inclusive(0, 3).disjoint_from_range(&R::Inclusive(5, 9)));
    assert!(!R::Inclusive(0, 5).disjoint_from_range(&R::Inclusive(5, 9)));
    assert!(R::Inclusive(0, 3).disjoint_from_range(&R::Empty));
    assert!(!R::Empty.intersects(&R::Empty));
    assert!(R::Inclusive(0, 5).intersects(&R::StartExclusive(5, 9)));
}

#[test]
fn relation_queries() {
    assert!(!RangesRelation::StrictlyBefore.intersects());
    assert!(RangesRelation::StrictlyAfter.disjoint());
    assert!(RangesRelation::Meets.intersects());
    assert!(!RangesRelation::Meets.disjoint());
    assert!(RangesRelation::IsFinished.contains());
    assert!(RangesRelation::IsStarted.contains());
    assert!(RangesRelation::StrictlyContains.contains());
    assert!(!RangesRelation::Finishes.contains());
    assert_eq!(RangesRelation::Overlaps.start_ordering(), Ordering::Less);
    assert_eq!(RangesRelation::Overlaps.end_ordering(), Ordering::Less);
    assert_eq!(RangesRelation::StrictlyContains.start_ordering(), Ordering::Less);
    assert_eq!(RangesRelation::StrictlyContains.end_ordering(), Ordering::Greater);
    assert_eq!(RangesRelation::Finishes.end_ordering(), Ordering::Equal);
    assert_eq!(RangesRelation::IsStarted.start_ordering(), Ordering::Equal);
}

#[test]
fn builder_keeps_ranges_in_order() {
    let mut b = RangeBuilder::new(vec![R::Single(1)]);
    b.add(R::To(0));
    b.add(R::Empty);
    assert_eq!(b.into_ranges(), vec![R::Single(1), R::To(0), R::Empty]);
}

#[test]
fn union_holds_the_values_of_both() {
    let a = R::EndExclusive(0, 5);
    let b = R::StartExclusive(3, 9);
    let u = a.union(&b).unwrap();
    for v in -3..12 {
        assert_eq!(u.contains(&v), a.contains(&v) || b.contains(&v));
    }
    assert_eq!(u, R::Inclusive(0, 9));
}

#[test]
fn difference_and_intersection_values() {
    let samples = [
        R::Inclusive(0, 5),
        R::EndExclusive(0, 5),
        R::StartExclusive(5, 9),
        R::From(5),
        R::To(2),
        R::Single(5),
        R::Exclusive(3, 7),
        R::Full,
    ];
    for a in samples.iter() {
        for b in samples.iter() {
            if let Some(d) = a.difference(b) {
                for v in -3..12 {
                    assert_eq!(d.contains(&v), a.contains(&v) && !b.contains(&v));
                }
            }
            let rel = a.compare(b);
            if rel != Some(RangesRelation::Meets) && rel != Some(RangesRelation::IsMet) {
                let i = a.intersection(b);
                for v in -3..12 {
                    assert_eq!(i.contains(&v), a.contains(&v) && b.contains(&v));
                }
            }
        }
    }
}

#[test]
fn builder_from_a_single_range() {
    let b: RangeBuilder<i32> = R::Single(4).into();
    assert_eq!(b.into_ranges(), vec![R::Single(4)]);
}
