use ranges::{expect_bound, partial_cmp_bounds, reverse_bound, Bound, BoundOrdering, BoundSide};
use std::cmp::Ordering;

#[test]
fn included_bounds_compare_by_value() {
    let a = Bound::Included(&3);
    let b = Bound::Included(&5);
    assert_eq!(partial_cmp_bounds(&a, BoundSide::Start, &b, BoundSide::Start), Some(BoundOrdering::Less));
    assert_eq!(partial_cmp_bounds(&b, BoundSide::End, &a, BoundSide::Start), Some(BoundOrdering::Greater));
    assert_eq!(partial_cmp_bounds(&a, BoundSide::End, &a, BoundSide::Start), Some(BoundOrdering::Equal));
}

#[test]
fn mixed_inclusivity_on_one_value() {
    let i = Bound::Included(&3);
    let e = Bound::Excluded(&3);
    assert_eq!(partial_cmp_bounds(&i, BoundSide::Start, &e, BoundSide::Start), Some(BoundOrdering::Less));
    assert_eq!(partial_cmp_bounds(&i, BoundSide::End, &e, BoundSide::End), Some(BoundOrdering::Greater));
    assert_eq!(partial_cmp_bounds(&i, BoundSide::Start, &e, BoundSide::End), Some(BoundOrdering::IsMet));
    assert_eq!(partial_cmp_bounds(&i, BoundSide::End, &e, BoundSide::Start), Some(BoundOrdering::Meets));
    assert_eq!(partial_cmp_bounds(&e, BoundSide::Start, &i, BoundSide::Start), Some(BoundOrdering::Greater));
    assert_eq!(partial_cmp_bounds(&e, BoundSide::End, &i, BoundSide::End), Some(BoundOrdering::Less));
    assert_eq!(partial_cmp_bounds(&e, BoundSide::Start, &i, BoundSide::End), Some(BoundOrdering::IsMet));
    assert_eq!(partial_cmp_bounds(&e, BoundSide::End, &i, BoundSide::Start), Some(BoundOrdering::Meets));
}

#[test]
fn excluded_bounds_on_one_value() {
    let e = Bound::Excluded(&3);
    assert_eq!(partial_cmp_bounds(&e, BoundSide::Start, &e, BoundSide::Start), Some(BoundOrdering::Equal));
    assert_eq!(partial_cmp_bounds(&e, BoundSide::End, &e, BoundSide::End), Some(BoundOrdering::Equal));
    assert_eq!(partial_cmp_bounds(&e, BoundSide::Start, &e, BoundSide::End), Some(BoundOrdering::Greater));
    assert_eq!(partial_cmp_bounds(&e, BoundSide::End, &e, BoundSide::Start), Some(BoundOrdering::Less));
}

#[test]
fn unbounded_bounds() {
    let u: Bound<&i32> = Bound::Unbounded;
    let v = Bound::Included(&3);
    assert_eq!(partial_cmp_bounds(&u, BoundSide::Start, &v, BoundSide::End), Some(BoundOrdering::Less));
    assert_eq!(partial_cmp_bounds(&u, BoundSide::End, &v, BoundSide::Start), Some(BoundOrdering::Greater));
    assert_eq!(partial_cmp_bounds(&v, BoundSide::Start, &u, BoundSide::Start), Some(BoundOrdering::Greater));
    assert_eq!(partial_cmp_bounds(&v, BoundSide::End, &u, BoundSide::End), Some(BoundOrdering::Less));
    assert_eq!(partial_cmp_bounds(&u, BoundSide::Start, &u, BoundSide::Start), Some(BoundOrdering::Equal));
    assert_eq!(partial_cmp_bounds(&u, BoundSide::Start, &u, BoundSide::End), Some(BoundOrdering::Less));
    assert_eq!(partial_cmp_bounds(&u, BoundSide::End, &u, BoundSide::Start), Some(BoundOrdering::Greater));
}

#[test]
fn incomparable_values_give_none() {
    let nan = f64::NAN;
    let a = Bound::Included(&nan);
    let b = Bound::Excluded(&1.0);
    assert_eq!(partial_cmp_bounds(&a, BoundSide::Start, &b, BoundSide::Start), None);
}

#[test]
fn bound_ordering_from_ordering() {
    assert_eq!(BoundOrdering::from(Ordering::Less), BoundOrdering::Less);
    assert_eq!(BoundOrdering::from(Ordering::Equal), BoundOrdering::Equal);
    assert_eq!(BoundOrdering::from(Ordering::Greater), BoundOrdering::Greater);
    assert!(BoundOrdering::Meets < BoundOrdering::Less);
    assert!(BoundOrdering::Greater < BoundOrdering::IsMet);
}

#[test]
fn reverse_and_expect() {
    assert_eq!(reverse_bound(Bound::Included(&1)), Bound::Excluded(&1));
    assert_eq!(reverse_bound(Bound::Excluded(&1)), Bound::Included(&1));
    assert_eq!(reverse_bound::<i32>(Bound::Unbounded), Bound::Unbounded);
    assert_eq!(*expect_bound(Some(Bound::Excluded(&7)), "finite"), 7);
    assert_eq!(*expect_bound(Some(Bound::Included(&8)), "finite"), 8);
}
