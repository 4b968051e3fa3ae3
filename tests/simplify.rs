use ranges::{simplify_ranges, ContinuousRange, RangesRelation};

fn simplified_ranges<Idx: PartialOrd + Copy>(ranges: Vec<ContinuousRange<Idx>>) -> Vec<ContinuousRange<Idx>> {
    let mut ranges = ranges;
    simplify_ranges(&mut ranges);
    ranges
}

#[test]
fn empty_no_op() {
    let ranges = simplified_ranges::<i32>(vec![]);
    assert_eq!(ranges, vec![]);
}

#[test]
fn remove_empty_range() {
    let ranges = simplified_ranges::<i32>(vec![ContinuousRange::empty()]);
    assert_eq!(ranges, vec![]);
}

#[test]
fn simplify_continuous() {
    let ranges = simplified_ranges::<i32>(vec![ContinuousRange::Inclusive(42, 42)]);
    assert_eq!(ranges, vec![ContinuousRange::Single(42)]);
}

#[test]
fn full_overlaps_everything() {
    let ranges = simplified_ranges::<i32>(vec![
        ContinuousRange::Single(42),
        ContinuousRange::Full,
        ContinuousRange::StartExclusive(1, 8),
    ]);
    assert_eq!(ranges, vec![ContinuousRange::Full]);
}

#[test]
fn order_single() {
    let ranges = simplified_ranges::<i32>(vec![ContinuousRange::single(2), ContinuousRange::single(1)]);
    assert_eq!(ranges, vec![ContinuousRange::single(1), ContinuousRange::single(2)]);
}

#[test]
fn complex() {
    let ranges = simplified_ranges::<i32>(vec![
        ContinuousRange::Single(42),
        ContinuousRange::Single(200),
        ContinuousRange::To(50),
        ContinuousRange::StartExclusive(1, 100),
    ]);
    assert_eq!(ranges, vec![ContinuousRange::To(100), ContinuousRange::Single(200),]);
}

#[test]
fn proptest_repro_1() {
    let ranges = simplified_ranges::<i32>(vec![
        ContinuousRange::Single(0),
        ContinuousRange::Single(0),
        ContinuousRange::Empty,
        ContinuousRange::Empty,
    ]);
    assert_eq!(ranges, vec![ContinuousRange::Single(0)]);
}

#[test]
fn proptest_repro_2() {
    let ranges = simplified_ranges::<i32>(vec![
        ContinuousRange::EndExclusive(0, 203),
        ContinuousRange::Single(203),
    ]);
    assert_eq!(ranges, vec![ContinuousRange::Inclusive(0, 203)]);
}

#[test]
fn empties_among_others_are_all_removed() {
    let ranges = simplified_ranges::<i32>(vec![
        ContinuousRange::Empty,
        ContinuousRange::Single(5),
        ContinuousRange::Exclusive(3, 3),
        ContinuousRange::Single(9),
        ContinuousRange::Inclusive(8, 1),
        ContinuousRange::Empty,
    ]);
    assert_eq!(ranges, vec![ContinuousRange::Single(5), ContinuousRange::Single(9)]);
}

#[test]
fn touching_ranges_are_merged() {
    let ranges = simplified_ranges::<i32>(vec![
        ContinuousRange::StartExclusive(5, 10),
        ContinuousRange::Inclusive(0, 5),
        ContinuousRange::FromExclusive(10),
    ]);
    assert_eq!(ranges, vec![ContinuousRange::From(0)]);
}

#[test]
fn both_excluded_at_one_value_stay_apart() {
    let ranges = simplified_ranges::<i32>(vec![
        ContinuousRange::FromExclusive(5),
        ContinuousRange::ToExclusive(5),
    ]);
    assert_eq!(ranges, vec![ContinuousRange::ToExclusive(5), ContinuousRange::FromExclusive(5)]);
}

#[test]
fn nested_and_equal_starts_are_absorbed() {
    let ranges = simplified_ranges::<i32>(vec![
        ContinuousRange::Inclusive(0, 3),
        ContinuousRange::Inclusive(0, 10),
        ContinuousRange::Exclusive(2, 4),
        ContinuousRange::Inclusive(0, 10),
        ContinuousRange::Single(20),
    ]);
    assert_eq!(ranges, vec![ContinuousRange::Inclusive(0, 10), ContinuousRange::Single(20)]);
}

#[test]
fn simplifying_twice_gives_the_same_result() {
    let once = simplified_ranges::<i32>(vec![
        ContinuousRange::Single(42),
        ContinuousRange::Single(200),
        ContinuousRange::To(50),
        ContinuousRange::StartExclusive(1, 100),
        ContinuousRange::Exclusive(150, 160),
        ContinuousRange::EndExclusive(160, 170),
    ]);
    let twice = simplified_ranges(once.clone());
    assert_eq!(once, twice);
    assert_eq!(
        once,
        vec![ContinuousRange::To(100), ContinuousRange::Exclusive(150, 170), ContinuousRange::Single(200)]
    );
}

#[test]
fn simplified_output_is_canonical() {
    let out = simplified_ranges::<i32>(vec![
        ContinuousRange::Single(7),
        ContinuousRange::Exclusive(-5, 0),
        ContinuousRange::FromExclusive(30),
        ContinuousRange::Inclusive(0, 2),
        ContinuousRange::Single(31),
        ContinuousRange::EndExclusive(10, 12),
        ContinuousRange::Empty,
    ]);
    assert_eq!(
        out,
        vec![
            ContinuousRange::StartExclusive(-5, 2),
            ContinuousRange::Single(7),
            ContinuousRange::EndExclusive(10, 12),
            ContinuousRange::FromExclusive(30),
        ]
    );
    for (i, a) in out.iter().enumerate() {
        assert!(!a.is_empty());
        assert_eq!(a.simplify(), *a);
        for (j, b) in out.iter().enumerate() {
            if i != j {
                assert!(!a.intersects(b));
            }
            if j == i + 1 {
                assert_eq!(a.compare(b), Some(RangesRelation::StrictlyBefore));
            }
        }
    }
}
