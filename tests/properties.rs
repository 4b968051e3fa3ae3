use proptest::arbitrary::any;
use proptest::collection;
use proptest::strategy::{BoxedStrategy, Just, Strategy, Union};
use proptest::test_runner::{Config, TestCaseError, TestRunner};
use ranges::{simplify_ranges, ContinuousRange, RangesRelation};

fn range_strategy() -> BoxedStrategy<ContinuousRange<u8>> {
    let with_values = Union::new(vec![
        any::<u8>().prop_map(ContinuousRange::Single).boxed(),
        any::<u8>().prop_map(ContinuousRange::From).boxed(),
        any::<u8>().prop_map(ContinuousRange::FromExclusive).boxed(),
        any::<u8>().prop_map(ContinuousRange::To).boxed(),
        any::<u8>().prop_map(ContinuousRange::ToExclusive).boxed(),
        (any::<u8>(), any::<u8>()).prop_map(|(s, e)| ContinuousRange::Inclusive(s, e)).boxed(),
        (any::<u8>(), any::<u8>()).prop_map(|(s, e)| ContinuousRange::Exclusive(s, e)).boxed(),
        (any::<u8>(), any::<u8>()).prop_map(|(s, e)| ContinuousRange::StartExclusive(s, e)).boxed(),
        (any::<u8>(), any::<u8>()).prop_map(|(s, e)| ContinuousRange::EndExclusive(s, e)).boxed(),
    ]);
    let non_empty = Union::new_weighted(vec![(1, Just(ContinuousRange::Full).boxed()), (9, with_values.boxed())]);
    Union::new_weighted(vec![(1, Just(ContinuousRange::Empty).boxed()), (10, non_empty.boxed())]).boxed()
}

fn runner() -> TestRunner {
    TestRunner::new(Config { cases: 1000, failure_persistence: None, ..Config::default() })
}

fn check(cond: bool, what: &str) -> Result<(), TestCaseError> {
    if cond {
        Ok(())
    } else {
        Err(TestCaseError::fail(what.to_string()))
    }
}

fn covered(ranges: &[ContinuousRange<u8>], v: u8) -> bool {
    ranges.iter().any(|r| r.contains(&v))
}

#[test]
fn simplify_ranges_proptest() {
    runner()
        .run(&collection::vec(range_strategy(), 0..20), |ranges| {
            let mut out = ranges.clone();
            simplify_ranges(&mut out);
            for (i, range) in out.iter().enumerate() {
                check(range.simplify() == *range, "in normal form")?;
                check(!range.is_empty(), "not empty")?;
                for (j, other) in out.iter().enumerate() {
                    if i != j {
                        check(!range.intersects(other), "apart")?;
                    }
                }
                if i + 1 < out.len() {
                    check(range.compare(&out[i + 1]) == Some(RangesRelation::StrictlyBefore), "ordered")?;
                }
            }
            for v in 0..=255u8 {
                check(covered(&out, v) == covered(&ranges, v), "same values")?;
            }
            let mut again = out.clone();
            simplify_ranges(&mut again);
            check(again == out, "idempotent")
        })
        .unwrap();
}

#[test]
fn compare_laws_proptest() {
    runner()
        .run(&(range_strategy(), range_strategy()), |(a, b)| {
            if !a.is_empty() {
                check(a.compare(&a) == Some(RangesRelation::Equal), "reflexive")?;
            }
            let ab = a.compare(&b);
            let ba = b.compare(&a);
            let inverse = ab.map(|r| match r {
                RangesRelation::StrictlyBefore => RangesRelation::StrictlyAfter,
                RangesRelation::StrictlyAfter => RangesRelation::StrictlyBefore,
                RangesRelation::Meets => RangesRelation::IsMet,
                RangesRelation::IsMet => RangesRelation::Meets,
                RangesRelation::Overlaps => RangesRelation::IsOverlapped,
                RangesRelation::IsOverlapped => RangesRelation::Overlaps,
                RangesRelation::Starts => RangesRelation::IsStarted,
                RangesRelation::IsStarted => RangesRelation::Starts,
                RangesRelation::StrictlyContains => RangesRelation::IsStrictlyContained,
                RangesRelation::IsStrictlyContained => RangesRelation::StrictlyContains,
                RangesRelation::Finishes => RangesRelation::IsFinished,
                RangesRelation::IsFinished => RangesRelation::Finishes,
                RangesRelation::Equal => RangesRelation::Equal,
            });
            check(ba == inverse, "symmetric")?;
            check(a.intersects(&b) == b.intersects(&a), "intersects symmetric")?;
            if a.is_empty() == b.is_empty() {
                if let Some(u) = a.union(&b) {
                    check(u.contains_range(&a) && u.contains_range(&b), "union contains both")?;
                }
            }
            let a = a.simplify();
            let b = b.simplify();
            check(
                a.difference(&b).is_none() == (a.compare(&b) == Some(RangesRelation::StrictlyContains)),
                "difference fails inside",
            )
        })
        .unwrap();
}
