use ranges::ContinuousRange;
use std::fmt;

type R = ContinuousRange<i32>;

#[test]
fn text_of_each_shape() {
    assert_eq!(R::Empty.to_text().unwrap(), "[]");
    assert_eq!(R::Single(7).to_text().unwrap(), "7");
    assert_eq!(R::Inclusive(1, 5).to_text().unwrap(), "[1..5]");
    assert_eq!(R::Exclusive(1, 5).to_text().unwrap(), "(1..5)");
    assert_eq!(R::StartExclusive(1, 5).to_text().unwrap(), "(1..5]");
    assert_eq!(R::EndExclusive(1, 5).to_text().unwrap(), "[1..5)");
    assert_eq!(R::From(-3).to_text().unwrap(), "[-3..)");
    assert_eq!(R::FromExclusive(3).to_text().unwrap(), "(3..)");
    assert_eq!(R::To(3).to_text().unwrap(), "(..3]");
    assert_eq!(R::ToExclusive(3).to_text().unwrap(), "(..3)");
    assert_eq!(R::Full.to_text().unwrap(), "(..)");
}

#[test]
fn conversions_from_std_ranges() {
    let half_open: R = (1..5).into();
    assert_eq!(half_open, R::EndExclusive(1, 5));
    let none: R = (5..5).into();
    assert_eq!(none, R::Empty);
    let closed: R = (1..=5).into();
    assert_eq!(closed, R::Inclusive(1, 5));
    let point: R = (5..=5).into();
    assert_eq!(point, R::Single(5));
    let inverted: R = (6..=5).into();
    assert_eq!(inverted, R::Empty);
    let unit: R = ().into();
    assert_eq!(unit, R::Empty);
    let all: R = (..).into();
    assert_eq!(all, R::Full);
    let from: R = (3..).into();
    assert_eq!(from, R::From(3));
    let below: R = (..3).into();
    assert_eq!(below, R::ToExclusive(3));
    let up_to: R = (..=3).into();
    assert_eq!(up_to, R::To(3));
}

#[test]
fn render_places_the_given_texts() {
    assert_eq!(R::Inclusive(1, 5).render("a", "b"), "[a..b]");
    assert_eq!(R::StartExclusive(1, 5).render("a", "b"), "(a..b]");
    assert_eq!(R::From(1).render("a", "b"), "[a..)");
    assert_eq!(R::ToExclusive(1).render("a", "b"), "(..b)");
    assert_eq!(R::Single(1).render("a", "b"), "a");
    assert_eq!(R::Empty.render("a", "b"), "[]");
    assert_eq!(R::Full.render("a", "b"), "(..)");
}

struct Unprintable;

impl fmt::Debug for Unprintable {
    fn fmt(&self, _f: &mut fmt::Formatter<'_>) -> fmt::Result {
        Err(fmt::Error)
    }
}

#[test]
fn text_of_a_value_that_cannot_be_written() {
    assert_eq!(ContinuousRange::Single(Unprintable).to_text(), None);
    assert_eq!(ContinuousRange::<Unprintable>::Full.to_text(), Some("(..)".to_string()));
}
