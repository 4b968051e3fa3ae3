//! The text of a range.

use std::fmt::Write;
use vstd::prelude::*;
use vstd::string::StringExecFns;

use crate::continuous::ContinuousRange;

verus! {

/// Relies on `write!` into a `String` with `{:?}`: the text that the value's
/// `Debug` impl writes, `None` where that impl reports an error. Nothing is
/// assumed of the text.
#[verifier::external_body]
fn debug_text<T: std::fmt::Debug>(value: &T) -> Option<String> {
    let mut text = String::new();
    match write!(text, "{:?}", value) {
        Ok(()) => Some(text),
        Err(_) => None,
    }
}

impl<Idx> ContinuousRange<Idx> {
    /// The text of the range around the texts `start` and `end` of its
    /// values: `[]`, `start` (for a single value), `[start..end]`,
    /// `(start..end)`, `(start..end]`, `[start..end)`, `[start..)`,
    /// `(start..)`, `(..end]`, `(..end)` or `(..)`.
    pub open spec fn text_spec(self, start: Seq<char>, end: Seq<char>) -> Seq<char> {
        match self {
            ContinuousRange::Empty => seq!['[', ']'],
            ContinuousRange::Single(_) => start,
            ContinuousRange::Inclusive(_, _) => seq!['['] + start + seq!['.', '.'] + end + seq![']'],
            ContinuousRange::Exclusive(_, _) => seq!['('] + start + seq!['.', '.'] + end + seq![')'],
            ContinuousRange::StartExclusive(_, _) => seq!['('] + start + seq!['.', '.'] + end + seq![']'],
            ContinuousRange::EndExclusive(_, _) => seq!['['] + start + seq!['.', '.'] + end + seq![')'],
            ContinuousRange::From(_) => seq!['['] + start + seq!['.', '.', ')'],
            ContinuousRange::FromExclusive(_) => seq!['('] + start + seq!['.', '.', ')'],
            ContinuousRange::To(_) => seq!['(', '.', '.'] + end + seq![']'],
            ContinuousRange::ToExclusive(_) => seq!['(', '.', '.'] + end + seq![')'],
            ContinuousRange::Full => seq!['(', '.', '.', ')'],
        }
    }

    /// The text of the range, given the texts of its start value (or single
    /// value) and of its end value; a text the range has no use for is left
    /// out.
    pub fn render(&self, start: &str, end: &str) -> (r: String)
        ensures
            r@ == self.text_spec(start@, end@),
    {
        proof {
            reveal_strlit("[");
            reveal_strlit("]");
            reveal_strlit("(");
            reveal_strlit(")");
            reveal_strlit("..");
            reveal_strlit("[]");
            reveal_strlit("(..)");
        }
        let mut r = String::new();
        match self {
            ContinuousRange::Empty => r.append("[]"),
            ContinuousRange::Single(_) => r.append(start),
            ContinuousRange::Full => r.append("(..)"),
            ContinuousRange::Inclusive(_, _) => {
                r.append("[");
                r.append(start);
                r.append("..");
                r.append(end);
                r.append("]");
            },
            ContinuousRange::Exclusive(_, _) => {
                r.append("(");
                r.append(start);
                r.append("..");
                r.append(end);
                r.append(")");
            },
            ContinuousRange::StartExclusive(_, _) => {
                r.append("(");
                r.append(start);
                r.append("..");
                r.append(end);
                r.append("]");
            },
            ContinuousRange::EndExclusive(_, _) => {
                r.append("[");
                r.append(start);
                r.append("..");
                r.append(end);
                r.append(")");
            },
            ContinuousRange::From(_) => {
                r.append("[");
                r.append(start);
                r.append("..");
                r.append(")");
            },
            ContinuousRange::FromExclusive(_) => {
                r.append("(");
                r.append(start);
                r.append("..");
                r.append(")");
            },
            ContinuousRange::To(_) => {
                r.append("(");
                r.append("..");
                r.append(end);
                r.append("]");
            },
            ContinuousRange::ToExclusive(_) => {
                r.append("(");
                r.append("..");
                r.append(end);
                r.append(")");
            },
        }
        proof {
            assert(r@ =~= self.text_spec(start@, end@));
        }
        r
    }
}

impl<Idx: std::fmt::Debug> ContinuousRange<Idx> {
    /// The text of the range, each value written by its `Debug` impl:
    /// `[]`, `value`, `[s..e]`, `(s..e)`, `(s..e]`, `[s..e)`, `[s..)`,
    /// `(s..)`, `(..e]`, `(..e)` or `(..)`. `None` where a `Debug` impl
    /// reports an error.
    pub fn to_text(&self) -> (r: Option<String>)
        ensures
            r matches Some(t) ==> exists|s: Seq<char>, e: Seq<char>| t@ == self.text_spec(s, e),
            (*self is Empty || *self is Full) ==> r is Some && r.unwrap()@ == self.text_spec(
                Seq::empty(),
                Seq::empty(),
            ),
    {
        let texts = match self {
            ContinuousRange::Empty | ContinuousRange::Full => (Some(String::new()), Some(String::new())),
            ContinuousRange::Single(v) | ContinuousRange::From(v) | ContinuousRange::FromExclusive(v) => (
                debug_text(v),
                Some(String::new()),
            ),
            ContinuousRange::To(v) | ContinuousRange::ToExclusive(v) => (Some(String::new()), debug_text(v)),
            ContinuousRange::Inclusive(s, e)
            | ContinuousRange::Exclusive(s, e)
            | ContinuousRange::StartExclusive(s, e)
            | ContinuousRange::EndExclusive(s, e) => (debug_text(s), debug_text(e)),
        };
        match texts {
            (Some(s), Some(e)) => {
                let t = self.render(s.as_str(), e.as_str());
                proof {
                    assert(t@ == self.text_spec(s@, e@));
                }
                Some(t)
            },
            _ => None,
        }
    }
}

} // verus!
