//! A list of ranges built up one range at a time.

use vstd::prelude::*;

use crate::continuous::ContinuousRange;

verus! {

/// A list of ranges assembled one range at a time.
pub struct RangeBuilder<Idx> {
    ranges: Vec<ContinuousRange<Idx>>,
}

impl<Idx> View for RangeBuilder<Idx> {
    type V = Seq<ContinuousRange<Idx>>;

    closed spec fn view(&self) -> Seq<ContinuousRange<Idx>> {
        self.ranges@
    }
}

impl<Idx> RangeBuilder<Idx> {
    /// A builder that starts from the given ranges.
    pub fn new(ranges: Vec<ContinuousRange<Idx>>) -> (r: Self)
        ensures
            r@ == ranges@,
    {
        RangeBuilder { ranges }
    }

    /// Adds a range after those already there.
    pub fn add(&mut self, range: ContinuousRange<Idx>)
        ensures
            final(self)@ == old(self)@.push(range),
    {
        self.ranges.push(range);
    }

    /// The ranges assembled so far, in the order they were given.
    pub fn into_ranges(self) -> (r: Vec<ContinuousRange<Idx>>)
        ensures
            r@ == self@,
    {
        self.ranges
    }
}

impl<Idx> From<ContinuousRange<Idx>> for RangeBuilder<Idx> {
    /// A builder that starts from the single range `r`.
    fn from(r: ContinuousRange<Idx>) -> Self {
        RangeBuilder::new(vec![r])
    }
}

// No result is promised through `From`: two builders that hold the same
// ranges need not be the same value, so no spec function can name the one
// that `from` returns. `RangeBuilder::new` states what the builder holds.
impl<Idx> vstd::std_specs::convert::FromSpecImpl<ContinuousRange<Idx>> for RangeBuilder<Idx> {
    open spec fn obeys_from_spec() -> bool {
        false
    }

    open spec fn from_spec(r: ContinuousRange<Idx>) -> Self {
        choose|b: RangeBuilder<Idx>| b@ == seq![r]
    }
}

} // verus!
