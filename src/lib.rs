//! Continuous ranges over an ordered value type: comparison of bounds, the
//! relations of Allen's interval algebra between two ranges, set operations on
//! ranges, and the reduction of a list of ranges to a canonical form.

pub mod bounds;
pub mod continuous;
pub mod laws;
pub mod order;
pub mod range_builder;
pub mod relation;
pub mod simplify;
pub mod text;

pub use bounds::{expect_bound, partial_cmp_bounds, reverse_bound, Bound, BoundOrdering, BoundSide};
pub use continuous::ContinuousRange;
pub use range_builder::RangeBuilder;
pub use relation::RangesRelation;
pub use simplify::simplify_ranges;
