//! Total orders, and the order of bounds that they give.

use std::cmp::Ordering;
use vstd::prelude::*;
use vstd::std_specs::cmp::PartialOrdSpec;

use crate::bounds::{bound_cmp, bound_value, reversed, Bound, BoundOrdering, BoundSide};
use crate::continuous::{le, lt};

verus! {

/// The ordering of `T` is a total order whose equality is the equality of
/// values: every two values compare, `Equal` means the same value, `Less` one
/// way is `Greater` the other, and `Less` is transitive.
pub open spec fn is_total_order<T: PartialOrd>() -> bool {
    &&& T::obeys_partial_cmp_spec()
    &&& forall|x: T, y: T|
        #![trigger x.partial_cmp_spec(&y)]
        x.partial_cmp_spec(&y) is Some
    &&& forall|x: T, y: T|
        #![trigger x.partial_cmp_spec(&y)]
        x.partial_cmp_spec(&y) == Some(Ordering::Equal) <==> x == y
    &&& forall|x: T, y: T|
        #![trigger x.partial_cmp_spec(&y)]
        x.partial_cmp_spec(&y) == Some(Ordering::Less) <==> y.partial_cmp_spec(&x) == Some(Ordering::Greater)
    &&& forall|x: T, y: T, z: T|
        #![trigger x.partial_cmp_spec(&y), y.partial_cmp_spec(&z)]
        lt(x, y) && lt(y, z) ==> lt(x, z)
}

/// The ordering seen from the other bound.
pub open spec fn flip(o: BoundOrdering) -> BoundOrdering {
    match o {
        BoundOrdering::Meets => BoundOrdering::IsMet,
        BoundOrdering::Less => BoundOrdering::Greater,
        BoundOrdering::Equal => BoundOrdering::Equal,
        BoundOrdering::Greater => BoundOrdering::Less,
        BoundOrdering::IsMet => BoundOrdering::Meets,
    }
}

/// Two values compare one way or the other, or are the same.
pub proof fn lemma_trichotomy<T: PartialOrd>(x: T, y: T)
    requires
        is_total_order::<T>(),
    ensures
        lt(x, y) || x == y || lt(y, x),
        lt(x, y) == (y.partial_cmp_spec(&x) == Some(Ordering::Greater)),
        le(x, y) == (lt(x, y) || x == y),
        le(x, y) == !lt(y, x),
{
    match x.partial_cmp_spec(&y) {
        Some(Ordering::Less) => assert(lt(x, y)),
        Some(Ordering::Equal) => assert(x == y),
        Some(Ordering::Greater) => assert(lt(y, x)),
        None => assert(false),
    }
}

/// Bound `x` (at side `sx`) lies at or before bound `y` (at side `sy`).
pub open spec fn at_or_before<T: PartialOrd>(x: Bound<T>, sx: BoundSide, y: Bound<T>, sy: BoundSide) -> bool {
    bound_cmp(x, sx, y, sy) matches Some(BoundOrdering::Meets | BoundOrdering::Less | BoundOrdering::Equal)
}

/// Bound `x` (at side `sx`) lies strictly before bound `y` (at side `sy`).
pub open spec fn before<T: PartialOrd>(x: Bound<T>, sx: BoundSide, y: Bound<T>, sy: BoundSide) -> bool {
    bound_cmp(x, sx, y, sy) matches Some(BoundOrdering::Meets | BoundOrdering::Less)
}

/// Under a total order every two bounds compare, and the comparison read the
/// other way round is flipped.
pub proof fn lemma_bound_cmp_dual<T: PartialOrd>(x: Bound<T>, sx: BoundSide, y: Bound<T>, sy: BoundSide)
    requires
        is_total_order::<T>(),
    ensures
        bound_cmp(x, sx, y, sy) is Some,
        bound_cmp(y, sy, x, sx) == Some(flip(bound_cmp(x, sx, y, sy).unwrap())),
{
}

/// The order of bounds is transitive.
pub proof fn lemma_bound_trans<T: PartialOrd>(
    x: Bound<T>,
    sx: BoundSide,
    y: Bound<T>,
    sy: BoundSide,
    z: Bound<T>,
    sz: BoundSide,
)
    requires
        is_total_order::<T>(),
    ensures
        at_or_before(x, sx, y, sy) && at_or_before(y, sy, z, sz) ==> at_or_before(x, sx, z, sz),
        before(x, sx, y, sy) && at_or_before(y, sy, z, sz) ==> before(x, sx, z, sz),
        at_or_before(x, sx, y, sy) && before(y, sy, z, sz) ==> before(x, sx, z, sz),
{
}

} // verus!

verus! {

/// Whether `value` lies on the inner side of bound `b` standing at `side`.
pub open spec fn admits<T: PartialOrd>(b: Bound<T>, side: BoundSide, value: T) -> bool {
    match b {
        Bound::Unbounded => true,
        Bound::Included(v) => if side == BoundSide::Start { le(v, value) } else { le(value, v) },
        Bound::Excluded(v) => if side == BoundSide::Start { lt(v, value) } else { lt(value, v) },
    }
}

/// A bound that lies at or before another one on the side of starts admits
/// every value that the other admits; on the side of ends, the other way.
pub proof fn lemma_admits_monotone<T: PartialOrd>(x: Bound<T>, y: Bound<T>, value: T)
    requires
        is_total_order::<T>(),
    ensures
        at_or_before(x, BoundSide::Start, y, BoundSide::Start) && admits(y, BoundSide::Start, value)
            ==> admits(x, BoundSide::Start, value),
        at_or_before(x, BoundSide::End, y, BoundSide::End) && admits(x, BoundSide::End, value)
            ==> admits(y, BoundSide::End, value),
{
}

/// An end that does not lie before a start leaves no gap: every value is
/// admitted by the one or the other.
pub proof fn lemma_no_gap<T: PartialOrd>(e: Bound<T>, s: Bound<T>, value: T)
    requires
        is_total_order::<T>(),
        !(bound_cmp(e, BoundSide::End, s, BoundSide::Start) == Some(BoundOrdering::Less)),
    ensures
        admits(e, BoundSide::End, value) || admits(s, BoundSide::Start, value),
{
    match (e, s) {
        (Bound::Included(v), Bound::Included(w)) | (Bound::Included(v), Bound::Excluded(w))
        | (Bound::Excluded(v), Bound::Included(w)) | (Bound::Excluded(v), Bound::Excluded(w)) => {
            lemma_trichotomy(v, w);
            lemma_trichotomy(v, value);
            lemma_trichotomy(w, value);
            if lt(w, v) && lt(v, value) {
                assert(lt(w, value));
            }
        },
        _ => {},
    }
}

/// A finite bound turned to the other inclusivity and standing at the other
/// side admits exactly the values that the bound does not.
pub proof fn lemma_admits_reversed<T: PartialOrd>(b: Bound<T>, value: T)
    requires
        is_total_order::<T>(),
        !(b is Unbounded),
    ensures
        admits(reversed(b), BoundSide::End, value) == !admits(b, BoundSide::Start, value),
        admits(reversed(b), BoundSide::Start, value) == !admits(b, BoundSide::End, value),
{
    match b {
        Bound::Included(v) => lemma_trichotomy(v, value),
        Bound::Excluded(v) => lemma_trichotomy(v, value),
        Bound::Unbounded => {},
    }
}

/// An end that lies before a start, touching it or not, leaves them no
/// common value.
pub proof fn lemma_apart<T: PartialOrd>(e: Bound<T>, s: Bound<T>, value: T)
    requires
        is_total_order::<T>(),
        before(e, BoundSide::End, s, BoundSide::Start),
    ensures
        !(admits(e, BoundSide::End, value) && admits(s, BoundSide::Start, value)),
{
    match (e, s) {
        (Bound::Included(v), Bound::Included(w)) | (Bound::Included(v), Bound::Excluded(w))
        | (Bound::Excluded(v), Bound::Included(w)) | (Bound::Excluded(v), Bound::Excluded(w)) => {
            lemma_trichotomy(v, w);
            lemma_trichotomy(v, value);
            lemma_trichotomy(w, value);
            if lt(v, w) && lt(w, value) {
                assert(lt(v, value));
            }
            if lt(value, v) && lt(v, w) {
                assert(lt(value, w));
            }
        },
        _ => {},
    }
}

/// An end that does not lie before a start leaves no gap between them:
/// every point lies at or before the end, or at or after the start.
pub proof fn lemma_no_gap_point<T: PartialOrd>(e: Bound<T>, s: Bound<T>, p: Bound<T>, side: BoundSide)
    requires
        is_total_order::<T>(),
        bound_cmp(e, BoundSide::End, s, BoundSide::Start) != Some(BoundOrdering::Less),
    ensures
        at_or_before(p, side, e, BoundSide::End) || at_or_before(s, BoundSide::Start, p, side),
{
    let (ve, vs, vp) = (bound_value(e), bound_value(s), bound_value(p));
    lemma_trichotomy(ve, vs);
    lemma_trichotomy(ve, vp);
    lemma_trichotomy(vs, vp);
}

/// The point just after a finite end is its value with the other
/// inclusivity, standing as a start: the end meets it, nothing lies between
/// them, and it lies at or before every end that lies after the first one.
pub proof fn lemma_point_after_end<T: PartialOrd>(e: Bound<T>, other_end: Bound<T>, s: Bound<T>)
    requires
        is_total_order::<T>(),
    ensures
        !(e is Unbounded) ==> bound_cmp(e, BoundSide::End, reversed(e), BoundSide::Start) == Some(BoundOrdering::Meets),
        !(e is Unbounded) ==> bound_cmp(reversed(e), BoundSide::Start, e, BoundSide::End) == Some(BoundOrdering::IsMet),
        bound_cmp(e, BoundSide::End, other_end, BoundSide::End) == Some(BoundOrdering::Less) ==> !(e is Unbounded)
            && at_or_before(reversed(e), BoundSide::Start, other_end, BoundSide::End),
        bound_cmp(e, BoundSide::End, s, BoundSide::Start) == Some(BoundOrdering::Less) ==> !at_or_before(
            s,
            BoundSide::Start,
            reversed(e),
            BoundSide::Start,
        ),
{
    let (ve, vo, vs) = (bound_value(e), bound_value(other_end), bound_value(s));
    lemma_trichotomy(ve, ve);
    lemma_trichotomy(ve, vo);
    lemma_trichotomy(ve, vs);
}

/// Two bounds on one side that each lie at or before the other are equal.
pub proof fn lemma_bound_antisymmetric<T: PartialOrd>(x: Bound<T>, y: Bound<T>, side: BoundSide)
    requires
        is_total_order::<T>(),
        at_or_before(x, side, y, side),
        at_or_before(y, side, x, side),
    ensures
        x == y,
{
    match (x, y) {
        (Bound::Included(v), Bound::Included(w)) | (Bound::Included(v), Bound::Excluded(w))
        | (Bound::Excluded(v), Bound::Included(w)) | (Bound::Excluded(v), Bound::Excluded(w)) => {
            lemma_trichotomy(v, w);
        },
        _ => {},
    }
}

} // verus!
