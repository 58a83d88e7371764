//! The number type of the amplitudes and what is asked of it.
//!
//! What the library computes is stated twice. The relations of this module
//! (`add_gives` and the like) say what an operator of the number type may
//! return; contracts built from them hold for every number type, rounded
//! arithmetic included. Where the operators of a type compute their
//! specification functions (`exact_arithmetic`), the same contracts give
//! each result as a formula.

use core::ops::{Add, Div, Mul, Neg, Sub};
use vstd::prelude::*;
use vstd::std_specs::cmp::{PartialEqSpec, PartialOrdSpec};
use vstd::std_specs::ops::{AddSpec, DivSpec, MulSpec, NegSpec, SubSpec};

verus! {

/// A number type with sign flip, the four arithmetic operators and an order.
/// Every type with these operators is a `Scalar`.
pub trait Scalar: Copy + PartialOrd + Neg<Output = Self> + Add<Output = Self> + Sub<
    Output = Self,
> + Mul<Output = Self> + Div<Output = Self> {

}

impl<T> Scalar for T where
    T: Copy + PartialOrd + Neg<Output = T> + Add<Output = T> + Sub<Output = T> + Mul<
        Output = T,
    > + Div<Output = T>,
 {

}

/// The operators of `T` accept every operand: none overflows and none
/// refuses a divisor. The simulator computes on whatever numbers the gates
/// produce, so it asks this of the type and not of each operand.
pub open spec fn total_arithmetic<T: Scalar>() -> bool {
    &&& forall|a: T| #[trigger] call_requires(T::neg, (a,))
    &&& forall|a: T, b: T| #[trigger] call_requires(T::add, (a, b))
    &&& forall|a: T, b: T| #[trigger] call_requires(T::sub, (a, b))
    &&& forall|a: T, b: T| #[trigger] call_requires(T::mul, (a, b))
    &&& forall|a: T, b: T| #[trigger] call_requires(T::div, (a, b))
}

/// `-a` may give `r`.
pub open spec fn neg_gives<T: Scalar>(a: T, r: T) -> bool {
    call_ensures(T::neg, (a,), r)
}

/// `a + b` may give `r`.
pub open spec fn add_gives<T: Scalar>(a: T, b: T, r: T) -> bool {
    call_ensures(T::add, (a, b), r)
}

/// `a - b` may give `r`.
pub open spec fn sub_gives<T: Scalar>(a: T, b: T, r: T) -> bool {
    call_ensures(T::sub, (a, b), r)
}

/// `a * b` may give `r`.
pub open spec fn mul_gives<T: Scalar>(a: T, b: T, r: T) -> bool {
    call_ensures(T::mul, (a, b), r)
}

/// `a / b` may give `r`.
pub open spec fn div_gives<T: Scalar>(a: T, b: T, r: T) -> bool {
    call_ensures(T::div, (a, b), r)
}

/// `a < b` may give `answer`.
pub open spec fn lt_gives<T: Scalar>(a: T, b: T, answer: bool) -> bool {
    call_ensures(T::lt, (&a, &b), answer)
}

/// `a > b` may give `answer`.
pub open spec fn gt_gives<T: Scalar>(a: T, b: T, answer: bool) -> bool {
    call_ensures(T::gt, (&a, &b), answer)
}

/// `a == b` may give `answer`.
pub open spec fn eq_gives<T: Scalar>(a: T, b: T, answer: bool) -> bool {
    call_ensures(T::eq, (&a, &b), answer)
}

/// The operators of `T` compute their specification functions. Where this
/// holds, every number the simulator computes is given by a formula.
pub open spec fn exact_arithmetic<T: Scalar>() -> bool {
    &&& T::obeys_neg_spec()
    &&& T::obeys_add_spec()
    &&& T::obeys_sub_spec()
    &&& T::obeys_mul_spec()
    &&& T::obeys_div_spec()
    &&& T::obeys_eq_spec()
    &&& T::obeys_partial_cmp_spec()
}

/// The constants the simulator needs in the number type.
#[derive(Debug)]
pub struct Numerics<T> {
    /// The number zero.
    pub zero: T,
    /// The number one.
    pub one: T,
    /// The square root of two, by which a mixing gate divides.
    pub root_two: T,
    /// How far the squared norm may lie from one before the amplitudes
    /// count as drifted.
    pub tolerance: T,
}

} // verus!
