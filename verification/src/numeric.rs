//! Vocabulary for contracts over a generic number type.
//!
//! The image and descriptor code is generic over the number type `T` of a pixel
//! or of a descriptor component and reaches its arithmetic through the operator
//! traits of the standard library. Two things can be said of such a type:
//!
//! * an operator is *total* on `T` when it may be applied to any two values (it
//!   never overflows or traps; true of IEEE numbers and of wrapping or
//!   saturating integers, false of the machine integers);
//! * an operator is *lawful* on `T` when the value it returns is the one its
//!   specification function names (true of the machine integers).
//!
//! A function that chains operations asks either for total operators or for
//! lawful ones together with the statement that each single step is admissible,
//! and it describes its result exactly for every lawful `T`.
use std::ops::{Add, Div, Mul, Neg, Rem, Sub};
use vstd::prelude::*;
use vstd::std_specs::cmp::{PartialOrdIs, PartialOrdSpec};
use vstd::std_specs::ops::{AddSpec, DivSpec, MulSpec, NegSpec, RemSpec, SubSpec};

verus! {

/// A number type that the image pipeline can compute with: it is copied
/// freely, has the four arithmetic operators and negation, and its values can
/// be compared.
pub trait Scalar: Copy + Add<Output = Self> + Sub<Output = Self> + Mul<Output = Self> + Div<
    Output = Self,
> + Neg<Output = Self> + PartialOrd {

}

impl<T> Scalar for T where
    T: Copy + Add<Output = T> + Sub<Output = T> + Mul<Output = T> + Div<Output = T> + Neg<
        Output = T,
    > + PartialOrd,
 {

}

/// Any two values of `T` may be added.
pub open spec fn add_total<T: Add<Output = T>>() -> bool {
    forall|a: T, b: T| #[trigger] a.add_req(b)
}

/// Any two values of `T` may be subtracted.
pub open spec fn sub_total<T: Sub<Output = T>>() -> bool {
    forall|a: T, b: T| #[trigger] a.sub_req(b)
}

/// Any two values of `T` may be multiplied.
pub open spec fn mul_total<T: Mul<Output = T>>() -> bool {
    forall|a: T, b: T| #[trigger] a.mul_req(b)
}

/// Any two values of `T` may be divided.
pub open spec fn div_total<T: Div<Output = T>>() -> bool {
    forall|a: T, b: T| #[trigger] a.div_req(b)
}

/// The remainder of any two values of `T` may be taken.
pub open spec fn rem_total<T: Rem<Output = T>>() -> bool {
    forall|a: T, b: T| #[trigger] a.rem_req(b)
}

/// Any value of `T` may be negated.
pub open spec fn neg_total<T: Neg<Output = T>>() -> bool {
    forall|a: T| #[trigger] a.neg_req()
}

/// No operation of a [`Scalar`] can fail, whatever its operands.
pub open spec fn arithmetic_total<T: Scalar>() -> bool {
    &&& add_total::<T>()
    &&& sub_total::<T>()
    &&& mul_total::<T>()
    &&& div_total::<T>()
    &&& neg_total::<T>()
}

/// Each operator of a [`Scalar`], comparison included, returns the value that
/// its specification function names.
pub open spec fn arithmetic_lawful<T: Scalar>() -> bool {
    &&& T::obeys_add_spec()
    &&& T::obeys_sub_spec()
    &&& T::obeys_mul_spec()
    &&& T::obeys_div_spec()
    &&& T::obeys_neg_spec()
    &&& T::obeys_partial_cmp_spec()
}

/// `a < b` as the comparison operator of `T` specifies it.
pub open spec fn less<T: PartialOrd>(a: T, b: T) -> bool {
    a.is_lt(&b)
}

/// `a <= b` as the comparison operator of `T` specifies it.
pub open spec fn at_most<T: PartialOrd>(a: T, b: T) -> bool {
    a.is_le(&b)
}

/// `a > b` as the comparison operator of `T` specifies it.
pub open spec fn greater<T: PartialOrd>(a: T, b: T) -> bool {
    a.is_gt(&b)
}

/// `a >= b` as the comparison operator of `T` specifies it.
pub open spec fn at_least<T: PartialOrd>(a: T, b: T) -> bool {
    a.is_ge(&b)
}

/// The comparison operators of `T` return what their specification names.
pub open spec fn order_lawful<T: PartialOrd>() -> bool {
    T::obeys_partial_cmp_spec()
}

} // verus!
