//! What generic arithmetic asks of the operators of a scalar type.
//!
//! An operator of a type `T` comes with a condition on its operands
//! (`add_req` for `+`) and, where `T` says so (`obeys_add_spec`), with the
//! value it returns (`add_spec`). A function that chains several operations
//! has to know that each of them accepts its operands. It knows the
//! operands where the operators of `T` return what their specifications
//! say; where they do not, it asks that they accept every operand. A
//! function that uses an operand more than once clones it, and knows its
//! operands only where a clone is equal to the value it was made from.
use vstd::prelude::*;
use vstd::std_specs::convert::FromSpec;
use vstd::std_specs::ops::{AddSpec, DivSpec, MulSpec, NegSpec, SubSpec};
use core::ops::{Add, Div, Mul, Neg, Sub};

verus! {

/// `+` accepts every pair of operands.
pub open spec fn add_total<T: Add<Output = T>>() -> bool {
    forall|x: T, y: T| #[trigger] x.add_req(y)
}

/// `-` accepts every pair of operands.
pub open spec fn sub_total<T: Sub<Output = T>>() -> bool {
    forall|x: T, y: T| #[trigger] x.sub_req(y)
}

/// `*` accepts every pair of operands.
pub open spec fn mul_total<T: Mul<Output = T>>() -> bool {
    forall|x: T, y: T| #[trigger] x.mul_req(y)
}

/// `/` accepts every pair of operands.
pub open spec fn div_total<T: Div<Output = T>>() -> bool {
    forall|x: T, y: T| #[trigger] x.div_req(y)
}

/// The unary `-` accepts every operand.
pub open spec fn neg_total<T: Neg<Output = T>>() -> bool {
    forall|x: T| #[trigger] x.neg_req()
}

/// `z` is a value that `T::default()` may return.
pub open spec fn is_default<T: Default>(z: T) -> bool {
    call_ensures(T::default, (), z)
}

/// The scalar one, converted from the whole number.
pub open spec fn unit<T: From<u8>>() -> T {
    T::from_spec(1u8)
}

/// The conversion of a small whole number to `T` returns what its
/// specification says.
pub open spec fn unit_known<T: From<u8>>() -> bool {
    <T as FromSpec<u8>>::obeys_from_spec()
}

/// A clone of a `T` is equal to the value it was made from.
pub open spec fn clone_exact<T: Clone>() -> bool {
    forall|a: T, b: T| #[trigger] call_ensures(T::clone, (&a,), b) ==> a == b
}

/// `o` may be what the conversion of the whole number one to `T` returns:
/// the scalar one where the conversion is known, any scalar where it is
/// not.
pub open spec fn is_unit<T: From<u8>>(o: T) -> bool {
    unit_known::<T>() ==> o == unit::<T>()
}

} // verus!
