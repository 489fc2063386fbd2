//! Capabilities of scalar types.
//!
//! Every trait here names one thing a number can do. Generic code asks for
//! exactly the capabilities it uses; [`Ops`] and [`Float`] bundle the usual
//! sets.
use vstd::prelude::*;
use core::ops::{Add, Div, Mul, Neg, Rem, Sub};
use self::fns::{
    abs::AbsFns, exp::ExpFns, float::FloatFns, log::LogFns, pow::Pow, trig::TrigFns, Ceil, Clamp,
    CubeRoot, Degrees, DivEuclid, Floor, Fract, Hypot, Max, Min, MulAdd, Recip, RemEuclid, Round,
    Signed, SquareRoot, Trunc,
};

pub mod fns;

verus! {

/// The arithmetic operators.
pub trait Ops: Add + Div + Mul + Neg + Rem + Sub + core::marker::Sized {
}

/// Everything a floating-point scalar offers.
pub trait Float:
    Ops
    + TrigFns
    + LogFns
    + FloatFns
    + ExpFns
    + AbsFns
    + CubeRoot
    + Ceil
    + Clamp
    + DivEuclid
    + Floor
    + Fract
    + Hypot
    + Signed
    + Max
    + Min
    + MulAdd
    + Pow
    + Recip
    + RemEuclid
    + Round
    + SquareRoot
    + Degrees
    + Trunc
{
}

} // verus!
