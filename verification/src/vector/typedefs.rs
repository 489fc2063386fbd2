//! Names for vectors of common element types and sizes.
use vstd::prelude::*;
use crate::vector::Vector;

verus! {

/// Three `usize` elements.
pub type VUsize3 = Vector<usize, 3>;

/// Two `i32` elements.
pub type Vec2i32 = Vector<i32, 2>;

/// Three `i32` elements.
pub type Vec3i32 = Vector<i32, 3>;

/// Four `i32` elements.
pub type Vec4i32 = Vector<i32, 4>;

/// Eight `i32` elements.
pub type Vec8i32 = Vector<i32, 8>;

/// Sixteen `i32` elements.
pub type Vec16i32 = Vector<i32, 16>;

/// Thirty-two `i32` elements.
pub type Vec32i32 = Vector<i32, 32>;

/// Sixty-four `i32` elements.
pub type Vec64i32 = Vector<i32, 64>;

/// Three `bool` elements.
pub type Vec3Bool = Vector<bool, 3>;

} // verus!
