//! A small mathematics library: capabilities of scalars, vectors of a fixed
//! dimension, quaternions, fractions, compensated arithmetic on pairs of
//! scalars, and the two-argument arctangent of arbitrary-precision numbers.
pub mod double_double;
pub mod easy_big_float;
pub mod fraction;
pub mod quaternion;
pub mod scalar;
pub mod traits;
pub mod vector;
