//! Exact quantum states: qubits, registers and gates over Gaussian integers.
//!
//! A state is held as a vector of complex numbers with integer parts, not all zero,
//! that stands for the unit vector of its direction. Normalizing divides by the
//! greatest common divisor of all parts, so that every direction has exactly one
//! vector and equal states are equal part by part.

pub mod complex;
pub mod error;
pub mod gate;
pub mod matrix;
pub mod number;
pub mod qubit;
pub mod register;
pub mod tensor;
pub mod vector;
