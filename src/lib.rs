//! A register machine together with a bijective numbering of its programs.
//!
//! The evaluator runs a program of increment, decrement-or-branch and halt
//! instructions against a map of arbitrary-precision registers. The codec
//! maps a program to a list of natural numbers and a list to a single
//! natural number, using the pairing function `2^x * (2y + 1)`, and back.

pub mod bignum;
pub mod pairing;
pub mod program;
pub mod machine;
