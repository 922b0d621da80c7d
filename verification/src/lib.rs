//! Element-wise wrapping addition of 512 bytes at once, on a bit-sliced layout.
//!
//! A [`u8x512`] holds 512 bytes as eight bit-planes of 512 bits each: plane `b`
//! holds bit `b` of every byte. Adding two such values is a ripple-carry adder
//! that runs across the planes with whole-plane `AND`, `OR` and `XOR`, so all 512
//! sums are formed by the same short sequence of wide bitwise operations.
#![allow(non_camel_case_types)]

pub mod adder;
pub mod bits;
pub mod laws;
mod plane;
pub mod render;
pub mod vector;
mod words;

pub use crate::vector::u8x512;
