//! Exact 32-bit fractions kept in lowest terms, with overflow reported as an
//! error instead of wrapping.

pub mod divisor;
pub mod fractions;
pub mod laws;
pub mod text;

pub use crate::divisor::{highest_divisor, lowest_multiple};
pub use crate::fractions::{Frac32, FracError};
