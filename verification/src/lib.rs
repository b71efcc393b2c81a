//! Adds two unsigned machine words and writes the sum as decimal text.

pub mod decimal;
pub mod sum;

pub use sum::{sum_as_string, SumError};
