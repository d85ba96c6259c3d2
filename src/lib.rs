//! Solves the "make ten" puzzle: fill the three operator slots after the four
//! digits of a number with any of `+`, `-`, `*`, `/`, read the result as a
//! postfix expression, and keep every filling whose value is exactly ten.

pub mod error;
pub mod token;
pub mod value;
pub mod evaluate;
pub mod input;
pub mod search;
pub mod render;
