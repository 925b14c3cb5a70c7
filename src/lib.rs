//! Small text and arithmetic helpers with machine-checked contracts.

pub mod arith;
pub mod words;

pub use arith::sum;
pub use words::first_word;
