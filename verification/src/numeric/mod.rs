//! Binary floating-point numbers computed on their bit patterns.
pub mod arithmetic;
pub mod decimal;
pub mod double;
mod natural;
pub mod order;
pub mod root;
pub mod rounding;

pub use double::Double;
