//! What the tasks tell each other.
pub mod bus;
