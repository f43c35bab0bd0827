//! Limits on what may be risked.
pub mod engine;
