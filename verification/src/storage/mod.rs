//! What is kept outside of the process.
pub mod redis;
