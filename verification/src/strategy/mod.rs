//! When to enter a trade: strategies, filters, sessions and the engine.
pub mod divergence;
pub mod engine;
pub mod exhaustion;
pub mod failed_breakout;
pub mod filters;
pub mod session;
pub mod traits;
