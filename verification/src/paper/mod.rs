//! Paper trading: positions that are opened and closed without money.
pub mod simulator;
pub mod stats;
