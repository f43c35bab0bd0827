//! Market feeds: their state, their messages and the rules that accept a price.
pub mod binance;
pub mod btc5m_tracker;
pub mod clock_sync;
pub mod normalizer;
pub mod polymarket;
pub mod price_validator;
pub mod reconnect;
pub mod state;
