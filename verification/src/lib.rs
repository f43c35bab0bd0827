//! Verified core of a paper trader for five-minute BTC binary markets.
pub mod config;
pub mod events;
pub mod json;
pub mod market_data;
pub mod numeric;
pub mod paper;
pub mod probability;
pub mod risk;
pub mod storage;
pub mod strategy;
pub mod text;
pub mod time;
