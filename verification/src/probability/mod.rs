//! From the state of the BTC market to an expected repricing and its edge.
pub mod edge;
pub mod estimator;
pub mod momentum;
