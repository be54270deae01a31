//! Execution algorithms that slice a large order over time: TWAP evenly in
//! time, VWAP along a historical volume profile.
pub mod manager;
pub mod twap;
pub mod vwap;

pub use twap::{AlgorithmStatus, TwapAlgorithm};
pub use vwap::{VolumeProfile, VwapAlgorithm};
