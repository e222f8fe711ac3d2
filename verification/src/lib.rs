//! Market-data pipeline for a single trading symbol: an order-book state
//! machine, a streaming-connection policy, a rolling feature pipeline, and a
//! prediction-driven signal engine.
//!
//! Prices and sizes are fixed-point integers: a value carries `ATOM_DECIMALS`
//! decimal places, so one atom is `10^-ATOM_DECIMALS` of the quoted unit.
//! Quotients that need sub-atom precision (tick distances, size ratios) are
//! scaled by `FRAC_SCALE`.
use vstd::prelude::*;

pub mod book_ticker;
pub mod connection;
pub mod data_handling;
pub mod decimal;
pub mod exchange_info;
pub mod numeric;
pub mod orderbook;
pub mod requests;
pub mod signal;
pub mod trades;

verus! {

/// Number of most-recent observations over which rolling statistics run,
/// and the length of the forward window used for the training target.
pub const ROLLING_WINDOW: usize = 1000;

/// Prediction tolerance, in ticks, before the first retraining cycle.
pub const MIN_TICKS_FOR_SIGNAL: i64 = 30;

/// Floor for the retrained prediction tolerance, in ticks.
pub const MIN_TOLERANCE_TICKS: i64 = 4;

/// Seconds between retraining cycles.
pub const TRAINING_INTERVAL: u64 = 600;

/// Number of decimal places a fixed-point price or size carries.
pub const ATOM_DECIMALS: u32 = 8;

/// Largest fixed-point price or size the pipeline accepts, in atoms.
pub const ATOM_MAX: u64 = 0x4_0000_0000_0000;

/// Sub-atom scale used for quotient-valued features.
pub const FRAC_SCALE: i128 = 1_000_000;

/// Largest bid/ask size ratio a well-formed observation can carry.
pub const RATIO_BOUND: i128 = 0x400_0000_0000_0000_0000_0000;

/// Largest number of levels a book side may hold when features are computed.
pub const MAX_LEVELS: usize = 0x10_0000;

/// Largest rolling-window length the pipeline accepts.
pub const MAX_WINDOW: usize = 0x10_0000;

} // verus!
