//! Market data kept for persistence: timeframes, ticks, candles, symbols,
//! and the queue that buffers ticks before they are stored.
pub mod distribution;
pub mod ohlc;
pub mod persister;
pub mod symbol;
pub mod tick;
pub mod tick_queue;
pub mod timeframe;
