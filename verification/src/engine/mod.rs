//! The order book engine: order and book types, validation, fees, matching,
//! stop orders and their triggers, and the engine that ties them together.
pub mod engine_laws;
pub mod errors;
pub mod fees;
pub mod matching;
pub mod matching_laws;
pub mod orderbook;
pub mod book_laws;
pub mod priority_laws;
pub mod stop_order;
pub mod trigger;
pub mod types;
pub mod validation;

pub use errors::OrderBookError;
pub use fees::{calculate_exchange_profit, calculate_maker_fee, calculate_taker_fee};
pub use matching::{match_order, match_order_at, MatchingError, SelfTradeAction};
pub use orderbook::OrderBookEngine;
pub use validation::validate_order;
