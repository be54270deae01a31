//! cTrader FIX 4.4: message codec, security-list and market-data parsing.
pub mod messages;
pub mod symbol_parser;
pub mod market_tick;
pub mod tick_parser;
pub mod market_data;
pub mod helpers;
pub mod session;
pub mod ws_bridge;
pub mod codec_laws;
