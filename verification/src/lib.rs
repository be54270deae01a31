//! Order matching engine, FIX market-data parsing and supporting data
//! structures, with their behaviour stated and proved.
pub mod decimal;
pub mod text;
pub mod fix;
pub mod clock;
pub mod market;
pub mod ring_buffer;
pub mod ids;
pub mod engine;
pub mod algorithms;
pub mod api;
pub mod datasource;
