//! What the HTTP interface decides apart from the transport: query defaults
//! and their resolution, error statuses and bodies, stop order requests, and
//! the load-test producer's settings.
pub mod book;
pub mod params;
pub mod responses;
pub mod stop_orders;
pub mod testing;
