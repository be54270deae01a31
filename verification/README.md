# order_book_api

An order matching engine with a REST front end and a FIX market-data feed.
The engine, the FIX codec and session decisions, the market-data structures
and the execution algorithms are written in Verus: each public function
states what it returns in `requires`/`ensures`, and Verus proves it.

## Layout

- `src/` — the verified library.
  - `engine/` — orders, price levels and books; validation, fees, matching
    with price-time priority, self-trade prevention and time in force; stop
    orders and their trigger engine; the multi-symbol engine.
    `matching_laws.rs`, `priority_laws.rs`, `book_laws.rs` and
    `engine_laws.rs` hold the properties proved across calls (trades respect
    limits and price-time priority, no self-trade, level totals stay the
    remaining quantities, books stay sorted, cancelled orders are gone, ...).
  - `fix/` — FIX message building and parsing (`codec_laws.rs`: written
    fields and built messages read back), market-data and security-list parsing, the session
    state machine, symbol-name mapping.
  - `market/` — ticks, OHLC candles, timeframes, symbols, the bounded tick
    queue, tick distribution bookkeeping and persistence helpers.
  - `algorithms/` — TWAP and VWAP execution and their manager.
  - `api/` — request parameters, time ranges and error answers of the HTTP
    endpoints, stop-order submission, order-book depth.
  - `datasource.rs` — connection, heartbeat and health state of the feed.
  - `decimal.rs`, `text.rs`, `ids.rs`, `clock.rs` — decimals, text helpers,
    identifiers and the clock, over `rust_decimal`, `uuid` and `chrono`.
  - `ring_buffer.rs` — a single-producer ring buffer.
- `tests/` — ordinary Rust tests against the library.
- `app/` — the HTTP server (axum), the FIX TCP session loop and the other
  I/O around the library.
