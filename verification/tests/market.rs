use order_book_api::decimal::Dec;
use order_book_api::fix::market_data::MarketTick;
use order_book_api::market::distribution::ConsumerRegistry;
use order_book_api::market::ohlc::OhlcCandle;
use order_book_api::market::persister::{parse_decimal, parse_timestamp, parse_timestamp_at};
use order_book_api::market::symbol::NewSymbol;
use order_book_api::market::tick::NewTick;
use order_book_api::market::tick_queue::{EnqueueOutcome, TickQueue};
use order_book_api::market::timeframe::Timeframe;
use rust_decimal::Decimal;

fn d(m: i128, s: u32) -> Dec {
    Dec::new(m, s)
}

fn dec(x: Dec) -> Decimal {
    Decimal::from_i128_with_scale(x.mantissa(), x.scale())
}

#[test]
fn test_timeframe_as_str() {
    assert_eq!(Timeframe::OneMinute.as_str(), "1m");
    assert_eq!(Timeframe::FiveMinutes.as_str(), "5m");
    assert_eq!(Timeframe::OneHour.as_str(), "1h");
    assert_eq!(Timeframe::OneDay.as_str(), "1d");
}

#[test]
fn test_timeframe_from_str() {
    assert_eq!(Timeframe::from_str("1m"), Some(Timeframe::OneMinute));
    assert_eq!(Timeframe::from_str("5m"), Some(Timeframe::FiveMinutes));
    assert_eq!(Timeframe::from_str("1h"), Some(Timeframe::OneHour));
    assert_eq!(Timeframe::from_str("invalid"), None);
}

#[test]
fn test_timeframe_duration() {
    assert_eq!(Timeframe::OneMinute.duration_seconds(), 60);
    assert_eq!(Timeframe::FiveMinutes.duration_seconds(), 300);
    assert_eq!(Timeframe::OneHour.duration_seconds(), 3600);
    assert_eq!(Timeframe::OneDay.duration_seconds(), 86400);
}

#[test]
fn test_timeframe_all() {
    let all = Timeframe::all();
    assert_eq!(all.len(), 7);
    assert!(all.contains(&Timeframe::OneMinute));
    assert!(all.contains(&Timeframe::OneDay));
}

#[test]
fn timeframe_text_round_trips() {
    for t in Timeframe::all() {
        assert_eq!(Timeframe::from_str(t.as_str()), Some(t));
    }
}

#[test]
fn test_view_name_mapping() {
    assert_eq!(Timeframe::OneMinute.view_name(), "ohlc_1m");
    assert_eq!(Timeframe::FiveMinutes.view_name(), "ohlc_5m");
    assert_eq!(Timeframe::OneDay.view_name(), "ohlc_1d");
}

fn create_test_candle(open: Dec, high: Dec, low: Dec, close: Dec) -> OhlcCandle {
    OhlcCandle {
        id: 1,
        symbol_id: 1,
        symbol_name: "EURUSD".to_string(),
        timeframe: Timeframe::OneMinute,
        open_time: 0,
        close_time: 60_000,
        open_price: open,
        high_price: high,
        low_price: low,
        close_price: close,
        volume: d(1000, 0),
        tick_count: 100,
        created_at: 0,
    }
}

#[test]
fn test_bullish_candle() {
    let candle = create_test_candle(d(11000, 4), d(11010, 4), d(10995, 4), d(11008, 4));
    assert!(candle.is_bullish());
    assert!(!candle.is_bearish());
    assert_eq!(dec(candle.body_size().unwrap()), Decimal::from_i128_with_scale(8, 4));
}

#[test]
fn test_bearish_candle() {
    let candle = create_test_candle(d(11000, 4), d(11005, 4), d(10990, 4), d(10992, 4));
    assert!(!candle.is_bullish());
    assert!(candle.is_bearish());
    assert_eq!(dec(candle.body_size().unwrap()), Decimal::from_i128_with_scale(8, 4));
}

#[test]
fn test_candle_range() {
    let candle = create_test_candle(d(11000, 4), d(11010, 4), d(10990, 4), d(11005, 4));
    assert_eq!(dec(candle.range().unwrap()), Decimal::from_i128_with_scale(20, 4));
}

#[test]
fn test_shadows() {
    let candle = create_test_candle(d(11000, 4), d(11015, 4), d(10985, 4), d(11010, 4));
    assert_eq!(dec(candle.upper_shadow().unwrap()), Decimal::from_i128_with_scale(5, 4));
    assert_eq!(dec(candle.lower_shadow().unwrap()), Decimal::from_i128_with_scale(15, 4));
}

#[test]
fn doji_candle_has_a_tiny_body() {
    let candle = create_test_candle(d(11000, 4), d(11010, 4), d(10990, 4), d(11000, 4));
    assert_eq!(candle.is_doji(), Some(true));
    let candle = create_test_candle(d(11000, 4), d(11010, 4), d(10990, 4), d(11008, 4));
    assert_eq!(candle.is_doji(), Some(false));
}

#[test]
fn test_new_symbol_builder() {
    let symbol = NewSymbol::new(1, "EURUSD".to_string(), 5, d(1, 5))
        .with_description("Euro vs US Dollar".to_string())
        .with_contract_size(d(100000, 0));
    assert_eq!(symbol.symbol_id, 1);
    assert_eq!(symbol.symbol_name, "EURUSD");
    assert_eq!(symbol.digits, 5);
    assert_eq!(dec(symbol.tick_size), Decimal::from_i128_with_scale(1, 5));
    assert_eq!(symbol.description, Some("Euro vs US Dollar".to_string()));
    assert_eq!(dec(symbol.contract_size.unwrap()), Decimal::from_i128_with_scale(100000, 0));
}

#[test]
fn test_tick_spread() {
    let tick = NewTick::new(
        1,
        "EURUSD".to_string(),
        0,
        d(11000, 4),
        d(11005, 4),
        d(1000000, 0),
        d(1000000, 0),
    );
    assert_eq!(dec(tick.spread().unwrap()), Decimal::from_i128_with_scale(5, 4));
}

#[test]
fn test_tick_mid_price() {
    let tick = NewTick::new(
        1,
        "EURUSD".to_string(),
        0,
        d(11000, 4),
        d(11004, 4),
        d(1000000, 0),
        d(1000000, 0),
    );
    assert_eq!(dec(tick.mid_price().unwrap()), Decimal::from_i128_with_scale(11002, 4));
}

#[test]
fn test_parse_decimal() {
    assert_eq!(dec(parse_decimal("1.12345").unwrap()), Decimal::new(112345, 5));
    assert!(parse_decimal("invalid").is_none());
}

#[test]
fn test_parse_timestamp() {
    let result = parse_timestamp("2024-01-10T12:00:00Z");
    assert!(result.is_some());
    let result = parse_timestamp("1704888000000");
    assert!(result.is_some());
}

#[test]
fn timestamps_parse_to_milliseconds() {
    assert_eq!(parse_timestamp_at("2024-01-10T12:00:00Z", 7), Some(1_704_888_000_000));
    assert_eq!(parse_timestamp_at("1704888000000", 7), Some(1_704_888_000_000));
    assert_eq!(parse_timestamp_at("not a time", 7), Some(7));
    assert_eq!(parse_timestamp_at("9223372036854775807", 7), None);
}

fn create_test_tick(symbol_id: &str) -> MarketTick {
    let mut tick = MarketTick::new(symbol_id.to_string());
    tick.bid_price = Some(d(100, 0));
    tick.ask_price = Some(d(101, 0));
    tick
}

#[test]
fn test_queue_creation() {
    let queue = TickQueue::new(1000);
    let stats = queue.stats();
    assert_eq!(stats.current_size, 0);
    assert_eq!(stats.max_size, 1000);
    assert_eq!(stats.total_enqueued, 0);
    assert_eq!(stats.total_flushed, 0);
}

#[test]
fn test_enqueue_and_drain() {
    let mut queue = TickQueue::new(10);
    for i in 0..5 {
        queue.enqueue(create_test_tick(&i.to_string()));
    }
    let stats = queue.stats();
    assert_eq!(stats.current_size, 5);
    assert_eq!(stats.total_enqueued, 5);
    let ticks = queue.drain_all();
    assert_eq!(ticks.len(), 5);
    let stats = queue.stats();
    assert_eq!(stats.current_size, 0);
    assert_eq!(stats.total_flushed, 5);
}

#[test]
fn test_queue_stats_tracking() {
    let mut queue = TickQueue::new(100);
    for _ in 0..3 {
        for i in 0..10 {
            queue.enqueue(create_test_tick(&i.to_string()));
        }
        let _ = queue.drain_all();
    }
    let stats = queue.stats();
    assert_eq!(stats.total_enqueued, 30);
    assert_eq!(stats.total_flushed, 30);
    assert_eq!(stats.current_size, 0);
}

#[test]
fn full_queue_requests_one_emergency_flush() {
    let mut queue = TickQueue::new(2);
    assert_eq!(queue.enqueue(create_test_tick("1")), EnqueueOutcome::Enqueued);
    assert_eq!(queue.enqueue(create_test_tick("2")), EnqueueOutcome::Enqueued);
    assert_eq!(queue.enqueue(create_test_tick("3")), EnqueueOutcome::Full { flush_requested: true });
    assert_eq!(queue.enqueue(create_test_tick("4")), EnqueueOutcome::Full { flush_requested: false });
    let stats = queue.stats();
    assert_eq!(stats.emergency_flushes, 1);
    assert!(stats.is_flushing);
    let drained = queue.drain_all();
    assert_eq!(drained.len(), 2);
    assert_eq!(drained[0].symbol_id, 1);
    assert!(!queue.stats().is_flushing);
}

#[test]
fn stored_tick_keeps_symbol_and_prices() {
    let n = TickQueue::convert_market_tick_to_new_tick(create_test_tick("41"));
    assert_eq!(n.symbol_id, 41);
    assert_eq!(n.symbol_name, "41");
    assert_eq!(dec(n.bid_price), Decimal::from(100));
    assert_eq!(dec(n.ask_price), Decimal::from(101));
}

#[test]
fn test_distributor_creation() {
    let registry = ConsumerRegistry::new();
    let stats = registry.get_stats();
    assert_eq!(stats.consumer_count, 0);
    assert_eq!(stats.total_distributed, 0);
    assert_eq!(stats.consumers.len(), 0);
}

#[test]
fn test_consumer_registration() {
    let mut registry = ConsumerRegistry::new();
    registry.register("consumer1".to_string());
    registry.register("consumer2".to_string());
    let stats = registry.get_stats();
    assert_eq!(stats.consumer_count, 2);
    assert!(stats.consumers.contains(&"consumer1".to_string()));
    assert!(stats.consumers.contains(&"consumer2".to_string()));
}

#[test]
fn test_consumer_unregistration() {
    let mut registry = ConsumerRegistry::new();
    registry.register("consumer1".to_string());
    assert_eq!(registry.get_stats().consumer_count, 1);
    let removed = registry.unregister("consumer1");
    assert!(removed);
    assert_eq!(registry.get_stats().consumer_count, 0);
    let removed_again = registry.unregister("consumer1");
    assert!(!removed_again);
}

#[test]
fn deliveries_count_one_per_consumer_per_tick() {
    let mut registry = ConsumerRegistry::new();
    registry.register("consumer1".to_string());
    registry.register("consumer2".to_string());
    registry.register("consumer1".to_string());
    registry.record_broadcast();
    assert_eq!(registry.get_stats().total_distributed, 2);
    for _ in 0..5 {
        registry.record_broadcast();
    }
    assert_eq!(registry.get_stats().total_distributed, 12);
}
