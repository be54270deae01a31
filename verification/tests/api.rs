use order_book_api::api::book::book_depth;
use order_book_api::api::params::{
    default_depth, default_limit, default_ohlc_limit, default_tick_limit, microstructure_depth,
    resolve_latest_ohlc_query, resolve_ohlc_query, resolve_tick_query, LatestOhlcQueryParams,
    OhlcQueryParams, QueryError, TickQueryParams,
};
use order_book_api::api::responses::{order_error_status, DatasourceError};
use order_book_api::api::stop_orders::{
    build_stop_order, cancel_stop_order_answer, get_stop_order_answer, submit_stop_order_at,
    SubmitStopOrderRequest,
};
use order_book_api::api::testing::{ProducerState, StartProducerRequest};
use order_book_api::datasource::{ConnectionState, DatasourceManager, HealthState, HeartbeatState};
use order_book_api::decimal::Dec;
use order_book_api::engine::errors::OrderBookError;
use order_book_api::engine::matching::MatchingError;
use order_book_api::engine::orderbook::OrderBookEngine;
use order_book_api::engine::stop_order::{StopOrderStatus, StopOrderType, TriggerCondition};
use order_book_api::engine::types::{Order, OrderSide, OrderType, SelfTradePreventionMode, TimeInForce};
use order_book_api::fix::symbol_parser::SymbolData;
use order_book_api::market::timeframe::Timeframe;

fn d(m: i128, s: u32) -> Dec {
    Dec::new(m, s)
}

const NOW: i64 = 1_704_888_000_000; // 2024-01-10T12:00:00Z

#[test]
fn query_defaults() {
    assert_eq!(default_depth(), 10);
    assert_eq!(default_limit(), 50);
    assert_eq!(default_tick_limit(), 1000);
    assert_eq!(default_ohlc_limit(), 500);
    assert_eq!(microstructure_depth(10), 5);
    assert_eq!(microstructure_depth(3), 3);
}

#[test]
fn tick_query_bounds_default_to_the_last_day() {
    let q = resolve_tick_query(&TickQueryParams { from: None, to: None, limit: 1000 }, NOW)
        .ok()
        .unwrap();
    assert_eq!(q.from_ms, NOW - 86_400_000);
    assert_eq!(q.to_ms, NOW);
    assert_eq!(q.limit, 1000);
    let q = resolve_tick_query(
        &TickQueryParams { from: Some("2024-01-10T00:00:00Z".to_string()), to: None, limit: 5 },
        NOW,
    )
    .ok()
    .unwrap();
    assert_eq!(q.from_ms, NOW - 43_200_000);
}

#[test]
fn ohlc_query_checks_timeframe_then_bounds() {
    let params = OhlcQueryParams {
        timeframe: "2m".to_string(),
        from: Some("junk".to_string()),
        to: None,
        limit: 500,
    };
    match resolve_ohlc_query(&params, NOW) {
        Err(e @ QueryError::InvalidTimeframe(_)) => assert_eq!(
            e.message(),
            "Invalid timeframe '2m'. Valid values: 1m, 5m, 15m, 30m, 1h, 4h, 1d"
        ),
        _ => panic!("expected an invalid timeframe"),
    }
    let params = OhlcQueryParams { timeframe: "1h".to_string(), ..params };
    match resolve_ohlc_query(&params, NOW) {
        Err(e @ QueryError::InvalidFrom(_)) => {
            assert!(e.message().starts_with("Invalid 'from' timestamp: "))
        },
        _ => panic!("expected an invalid from"),
    }
    let params = OhlcQueryParams { from: None, ..params };
    let q = resolve_ohlc_query(&params, NOW).ok().unwrap();
    assert_eq!(q.timeframe, Timeframe::OneHour);
    assert_eq!(q.from_ms, NOW - 604_800_000);
    assert_eq!(q.to_ms, NOW);
    assert!(resolve_latest_ohlc_query(&LatestOhlcQueryParams { timeframe: "4h".to_string() }).is_ok());
    assert!(resolve_latest_ohlc_query(&LatestOhlcQueryParams { timeframe: "4H".to_string() }).is_err());
}

#[test]
fn order_errors_map_to_http_statuses() {
    assert_eq!(order_error_status(&OrderBookError::OrderNotFound(1)), 404);
    assert_eq!(order_error_status(&OrderBookError::DuplicateOrder(1)), 409);
    assert_eq!(order_error_status(&OrderBookError::InvalidPrice("x".to_string())), 400);
    assert_eq!(order_error_status(&OrderBookError::OrderNotActive(1)), 400);
    assert_eq!(
        order_error_status(&OrderBookError::MatchingError(MatchingError::ArithmeticOverflow)),
        500
    );
}

#[test]
fn datasource_errors_distinguish_client_mistakes() {
    let (status, body) =
        DatasourceError::StartFailed("Already connected to FIX server".to_string()).response();
    assert_eq!(status, 400);
    assert_eq!(body.error, "already_connected");
    assert_eq!(body.message, "Already connected to FIX server");
    let (status, body) = DatasourceError::StartFailed("timeout".to_string()).response();
    assert_eq!(status, 500);
    assert_eq!(body.error, "start_failed");
    let (status, body) = DatasourceError::StopFailed("No active connection".to_string()).response();
    assert_eq!(status, 400);
    assert_eq!(body.error, "not_connected");
    let (status, body) = DatasourceError::StopFailed("boom".to_string()).response();
    assert_eq!(status, 500);
    assert_eq!(body.error, "stop_failed");
}

fn request(stop_type: StopOrderType) -> SubmitStopOrderRequest {
    SubmitStopOrderRequest {
        symbol: "AAPL".to_string(),
        user_id: "u1".to_string(),
        side: OrderSide::Sell,
        quantity: d(10, 0),
        trigger_price: d(95, 0),
        trigger_condition: TriggerCondition::AtOrBelow,
        stop_type,
        limit_price: None,
        trail_amount: None,
        trail_percent: None,
        time_in_force: None,
        stp_mode: None,
        post_only: None,
        expire_time: None,
    }
}

#[test]
fn stop_requests_need_their_prices() {
    match build_stop_order(request(StopOrderType::StopLimit), 7, NOW) {
        Err(e) => assert_eq!(e.error, "StopLimit orders require limit_price"),
        Ok(_) => panic!("expected a refusal"),
    }
    match build_stop_order(request(StopOrderType::TrailingStop), 7, NOW) {
        Err(e) => assert_eq!(e.error, "TrailingStop orders require trail_amount or trail_percent"),
        Ok(_) => panic!("expected a refusal"),
    }
    let mut req = request(StopOrderType::TrailingStop);
    req.trail_percent = Some(d(2, 0));
    let stop = build_stop_order(req, 7, NOW).ok().unwrap();
    assert_eq!(stop.id, 7);
    assert_eq!(stop.created_at, NOW);
    assert_eq!(stop.status, StopOrderStatus::Pending);
    assert_eq!(stop.time_in_force, TimeInForce::GTC);
    assert_eq!(stop.stp_mode, SelfTradePreventionMode::NoPrevention);
    assert!(!stop.post_only);
    assert!(stop.highest_price.is_some() && stop.lowest_price.is_some());
    let stop = build_stop_order(request(StopOrderType::StopMarket), 8, NOW).ok().unwrap();
    assert!(stop.highest_price.is_none());
}

#[test]
fn stop_order_endpoints() {
    let mut engine = OrderBookEngine::new();
    let (status, r) = submit_stop_order_at(&mut engine, request(StopOrderType::StopMarket), 42, NOW);
    assert_eq!(status, 201);
    let answer = r.ok().unwrap();
    assert_eq!(answer.stop_order_id, 42);
    assert_eq!(answer.message, "Stop order submitted successfully");
    assert_eq!(engine.get_total_stop_orders(), 1);
    let (status, _) = get_stop_order_answer(&engine, 42);
    assert_eq!(status, 200);
    let (status, r) = cancel_stop_order_answer(&mut engine, 42);
    assert_eq!(status, 200);
    assert_eq!(r.ok().unwrap().status, StopOrderStatus::Cancelled);
    let id = uuid::Uuid::from_u128(42);
    let (status, r) = get_stop_order_answer(&engine, 42);
    assert_eq!(status, 404);
    assert_eq!(r.err().unwrap().error, format!("Stop order {} not found", id));
    let (status, r) = cancel_stop_order_answer(&mut engine, 42);
    assert_eq!(status, 404);
    assert_eq!(
        r.err().unwrap().error,
        format!("Failed to cancel stop order: Order not found: {}", id)
    );
    let (status, _) = submit_stop_order_at(&mut engine, request(StopOrderType::StopLimit), 43, NOW);
    assert_eq!(status, 400);
    assert_eq!(engine.get_total_stop_orders(), 0);
}

#[test]
fn book_depth_lists_best_levels_first() {
    let mut engine = OrderBookEngine::new();
    for (side, price) in [
        (OrderSide::Buy, 99),
        (OrderSide::Buy, 98),
        (OrderSide::Buy, 97),
        (OrderSide::Sell, 101),
        (OrderSide::Sell, 102),
    ] {
        let o = Order::new("X".to_string(), side, OrderType::Limit, Some(d(price, 0)), d(1, 0), "u".to_string());
        engine.add_order(o).unwrap();
    }
    let book = engine.get_order_book("X");
    let (bids, asks) = book_depth(&book, 2);
    assert_eq!(bids.len(), 2);
    assert_eq!(bids[0].price.mantissa(), 99);
    assert_eq!(bids[1].price.mantissa(), 98);
    assert_eq!(bids[0].orders, 1);
    assert_eq!(asks.len(), 2);
    assert_eq!(asks[0].price.mantissa(), 101);
    let (bids, _) = book_depth(&book, 10);
    assert_eq!(bids.len(), 3);
}

#[test]
fn producer_settings() {
    let mut state = ProducerState {
        running: false,
        rate_per_second: 10,
        symbols: vec!["AAPL".to_string()],
        orders_generated: 5,
        errors: 1,
        started_at: None,
    };
    state.start(StartProducerRequest { rate_per_second: Some(100), symbols: None }, NOW);
    assert!(state.running);
    assert_eq!(state.rate_per_second, 100);
    assert_eq!(state.symbols, vec!["AAPL".to_string()]);
    assert_eq!(state.started_at, Some(NOW));
    state.reset_counters();
    assert_eq!(state.orders_generated, 0);
    assert_eq!(state.errors, 0);
    state.stop();
    assert!(!state.running);
}

fn symbols() -> Vec<SymbolData> {
    vec![
        SymbolData { symbol_id: 1, symbol_name: "EURUSD".to_string(), symbol_digits: 5 },
        SymbolData { symbol_id: 41, symbol_name: "XAUUSD".to_string(), symbol_digits: 2 },
    ]
}

#[test]
fn datasource_health_follows_the_heartbeat() {
    let mut m = DatasourceManager::new();
    let h = m.get_health(NOW, "t".to_string());
    assert_eq!(h.status, HealthState::Unhealthy);
    assert_eq!(h.fix_connection, ConnectionState::Disconnected);
    assert_eq!(h.heartbeat_status, HeartbeatState::NotReceived);
    assert!(h.warning.is_none());

    assert!(m.validate_connection_state().is_ok());
    m.reset_connection_state(NOW);
    m.apply_security_list(symbols());
    assert_eq!(m.validate_connection_state(), Err("Already connected to FIX server".to_string()));
    let h = m.get_health(NOW + 5_000, "t".to_string());
    assert_eq!(h.status, HealthState::Degraded);
    assert_eq!(h.warning, Some("No heartbeat received yet".to_string()));
    assert_eq!(h.symbols_count, Some(2));
    assert_eq!(h.uptime_seconds, Some(5));

    m.record_heartbeat(NOW + 10_000);
    let h = m.get_health(NOW + 20_000, "t".to_string());
    assert_eq!(h.status, HealthState::Healthy);
    assert_eq!(h.heartbeat_status, HeartbeatState::Active);
    let h = m.get_health(NOW + 55_000, "t".to_string());
    assert_eq!(h.status, HealthState::Degraded);
    assert_eq!(h.warning, Some("No heartbeat received in 45 seconds".to_string()));
    let h = m.get_health(NOW + 100_000, "t".to_string());
    assert_eq!(h.status, HealthState::Unhealthy);
    assert_eq!(h.heartbeat_status, HeartbeatState::Stale);
}

#[test]
fn datasource_status_and_symbol_names() {
    let mut m = DatasourceManager::new();
    m.reset_connection_state(NOW);
    m.apply_security_list(symbols());
    let s = m.get_status(NOW + 3_000);
    assert!(s.connected);
    assert_eq!(s.total_symbols, 2);
    assert_eq!(s.symbols_subscribed[1].symbol_id, "41");
    assert_eq!(s.uptime_seconds, Some(3));
    assert_eq!(m.get_symbol_name("41"), Some("XAUUSD".to_string()));
    assert_eq!(m.get_symbol_name("2"), None);
    assert_eq!(m.get_symbol_map(), vec![(1, "EURUSD".to_string()), (41, "XAUUSD".to_string())]);
    m.stop().unwrap();
    assert!(!m.get_status(NOW).connected);
    assert_eq!(m.get_symbol_name("1"), Some("EURUSD".to_string()));
    assert_eq!(m.get_subscribed_symbols().len(), 0);
}
