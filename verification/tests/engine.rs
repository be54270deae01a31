use order_book_api::decimal::Dec;
use order_book_api::engine::errors::OrderBookError;
use order_book_api::engine::fees::{calculate_exchange_profit, calculate_maker_fee, calculate_taker_fee};
use order_book_api::engine::matching::match_order;
use order_book_api::engine::orderbook::OrderBookEngine;
use order_book_api::engine::stop_order::{StopOrder, StopOrderStatus, StopOrderType, TriggerCondition};
use order_book_api::engine::trigger::TriggerEngine;
use order_book_api::engine::types::{
    Order, OrderBook, OrderSide, OrderStatus, OrderType, PriceLevel, SelfTradePreventionMode,
    TimeInForce,
};
use order_book_api::engine::validation::{validate_expire_time, validate_price, validate_quantity};
use rust_decimal::Decimal;

fn d(m: i128, s: u32) -> Dec {
    Dec::new(m, s)
}

fn dec(x: Dec) -> Decimal {
    Decimal::from_i128_with_scale(x.mantissa(), x.scale())
}

fn same(a: Dec, b: Dec) -> bool {
    dec(a) == dec(b)
}

fn setup_orderbook_with_order(side: OrderSide, price: Dec, quantity: Dec) -> (OrderBook, u128) {
    let mut orderbook = OrderBook::new("AAPL".to_string());
    let user_id = match side {
        OrderSide::Buy => "buyer_resting",
        OrderSide::Sell => "seller_resting",
    };
    let order = Order::new(
        "AAPL".to_string(),
        side,
        OrderType::Limit,
        Some(price),
        quantity,
        user_id.to_string(),
    );
    let order_id = order.id;
    orderbook.orders.insert(order.id, order.duplicate());
    let mut level = PriceLevel::new(price);
    assert!(level.add_order(order.id, quantity));
    match side {
        OrderSide::Buy => orderbook.bids.push(level),
        OrderSide::Sell => orderbook.asks.push(level),
    }
    (orderbook, order_id)
}

fn setup_orderbook_with_ask(price: Dec, quantity: Dec) -> (OrderBook, u128) {
    setup_orderbook_with_order(OrderSide::Sell, price, quantity)
}

fn setup_orderbook_with_bid(price: Dec, quantity: Dec) -> (OrderBook, u128) {
    setup_orderbook_with_order(OrderSide::Buy, price, quantity)
}

fn limit(side: OrderSide, price: Dec, quantity: Dec, user: &str) -> Order {
    Order::new("AAPL".to_string(), side, OrderType::Limit, Some(price), quantity, user.to_string())
}

#[test]
fn test_simple_match() {
    let (mut orderbook, _) = setup_orderbook_with_ask(d(15000, 2), d(100, 0));
    let mut buy_order = limit(OrderSide::Buy, d(15000, 2), d(50, 0), "buyer1");
    let (trades, cancelled_orders) = match_order(&mut orderbook, &mut buy_order).unwrap();
    assert_eq!(trades.len(), 1);
    assert!(same(trades[0].quantity, d(50, 0)));
    assert!(same(trades[0].price, d(15000, 2)));
    assert!(buy_order.is_filled());
    assert_eq!(cancelled_orders.len(), 0);
}

#[test]
fn test_full_fill_removes_from_orders_map() {
    let (mut orderbook, resting_order_id) = setup_orderbook_with_ask(d(15000, 2), d(100, 0));
    let mut buy_order = limit(OrderSide::Buy, d(15000, 2), d(100, 0), "buyer1");
    let (trades, _) = match_order(&mut orderbook, &mut buy_order).unwrap();
    assert_eq!(trades.len(), 1);
    assert!(orderbook.orders.get(&resting_order_id).is_none());
    assert!(orderbook.asks.is_empty());
}

#[test]
fn test_partial_fill_keeps_order_in_map() {
    let (mut orderbook, resting_order_id) = setup_orderbook_with_ask(d(15000, 2), d(100, 0));
    let mut buy_order = limit(OrderSide::Buy, d(15000, 2), d(30, 0), "buyer1");
    let (trades, _) = match_order(&mut orderbook, &mut buy_order).unwrap();
    assert_eq!(trades.len(), 1);
    let remaining = orderbook.orders.get(&resting_order_id).unwrap();
    assert!(same(remaining.remaining_quantity().unwrap(), d(70, 0)));
    assert!(!orderbook.asks.is_empty());
}

#[test]
fn level_totals_follow_the_remaining_quantities() {
    let (mut orderbook, _) = setup_orderbook_with_ask(d(15000, 2), d(100, 0));
    let second = limit(OrderSide::Sell, d(15000, 2), d(40, 0), "seller2");
    let second_id = second.id;
    orderbook.orders.insert(second.id, second.duplicate());
    assert!(orderbook.asks[0].add_order(second_id, d(40, 0)));
    let mut buy_order = limit(OrderSide::Buy, d(15000, 2), d(30, 0), "buyer1");
    match_order(&mut orderbook, &mut buy_order).unwrap();
    assert!(same(orderbook.asks[0].total_quantity, d(110, 0)));
    let mut buy_more = limit(OrderSide::Buy, d(15000, 2), d(90, 0), "buyer2");
    match_order(&mut orderbook, &mut buy_more).unwrap();
    assert_eq!(orderbook.asks[0].orders.len(), 1);
    assert!(same(orderbook.asks[0].total_quantity, d(20, 0)));
}

#[test]
fn refused_fill_or_kill_leaves_the_book_as_it_was() {
    let mut engine = OrderBookEngine::new();
    let ask = limit(OrderSide::Sell, d(15000, 2), d(10, 0), "seller1");
    let ask_id = ask.id;
    engine.add_order(ask).unwrap();
    let mut fok = limit(OrderSide::Buy, d(15000, 2), d(20, 0), "buyer1");
    fok.time_in_force = TimeInForce::FOK;
    assert!(engine.add_order(fok).is_err());
    let book = engine.get_order_book("AAPL");
    assert_eq!(book.asks.len(), 1);
    assert!(same(book.asks[0].total_quantity, d(10, 0)));
    let resting = engine.get_order("AAPL", ask_id).unwrap();
    assert!(same(resting.filled_quantity, d(0, 0)));
    assert_eq!(engine.get_total_trades(), 0);
}

#[test]
fn test_sell_order_matching() {
    let (mut orderbook, _) = setup_orderbook_with_bid(d(15000, 2), d(100, 0));
    let mut sell_order = limit(OrderSide::Sell, d(15000, 2), d(50, 0), "seller1");
    let (trades, _) = match_order(&mut orderbook, &mut sell_order).unwrap();
    assert_eq!(trades.len(), 1);
    assert!(same(trades[0].quantity, d(50, 0)));
    assert!(sell_order.is_filled());
}

#[test]
fn test_price_improvement() {
    let (mut orderbook, _) = setup_orderbook_with_ask(d(14800, 2), d(100, 0));
    let mut buy_order = limit(OrderSide::Buy, d(15000, 2), d(50, 0), "buyer1");
    let (trades, _) = match_order(&mut orderbook, &mut buy_order).unwrap();
    assert!(same(trades[0].price, d(14800, 2)));
}

#[test]
fn test_no_match_when_prices_dont_cross() {
    let (mut orderbook, _) = setup_orderbook_with_ask(d(15000, 2), d(100, 0));
    let mut buy_order = limit(OrderSide::Buy, d(14000, 2), d(50, 0), "buyer1");
    let (trades, _) = match_order(&mut orderbook, &mut buy_order).unwrap();
    assert!(trades.is_empty());
    assert!(!buy_order.is_filled());
}

#[test]
fn test_add_and_match_order() {
    let mut engine = OrderBookEngine::new();
    let sell_order = limit(OrderSide::Sell, d(15000, 2), d(100, 0), "seller1");
    let (order, trades) = engine.add_order(sell_order).unwrap();
    assert_eq!(trades.len(), 0);
    assert_eq!(order.status, OrderStatus::New);

    let buy_order = limit(OrderSide::Buy, d(15000, 2), d(50, 0), "buyer1");
    let (order, trades) = engine.add_order(buy_order).unwrap();
    assert_eq!(trades.len(), 1);
    assert!(same(trades[0].quantity, d(50, 0)));
    assert_eq!(order.status, OrderStatus::Filled);
}

#[test]
fn test_cancel_order() {
    let mut engine = OrderBookEngine::new();
    let order = limit(OrderSide::Buy, d(15000, 2), d(100, 0), "user1");
    let order_id = order.id;
    let (_, trades) = engine.add_order(order).unwrap();
    assert_eq!(trades.len(), 0);

    let cancelled = engine.cancel_order("AAPL", order_id).unwrap();
    assert_eq!(cancelled.status, OrderStatus::Cancelled);

    let result = engine.get_order("AAPL", order_id);
    assert!(result.is_err());
}

#[test]
fn cancelled_order_cannot_be_cancelled_again() {
    let mut engine = OrderBookEngine::new();
    let order = limit(OrderSide::Sell, d(101, 0), d(5, 0), "user1");
    let id = order.id;
    engine.add_order(order).unwrap();
    engine.cancel_order("AAPL", id).unwrap();
    match engine.cancel_order("AAPL", id) {
        Err(OrderBookError::OrderNotFound(x)) => assert_eq!(x, id),
        _ => panic!("expected OrderNotFound"),
    }
    assert_eq!(engine.get_total_active_orders(), 0);
}

#[test]
fn trades_come_in_price_priority_at_resting_prices() {
    let mut engine = OrderBookEngine::new();
    engine.add_order(limit(OrderSide::Sell, d(102, 0), d(10, 0), "s1")).unwrap();
    engine.add_order(limit(OrderSide::Sell, d(100, 0), d(10, 0), "s2")).unwrap();
    engine.add_order(limit(OrderSide::Sell, d(101, 0), d(10, 0), "s3")).unwrap();
    let (order, trades) = engine.add_order(limit(OrderSide::Buy, d(101, 0), d(15, 0), "b1")).unwrap();
    assert_eq!(trades.len(), 2);
    assert!(same(trades[0].price, d(100, 0)));
    assert!(same(trades[0].quantity, d(10, 0)));
    assert!(same(trades[1].price, d(101, 0)));
    assert!(same(trades[1].quantity, d(5, 0)));
    assert_eq!(order.status, OrderStatus::Filled);
    let book = engine.get_order_book("AAPL");
    assert_eq!(book.asks.len(), 2);
    assert!(same(book.asks[0].price, d(101, 0)));
    assert!(same(book.asks[1].price, d(102, 0)));
}

#[test]
fn fifo_within_a_price_level() {
    let mut engine = OrderBookEngine::new();
    let first = limit(OrderSide::Buy, d(50, 0), d(3, 0), "first");
    let second = limit(OrderSide::Buy, d(50, 0), d(3, 0), "second");
    let first_id = first.id;
    let second_id = second.id;
    engine.add_order(first).unwrap();
    engine.add_order(second).unwrap();
    let (_, trades) = engine.add_order(limit(OrderSide::Sell, d(50, 0), d(4, 0), "seller")).unwrap();
    assert_eq!(trades.len(), 2);
    assert_eq!(trades[0].buyer_order_id, first_id);
    assert!(same(trades[0].quantity, d(3, 0)));
    assert_eq!(trades[1].buyer_order_id, second_id);
    assert!(same(trades[1].quantity, d(1, 0)));
}

#[test]
fn trade_fees_follow_the_maker_taker_rates() {
    let mut engine = OrderBookEngine::new();
    engine.add_order(limit(OrderSide::Sell, d(15050, 2), d(100, 0), "maker")).unwrap();
    let (_, trades) = engine.add_order(limit(OrderSide::Buy, d(15050, 2), d(50, 0), "taker")).unwrap();
    assert_eq!(trades.len(), 1);
    assert_eq!(dec(trades[0].maker_fee), Decimal::from_i128_with_scale(75250, 4));
    assert_eq!(dec(trades[0].taker_fee), Decimal::from_i128_with_scale(150500, 4));
    let profit = calculate_exchange_profit(&trades).unwrap();
    assert_eq!(dec(profit), Decimal::from_i128_with_scale(225750, 4));
    assert_eq!(engine.get_total_trades(), 1);
    assert_eq!(dec(engine.get_total_volume().unwrap()), Decimal::from_i128_with_scale(7525, 0));
}

#[test]
fn post_only_order_never_takes_liquidity() {
    let mut engine = OrderBookEngine::new();
    engine.add_order(limit(OrderSide::Sell, d(100, 0), d(10, 0), "maker")).unwrap();
    let order = Order::new_with_options(
        "AAPL".to_string(),
        OrderSide::Buy,
        OrderType::Limit,
        Some(d(100, 0)),
        d(5, 0),
        "taker".to_string(),
        TimeInForce::GTC,
        SelfTradePreventionMode::NoPrevention,
        true,
        None,
    );
    match engine.add_order(order) {
        Ok((_, trades)) => assert!(trades.is_empty()),
        Err(_) => {},
    }
    assert_eq!(engine.get_total_trades(), 0);
}

#[test]
fn invalid_quantity_is_refused_by_the_engine() {
    let mut engine = OrderBookEngine::new();
    let r = engine.add_order(limit(OrderSide::Buy, d(100, 0), d(0, 0), "u"));
    assert!(matches!(r, Err(OrderBookError::InvalidQuantity(_))));
    assert_eq!(engine.get_total_active_orders(), 0);
}

#[test]
fn stop_order_fires_after_a_trade_at_its_price() {
    let mut engine = OrderBookEngine::new();
    engine.add_stop_order(test_stop(OrderSide::Buy, d(100, 0), TriggerCondition::AtOrAbove)).unwrap();
    assert_eq!(engine.get_total_stop_orders(), 1);
    engine.add_order(limit(OrderSide::Sell, d(100, 0), d(150, 0), "s")).unwrap();
    engine.add_order(limit(OrderSide::Buy, d(100, 0), d(10, 0), "b")).unwrap();
    assert_eq!(engine.get_total_stop_orders(), 0);
}

fn test_stop(side: OrderSide, trigger_price: Dec, trigger_condition: TriggerCondition) -> StopOrder {
    StopOrder {
        id: uuid::Uuid::new_v4().as_u128(),
        symbol: "TEST".to_string(),
        user_id: "test_user".to_string(),
        trigger_price,
        trigger_condition,
        stop_type: StopOrderType::StopMarket,
        side,
        quantity: d(100, 0),
        limit_price: None,
        trail_amount: None,
        trail_percent: None,
        highest_price: None,
        lowest_price: None,
        created_at: 0,
        expire_time: None,
        status: StopOrderStatus::Pending,
        time_in_force: TimeInForce::GTC,
        stp_mode: SelfTradePreventionMode::NoPrevention,
        post_only: false,
    }
}

#[test]
fn test_add_and_get_stop_order() {
    let mut engine = TriggerEngine::new();
    let stop = test_stop(OrderSide::Buy, d(100, 0), TriggerCondition::AtOrAbove);
    let stop_id = stop.id;
    engine.add_stop_order(stop);
    assert_eq!(engine.get_total_stop_orders(), 1);
    assert!(engine.get_stop_order(stop_id).is_some());
}

#[test]
fn test_cancel_stop_order() {
    let mut engine = TriggerEngine::new();
    let stop = test_stop(OrderSide::Buy, d(100, 0), TriggerCondition::AtOrAbove);
    let stop_id = stop.id;
    engine.add_stop_order(stop);
    assert_eq!(engine.get_total_stop_orders(), 1);
    let cancelled = engine.cancel_stop_order(stop_id);
    assert!(cancelled.is_some());
    assert_eq!(cancelled.unwrap().status, StopOrderStatus::Cancelled);
    assert_eq!(engine.get_total_stop_orders(), 0);
    assert!(engine.get_stop_order(stop_id).is_none());
}

#[test]
fn test_trigger_buy_stop() {
    let mut engine = TriggerEngine::new();
    engine.add_stop_order(test_stop(OrderSide::Buy, d(100, 0), TriggerCondition::AtOrAbove));
    let triggered = engine.on_trade(d(99, 0));
    assert_eq!(triggered.len(), 0);
    assert_eq!(engine.get_total_stop_orders(), 1);
    let triggered = engine.on_trade(d(100, 0));
    assert_eq!(triggered.len(), 1);
    assert_eq!(triggered[0].side, OrderSide::Buy);
    assert_eq!(engine.get_total_stop_orders(), 0);
}

#[test]
fn test_trigger_sell_stop() {
    let mut engine = TriggerEngine::new();
    engine.add_stop_order(test_stop(OrderSide::Sell, d(100, 0), TriggerCondition::AtOrBelow));
    let triggered = engine.on_trade(d(101, 0));
    assert_eq!(triggered.len(), 0);
    let triggered = engine.on_trade(d(100, 0));
    assert_eq!(triggered.len(), 1);
    assert_eq!(triggered[0].side, OrderSide::Sell);
}

#[test]
fn test_get_stop_orders_by_symbol() {
    let mut engine = TriggerEngine::new();
    let stop1 = test_stop(OrderSide::Buy, d(100, 0), TriggerCondition::AtOrAbove);
    let mut stop2 = test_stop(OrderSide::Sell, d(100, 0), TriggerCondition::AtOrBelow);
    stop2.symbol = "OTHER".to_string();
    engine.add_stop_order(stop1);
    engine.add_stop_order(stop2);
    assert_eq!(engine.get_stop_orders_by_symbol("TEST").len(), 1);
    assert_eq!(engine.get_stop_orders_by_symbol("OTHER").len(), 1);
}

#[test]
fn stops_are_kept_by_increasing_trigger_price() {
    let mut engine = TriggerEngine::new();
    engine.add_stop_order(test_stop(OrderSide::Buy, d(105, 0), TriggerCondition::AtOrAbove));
    engine.add_stop_order(test_stop(OrderSide::Buy, d(101, 0), TriggerCondition::AtOrAbove));
    engine.add_stop_order(test_stop(OrderSide::Buy, d(103, 0), TriggerCondition::AtOrAbove));
    let stops = engine.get_stop_orders_by_symbol("TEST");
    assert_eq!(stops.len(), 3);
    assert!(same(stops[0].trigger_price, d(101, 0)));
    assert!(same(stops[1].trigger_price, d(103, 0)));
    assert!(same(stops[2].trigger_price, d(105, 0)));
    let triggered = engine.on_trade(d(103, 0));
    assert_eq!(triggered.len(), 2);
    assert_eq!(engine.get_total_stop_orders(), 1);
}

#[test]
fn test_validate_quantity_positive() {
    assert!(validate_quantity(d(100, 0)).is_ok());
    assert!(validate_quantity(d(1, 3)).is_ok());
}

#[test]
fn test_validate_quantity_invalid() {
    assert!(validate_quantity(d(0, 0)).is_err());
    assert!(validate_quantity(d(-10, 0)).is_err());
    let err = validate_quantity(d(-5, 0)).unwrap_err();
    assert!(err.to_text().contains("-5"));
}

#[test]
fn test_validate_price_limit_order() {
    assert!(validate_price(Some(d(100, 0)), &OrderType::Limit).is_ok());
    assert!(validate_price(None, &OrderType::Limit).is_err());
    assert!(validate_price(Some(d(-50, 0)), &OrderType::Limit).is_err());
}

#[test]
fn test_validate_price_market_order() {
    assert!(validate_price(None, &OrderType::Market).is_ok());
    assert!(validate_price(Some(d(100, 0)), &OrderType::Market).is_ok());
    assert!(validate_price(Some(d(-50, 0)), &OrderType::Market).is_err());
}

#[test]
fn test_validate_expire_time_gtd() {
    assert!(validate_expire_time(&TimeInForce::GTD, None).is_err());
    assert!(validate_expire_time(&TimeInForce::GTD, Some(1_700_000_000_000)).is_ok());
}

#[test]
fn test_validate_expire_time_other_tif() {
    assert!(validate_expire_time(&TimeInForce::GTC, None).is_ok());
    assert!(validate_expire_time(&TimeInForce::IOC, None).is_ok());
    assert!(validate_expire_time(&TimeInForce::FOK, None).is_ok());
    assert!(validate_expire_time(&TimeInForce::DAY, None).is_ok());
}

#[test]
fn test_maker_fee() {
    let fee = calculate_maker_fee(d(10000, 0)).unwrap();
    assert_eq!(dec(fee), Decimal::from_i128_with_scale(1000, 2));
}

#[test]
fn test_taker_fee() {
    let fee = calculate_taker_fee(d(10000, 0)).unwrap();
    assert_eq!(dec(fee), Decimal::from_i128_with_scale(2000, 2));
}

#[test]
fn test_fee_calculation() {
    let trade_value = d(100, 0).mul(d(15050, 2)).unwrap();
    let maker_fee = calculate_maker_fee(trade_value).unwrap();
    let taker_fee = calculate_taker_fee(trade_value).unwrap();
    assert_eq!(dec(maker_fee), Decimal::from_i128_with_scale(1505, 2));
    assert_eq!(dec(taker_fee), Decimal::from_i128_with_scale(3010, 2));
}

#[test]
fn test_error_display() {
    let err = OrderBookError::InvalidPrice("Price must be positive".to_string());
    assert_eq!(err.to_text(), "Invalid price: Price must be positive");
}

#[test]
fn test_error_categories() {
    assert!(OrderBookError::InvalidPrice("test".to_string()).is_validation_error());
    assert!(OrderBookError::OrderNotFound(uuid::Uuid::new_v4().as_u128()).is_state_error());
    assert!(OrderBookError::InsufficientLiquidity.is_trading_error());
}

#[test]
fn order_not_found_message_names_the_id() {
    let id = uuid::Uuid::new_v4();
    let err = OrderBookError::OrderNotFound(id.as_u128());
    assert_eq!(err.to_text(), format!("Order not found: {}", id));
}

#[test]
fn spread_and_mid_price_of_a_book() {
    let mut engine = OrderBookEngine::new();
    engine.add_order(limit(OrderSide::Buy, d(15045, 2), d(500, 0), "b")).unwrap();
    engine.add_order(limit(OrderSide::Sell, d(15055, 2), d(800, 0), "s")).unwrap();
    let book = engine.get_order_book("AAPL");
    assert!(same(book.get_best_bid().unwrap(), d(15045, 2)));
    assert!(same(book.get_best_ask().unwrap(), d(15055, 2)));
    assert!(same(book.get_spread().unwrap(), d(10, 2)));
    assert!(same(book.get_mid_price().unwrap(), d(15050, 2)));
}

fn with_tif(side: OrderSide, price: Dec, quantity: Dec, tif: TimeInForce) -> Order {
    Order::new_with_options(
        "AAPL".to_string(),
        side,
        OrderType::Limit,
        Some(price),
        quantity,
        "taker".to_string(),
        tif,
        SelfTradePreventionMode::NoPrevention,
        false,
        None,
    )
}

#[test]
fn fill_or_kill_is_filled_or_refused() {
    let mut engine = OrderBookEngine::new();
    engine.add_order(limit(OrderSide::Sell, d(100, 0), d(10, 0), "maker")).unwrap();
    let r = engine.add_order(with_tif(OrderSide::Buy, d(100, 0), d(20, 0), TimeInForce::FOK));
    assert!(r.is_err());
    let (order, trades) =
        engine.add_order(with_tif(OrderSide::Buy, d(100, 0), d(5, 0), TimeInForce::FOK)).unwrap();
    assert_eq!(order.status, OrderStatus::Filled);
    assert_eq!(trades.len(), 1);
}

#[test]
fn trades_stay_within_the_limit() {
    let mut engine = OrderBookEngine::new();
    engine.add_order(limit(OrderSide::Sell, d(99, 0), d(1, 0), "m1")).unwrap();
    engine.add_order(limit(OrderSide::Sell, d(101, 0), d(1, 0), "m2")).unwrap();
    let (order, trades) = engine.add_order(limit(OrderSide::Buy, d(100, 0), d(2, 0), "t")).unwrap();
    assert_eq!(trades.len(), 1);
    assert!(same(trades[0].price, d(99, 0)));
    assert_eq!(order.status, OrderStatus::PartiallyFilled);
    let book = engine.get_order_book("AAPL");
    assert!(same(book.get_best_bid().unwrap(), d(100, 0)));
    assert!(same(book.get_best_ask().unwrap(), d(101, 0)));
}

#[test]
fn immediate_or_cancel_remainder_does_not_rest() {
    let mut engine = OrderBookEngine::new();
    engine.add_order(limit(OrderSide::Sell, d(100, 0), d(1, 0), "m")).unwrap();
    let (_, trades) =
        engine.add_order(with_tif(OrderSide::Buy, d(100, 0), d(3, 0), TimeInForce::IOC)).unwrap();
    assert_eq!(trades.len(), 1);
    assert_eq!(engine.get_total_active_orders(), 0);
}
