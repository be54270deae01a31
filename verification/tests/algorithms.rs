use order_book_api::algorithms::manager::AlgorithmManager;
use order_book_api::algorithms::twap::{AlgorithmStatus, TwapAlgorithm};
use order_book_api::algorithms::vwap::{VolumeProfile, VwapAlgorithm};
use order_book_api::decimal::Dec;
use order_book_api::engine::orderbook::OrderBookEngine;
use order_book_api::engine::types::{Order, OrderSide, OrderType};
use rust_decimal::Decimal;

fn d(m: i128, s: u32) -> Dec {
    Dec::new(m, s)
}

fn dec(x: Dec) -> Decimal {
    Decimal::from_i128_with_scale(x.mantissa(), x.scale())
}

const START: i64 = 1_704_879_000_000; // 2024-01-10 09:30 UTC
const HOUR: i64 = 3_600_000;

fn twap() -> TwapAlgorithm {
    TwapAlgorithm::new(
        "TEST".to_string(),
        OrderSide::Buy,
        "user1".to_string(),
        d(1000, 0),
        START,
        START + HOUR,
        60,
    )
}

fn vwap() -> VwapAlgorithm {
    VwapAlgorithm::new(
        "TEST".to_string(),
        OrderSide::Buy,
        "user1".to_string(),
        d(1000, 0),
        START,
        START + 6 * HOUR,
    )
    .unwrap()
}

#[test]
fn test_twap_creation() {
    let twap = twap();
    assert_eq!(dec(twap.total_quantity), Decimal::from(1000));
    assert_eq!(dec(twap.executed_quantity), Decimal::ZERO);
    assert_eq!(twap.status, AlgorithmStatus::Pending);
}

#[test]
fn test_twap_completion() {
    let mut twap = twap();
    twap.start();
    assert!(twap.record_fill(d(1000, 0), d(100, 0)));
    assert_eq!(twap.status, AlgorithmStatus::Completed);
    assert_eq!(dec(twap.executed_quantity), Decimal::from(1000));
}

#[test]
fn twap_target_scales_the_total() {
    let twap = twap();
    assert_eq!(dec(twap.target_quantity(d(5, 1)).unwrap()), Decimal::from(500));
    assert_eq!(dec(twap.target_quantity(d(0, 0)).unwrap()), Decimal::ZERO);
}

#[test]
fn twap_slices_what_it_is_behind() {
    let mut twap = twap();
    twap.start();
    assert!(twap.slice_due(START + HOUR / 2));
    assert!(twap.slice_for_target(START, d(0, 0)).is_none());
    let order = twap.slice_for_target(START + HOUR / 2, d(500, 0)).unwrap();
    assert_eq!(dec(order.quantity), Decimal::from(500));
    assert_eq!(order.order_type, OrderType::Market);
    assert_eq!(twap.slices_completed, 1);
    assert!(!twap.slice_due(START + HOUR));
    assert_eq!(twap.status, AlgorithmStatus::Completed);
}

#[test]
fn test_volume_profile_creation() {
    let profile = VolumeProfile::us_equity_default();
    assert!(profile.len() > 0);
    let open_vol = profile.volume_at(9 * HOUR as u32 + 30 * 60_000);
    let midday_vol = profile.volume_at(12 * HOUR as u32);
    assert!(dec(open_vol) > dec(midday_vol));
    assert_eq!(dec(open_vol), Decimal::from_i128_with_scale(8, 2));
    assert_eq!(dec(midday_vol), Decimal::from_i128_with_scale(2, 2));
}

#[test]
fn volume_profile_covers_the_afternoon_until_the_close() {
    let profile = VolumeProfile::us_equity_default();
    let min = 60_000u32;
    let at = |h: u32, m: u32| h * 60 * min + m * min;
    assert_eq!(dec(profile.volume_at(at(9, 30))), Decimal::from_i128_with_scale(8, 2));
    assert_eq!(dec(profile.volume_at(at(12, 0))), Decimal::from_i128_with_scale(2, 2));
    assert_eq!(dec(profile.volume_at(at(15, 55))), Decimal::from_i128_with_scale(10, 2));
    assert_eq!(dec(profile.volume_at(at(9, 0))), Decimal::from_i128_with_scale(2, 2));
    assert_eq!(dec(profile.volume_at(at(15, 10))), Decimal::from_i128_with_scale(25, 3));
    let afternoon = profile.cumulative_volume(at(15, 0), at(15, 25)).unwrap();
    assert_eq!(dec(afternoon), Decimal::from_i128_with_scale(15, 2));
    let day = profile.cumulative_volume(0, at(23, 59)).unwrap();
    assert_eq!(dec(day), Decimal::from_i128_with_scale(228, 2));
}

#[test]
fn vwap_window_past_midnight_is_accepted() {
    let evening = START + 13 * HOUR + HOUR / 2; // 23:00 UTC
    let v = VwapAlgorithm::new(
        "TEST".to_string(),
        OrderSide::Buy,
        "user1".to_string(),
        d(1000, 0),
        evening,
        evening + 11 * HOUR,
    )
    .unwrap();
    assert_eq!(dec(v.total_quantity), Decimal::from(1000));
    assert_eq!(v.status, AlgorithmStatus::Pending);
    assert_eq!(dec(v.executed_quantity), Decimal::ZERO);
    assert!(dec(v.target_at(evening + 11 * HOUR)) > Decimal::ZERO);
    let wrap = VolumeProfile::us_equity_default().cumulative_volume(20 * 60 * 60_000, 9 * 60 * 60_000 + 35 * 60_000);
    assert_eq!(dec(wrap.unwrap()), Decimal::from_i128_with_scale(14, 2));
}

#[test]
fn test_vwap_creation() {
    let vwap = vwap();
    assert_eq!(dec(vwap.total_quantity), Decimal::from(1000));
    assert_eq!(vwap.status, AlgorithmStatus::Pending);
}

#[test]
fn test_vwap_calculation() {
    let mut vwap = vwap();
    vwap.start();
    assert!(vwap.record_fill(d(100, 0), d(50, 0)));
    assert!(vwap.record_fill(d(200, 0), d(51, 0)));
    assert!(dec(vwap.achieved_vwap) > Decimal::ZERO);
    assert_eq!(dec(vwap.executed_quantity), Decimal::from(300));
    let expected = Decimal::from(15200) / Decimal::from(300);
    assert_eq!(dec(vwap.achieved_vwap), expected);
}

#[test]
fn vwap_target_reaches_the_total_by_the_end() {
    let vwap = vwap();
    assert_eq!(dec(vwap.target_at(START - 1)), Decimal::ZERO);
    let last = vwap.target_at(START + 6 * HOUR);
    assert!(dec(last) < Decimal::from(1001));
    assert!(dec(last) > Decimal::from(900));
}

fn seller_engine() -> OrderBookEngine {
    let mut engine = OrderBookEngine::new();
    let ask = Order::new(
        "TEST".to_string(),
        OrderSide::Sell,
        OrderType::Limit,
        Some(d(100, 0)),
        d(10_000, 0),
        "seller".to_string(),
    );
    engine.add_order(ask).unwrap();
    engine
}

#[test]
fn manager_runs_twap_slices_against_the_engine() {
    let mut engine = seller_engine();
    let mut manager = AlgorithmManager::new();
    let mut algo = twap();
    algo.limit_price = Some(d(100, 0));
    let id = manager.submit_twap(algo).unwrap();
    assert_eq!(manager.get_twap(id).unwrap().unwrap().status, AlgorithmStatus::Running);
    manager.execute_twap_slice(&mut engine, START + HOUR / 2, &vec![d(500, 0)]);
    let after = manager.get_twap(id).unwrap().unwrap();
    assert_eq!(dec(after.executed_quantity), Decimal::from(500));
    assert_eq!(after.slices_completed, 1);
    assert_eq!(engine.get_total_trades(), 1);
}

#[test]
fn manager_pauses_resumes_cancels_and_cleans_up() {
    let mut manager = AlgorithmManager::new();
    let t = manager.submit_twap(twap()).unwrap();
    let v = manager.submit_vwap(vwap()).unwrap();
    assert_eq!(manager.get_total_algorithms().unwrap(), 2);
    manager.pause(t).unwrap();
    assert_eq!(manager.get_twap(t).unwrap().unwrap().status, AlgorithmStatus::Paused);
    manager.resume(t).unwrap();
    assert_eq!(manager.get_twap(t).unwrap().unwrap().status, AlgorithmStatus::Running);
    manager.cancel(v).unwrap();
    assert_eq!(manager.get_vwap(v).unwrap().unwrap().status, AlgorithmStatus::Cancelled);
    let missing = uuid::Uuid::new_v4();
    assert_eq!(manager.pause(missing.as_u128()), Err(format!("Algorithm {} not found", missing)));
    manager.cleanup_finished_algorithms();
    assert_eq!(manager.get_total_algorithms().unwrap(), 1);
    assert!(manager.get_vwap(v).unwrap().is_none());
    assert_eq!(manager.get_all_twap().unwrap().len(), 1);
}

#[test]
fn paused_algorithm_sends_no_slice() {
    let mut engine = seller_engine();
    let mut manager = AlgorithmManager::new();
    let id = manager.submit_vwap(vwap()).unwrap();
    manager.pause(id).unwrap();
    manager.execute_vwap_slice(&mut engine, START + HOUR);
    assert_eq!(engine.get_total_trades(), 0);
    manager.resume(id).unwrap();
    manager.execute_vwap_slice(&mut engine, START + HOUR);
    assert_eq!(engine.get_total_trades(), 1);
    let after = manager.get_vwap(id).unwrap().unwrap();
    assert!(dec(after.executed_quantity) > Decimal::ZERO);
}
