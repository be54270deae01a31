//! Matching of an incoming order against the opposite side of a book, with
//! price-time priority, self-trade prevention and the time-in-force rules.
//!
//! The run over one side is stated step by step: `id_visit` says what one
//! resting order does to the run, `ids_run` folds that over the orders of a
//! level, `level_step` adds the clean-up of the level, and `levels_run` folds
//! that over the levels in price order.  `match_outcome` is the whole of
//! `match_order` at a given time.
use std::collections::HashMap;
use vstd::prelude::*;

use crate::decimal::{dec_add, dec_mul, Dec};
use crate::engine::fees::{calculate_maker_fee, calculate_taker_fee, maker_fee, taker_fee};
use crate::engine::types::{
    without_ids, levels_view, remove_ids, BookView, LevelView, Order, OrderBook, OrderSide, OrderStatus,
    PriceLevel, SelfTradePreventionMode, TimeInForce, Trade, TradeContent, trades_content,
};
use crate::ids::{id_text, uuid_text};

verus! {

broadcast use {vstd::std_specs::hash::group_hash_axioms, crate::decimal::group_dec_parts};

/// Errors that can occur while matching an order.
#[derive(Debug, Clone, Copy, PartialEq, Eq, Structural)]
pub enum MatchingError {
    InsufficientLiquidity,
    InvalidPrice,
    InvalidQuantity,
    SelfTrade,
    PostOnlyWouldMatch,
    FillOrKillRejected,
    /// A price level lists an order that the book does not hold.
    OrderNotFound(u128),
    /// A decimal computation left the representable range.
    ArithmeticOverflow,
}

/// The message of a matching error.
pub open spec fn matching_error_text(e: MatchingError) -> Seq<char> {
    match e {
        MatchingError::InsufficientLiquidity => "Insufficient liquidity to fill order"@,
        MatchingError::InvalidPrice => "Invalid order price"@,
        MatchingError::InvalidQuantity => "Invalid order quantity"@,
        MatchingError::SelfTrade => "Self-trade detected"@,
        MatchingError::PostOnlyWouldMatch => "Post-only order would match immediately"@,
        MatchingError::FillOrKillRejected => "Fill-or-kill order cannot be completely filled"@,
        MatchingError::OrderNotFound(id) => "Order not found: "@ + uuid_text(id),
        MatchingError::ArithmeticOverflow => "Decimal arithmetic overflow"@,
    }
}

impl MatchingError {
    /// The error message.
    pub fn to_text(&self) -> (s: String)
        ensures
            s@ == matching_error_text(*self),
    {
        match self {
            MatchingError::InsufficientLiquidity => String::from_str(
                "Insufficient liquidity to fill order",
            ),
            MatchingError::InvalidPrice => String::from_str("Invalid order price"),
            MatchingError::InvalidQuantity => String::from_str("Invalid order quantity"),
            MatchingError::SelfTrade => String::from_str("Self-trade detected"),
            MatchingError::PostOnlyWouldMatch => String::from_str(
                "Post-only order would match immediately",
            ),
            MatchingError::FillOrKillRejected => String::from_str(
                "Fill-or-kill order cannot be completely filled",
            ),
            MatchingError::OrderNotFound(id) => {
                let mut s = String::from_str("Order not found: ");
                let t = id_text(*id);
                s.append(t.as_str());
                s
            },
            MatchingError::ArithmeticOverflow => String::from_str("Decimal arithmetic overflow"),
        }
    }
}

/// What self-trade prevention does with a pair of orders.
#[derive(Debug, Clone, Copy, PartialEq, Eq, Structural)]
pub enum SelfTradeAction {
    Allow,
    CancelResting,
    CancelIncoming,
    CancelBoth,
    Skip,
    DecrementBoth,
}

/// The smaller of two decimals (`Ord::min`: the first unless the second is smaller).
pub open spec fn min_dec(a: Dec, b: Dec) -> Dec {
    if b.value() < a.value() {
        b
    } else {
        a
    }
}

/// The action for an incoming and a resting order: `Allow` between different
/// users, else as the incoming order's mode says (`None` on decimal overflow).
pub open spec fn stp_action(incoming: Order, resting: Order) -> Option<SelfTradeAction> {
    if incoming.user_id@ != resting.user_id@ {
        Some(SelfTradeAction::Allow)
    } else {
        match incoming.stp_mode {
            SelfTradePreventionMode::NoPrevention => Some(SelfTradeAction::Skip),
            SelfTradePreventionMode::CancelResting => Some(SelfTradeAction::CancelResting),
            SelfTradePreventionMode::CancelIncoming => Some(SelfTradeAction::CancelIncoming),
            SelfTradePreventionMode::CancelBoth => Some(SelfTradeAction::CancelBoth),
            SelfTradePreventionMode::CancelSmallest => match (
                incoming.spec_remaining(),
                resting.spec_remaining(),
            ) {
                (Some(a), Some(b)) => Some(
                    if a.value() < b.value() {
                        SelfTradeAction::CancelIncoming
                    } else {
                        SelfTradeAction::CancelResting
                    },
                ),
                _ => None,
            },
            SelfTradePreventionMode::DecrementBoth => Some(SelfTradeAction::DecrementBoth),
        }
    }
}

/// A trade of `quantity` at `price` between a buyer and a seller: its content
/// (fees on `price * quantity`) and both orders after the fill (`None` on
/// decimal overflow).
pub open spec fn trade_outcome(
    symbol: Seq<char>,
    price: Dec,
    quantity: Dec,
    buyer: Order,
    seller: Order,
) -> Option<(TradeContent, Order, Order)> {
    match dec_mul(price, quantity) {
        Some(v) => match (maker_fee(v), taker_fee(v), buyer.spec_fill(quantity), seller.spec_fill(quantity)) {
            (Some(mf), Some(tf), Some(b), Some(s)) => Some(
                (
                    (
                        symbol,
                        price,
                        quantity,
                        buyer.id,
                        seller.id,
                        buyer.user_id@,
                        seller.user_id@,
                        mf,
                        tf,
                    ),
                    b,
                    s,
                ),
            ),
            _ => None,
        },
        None => None,
    }
}

/// What meeting one resting order does: both orders afterwards, the trade if
/// one happened, whether the resting order leaves its level, the ids
/// cancelled, and whether matching stops.
pub struct Touch {
    pub incoming: Order,
    pub resting: Order,
    pub trade: Option<TradeContent>,
    pub remove: bool,
    pub cancel: Seq<u128>,
    pub stop: bool,
}

/// The order with its status set.
pub open spec fn with_status(o: Order, s: OrderStatus) -> Order {
    Order { status: s, ..o }
}

/// Meeting the resting order `rid` (`None` on decimal overflow).
pub open spec fn resting_outcome(
    symbol: Seq<char>,
    price: Dec,
    incoming: Order,
    resting: Order,
    rid: u128,
) -> Option<Touch> {
    match stp_action(incoming, resting) {
        None => None,
        Some(SelfTradeAction::Allow) => match (incoming.spec_remaining(), resting.spec_remaining()) {
            (Some(a), Some(b)) => {
                let q = min_dec(a, b);
                let buy = incoming.side == OrderSide::Buy;
                match trade_outcome(
                    symbol,
                    price,
                    q,
                    if buy { incoming } else { resting },
                    if buy { resting } else { incoming },
                ) {
                    Some((t, b2, s2)) => {
                        let rest2 = if buy { s2 } else { b2 };
                        Some(Touch {
                            incoming: if buy { b2 } else { s2 },
                            resting: rest2,
                            trade: Some(t),
                            remove: rest2.spec_is_filled(),
                            cancel: Seq::empty(),
                            stop: false,
                        })
                    },
                    None => None,
                }
            },
            _ => None,
        },
        Some(SelfTradeAction::Skip) => Some(Touch {
            incoming,
            resting,
            trade: None,
            remove: false,
            cancel: Seq::empty(),
            stop: false,
        }),
        Some(SelfTradeAction::DecrementBoth) => match (incoming.spec_remaining(), resting.spec_remaining()) {
            (Some(a), Some(b)) => {
                let q = min_dec(a, b);
                match (incoming.spec_fill(q), resting.spec_fill(q)) {
                    (Some(i2), Some(r2)) => Some(Touch {
                        incoming: i2,
                        resting: r2,
                        trade: None,
                        remove: r2.spec_is_filled(),
                        cancel: Seq::empty(),
                        stop: false,
                    }),
                    _ => None,
                }
            },
            _ => None,
        },
        Some(SelfTradeAction::CancelResting) => Some(Touch {
            incoming,
            resting: with_status(resting, OrderStatus::Cancelled),
            trade: None,
            remove: true,
            cancel: seq![rid],
            stop: false,
        }),
        Some(SelfTradeAction::CancelIncoming) => Some(Touch {
            incoming: with_status(incoming, OrderStatus::Cancelled),
            resting,
            trade: None,
            remove: false,
            cancel: seq![incoming.id],
            stop: true,
        }),
        Some(SelfTradeAction::CancelBoth) => Some(Touch {
            incoming: with_status(incoming, OrderStatus::Cancelled),
            resting: with_status(resting, OrderStatus::Cancelled),
            trade: None,
            remove: true,
            cancel: seq![incoming.id, rid],
            stop: true,
        }),
    }
}

/// Determine the self-trade prevention action (`None` on decimal overflow).
fn check_self_trade(incoming: &Order, resting: &Order) -> (r: Option<SelfTradeAction>)
    ensures
        r == stp_action(*incoming, *resting),
{
    if incoming.user_id != resting.user_id {
        return Some(SelfTradeAction::Allow);
    }
    match incoming.stp_mode {
        SelfTradePreventionMode::NoPrevention => Some(SelfTradeAction::Skip),
        SelfTradePreventionMode::CancelResting => Some(SelfTradeAction::CancelResting),
        SelfTradePreventionMode::CancelIncoming => Some(SelfTradeAction::CancelIncoming),
        SelfTradePreventionMode::CancelBoth => Some(SelfTradeAction::CancelBoth),
        SelfTradePreventionMode::CancelSmallest => {
            match (incoming.remaining_quantity(), resting.remaining_quantity()) {
                (Some(a), Some(b)) => {
                    if a.lt(&b) {
                        Some(SelfTradeAction::CancelIncoming)
                    } else {
                        Some(SelfTradeAction::CancelResting)
                    }
                },
                _ => None,
            }
        },
        SelfTradePreventionMode::DecrementBoth => Some(SelfTradeAction::DecrementBoth),
    }
}

/// Create a trade between two orders and fill both; on decimal overflow
/// nothing changes and `None` is returned.
fn create_trade(
    symbol: &String,
    price: Dec,
    quantity: Dec,
    buyer_order: &mut Order,
    seller_order: &mut Order,
) -> (t: Option<Trade>)
    ensures
        match trade_outcome(symbol@, price, quantity, *old(buyer_order), *old(seller_order)) {
            Some((c, b, s)) => t matches Some(tr) && tr.content() == c && *final(buyer_order) == b
                && *final(seller_order) == s,
            None => t is None && *final(buyer_order) == *old(buyer_order) && *final(seller_order)
                == *old(seller_order),
        },
{
    let trade_value = match price.mul(quantity) {
        Some(v) => v,
        None => {
            return None;
        },
    };
    let maker_fee = match calculate_maker_fee(trade_value) {
        Some(f) => f,
        None => {
            return None;
        },
    };
    let taker_fee = match calculate_taker_fee(trade_value) {
        Some(f) => f,
        None => {
            return None;
        },
    };
    let mut buyer2 = buyer_order.duplicate();
    let mut seller2 = seller_order.duplicate();
    if !buyer2.fill(quantity) {
        return None;
    }
    if !seller2.fill(quantity) {
        return None;
    }
    let trade = Trade::new(
        symbol.clone(),
        price,
        quantity,
        buyer_order.id,
        seller_order.id,
        buyer_order.user_id.clone(),
        seller_order.user_id.clone(),
        maker_fee,
        taker_fee,
    );
    *buyer_order = buyer2;
    *seller_order = seller2;
    Some(trade)
}

/// How a matching run stands.
#[derive(Debug, Clone, Copy, PartialEq, Eq, Structural)]
pub enum Flow {
    /// Matching goes on.
    Running,
    /// Self-trade prevention cancelled the incoming order: matching stops.
    Stopped,
    /// Matching failed with this error.
    Failed(MatchingError),
}

/// What a run over one side of a book has reached: the levels of that side,
/// the book's orders, the incoming order, the trades and cancelled ids so
/// far, the ids to take off the current level, the indices of the levels
/// left empty, and the flow.
pub struct MatchRun {
    pub levels: Seq<LevelView>,
    pub orders: Map<u128, Order>,
    pub incoming: Order,
    pub trades: Seq<TradeContent>,
    pub cancelled: Seq<u128>,
    pub to_remove: Seq<u128>,
    pub emptied: Seq<usize>,
    pub flow: Flow,
}

/// The result a flow gives: `Ok(stop)` or the error.
pub open spec fn flow_result(f: Flow) -> Result<bool, MatchingError> {
    match f {
        Flow::Running => Ok(false),
        Flow::Stopped => Ok(true),
        Flow::Failed(e) => Err(e),
    }
}

/// The run with its flow set to a failure.
pub open spec fn failed(st: MatchRun, e: MatchingError) -> MatchRun {
    MatchRun { flow: Flow::Failed(e), ..st }
}

/// The incoming order meets the resting order `rid` at `price`.
pub open spec fn id_visit(symbol: Seq<char>, price: Dec, st: MatchRun, rid: u128) -> MatchRun {
    if !st.orders.contains_key(rid) {
        failed(st, MatchingError::OrderNotFound(rid))
    } else {
        match resting_outcome(symbol, price, st.incoming, st.orders[rid], rid) {
            None => failed(st, MatchingError::ArithmeticOverflow),
            Some(t) => MatchRun {
                incoming: t.incoming,
                orders: st.orders.insert(rid, t.resting),
                trades: match t.trade {
                    Some(c) => st.trades.push(c),
                    None => st.trades,
                },
                cancelled: st.cancelled + t.cancel,
                to_remove: if t.remove {
                    st.to_remove.push(rid)
                } else {
                    st.to_remove
                },
                flow: if t.stop {
                    Flow::Stopped
                } else {
                    Flow::Running
                },
                ..st
            },
        }
    }
}

/// One resting order of a level: visited while the run goes on and the
/// incoming order is not filled.
pub open spec fn id_step(symbol: Seq<char>, price: Dec, st: MatchRun, rid: u128) -> MatchRun {
    if st.flow is Running && !st.incoming.spec_is_filled() {
        id_visit(symbol, price, st, rid)
    } else {
        st
    }
}

/// The run after the first `n` resting orders of `ids`.
pub open spec fn ids_run(
    symbol: Seq<char>,
    price: Dec,
    ids: Seq<u128>,
    st: MatchRun,
    n: nat,
) -> MatchRun
    decreases n,
{
    if n == 0 {
        st
    } else {
        id_step(symbol, price, ids_run(symbol, price, ids, st, (n - 1) as nat), ids[n - 1])
    }
}

/// The run's orders, incoming order, trades, cancelled ids and ids to remove
/// are these.
pub open spec fn run_is(
    st: MatchRun,
    orders: Map<u128, Order>,
    incoming: Order,
    trades: Seq<Trade>,
    cancelled: Seq<u128>,
    to_remove: Seq<u128>,
) -> bool {
    &&& st.orders == orders
    &&& st.incoming == incoming
    &&& st.trades == trades_content(trades)
    &&& st.cancelled == cancelled
    &&& st.to_remove == to_remove
}

/// A run that has stopped, failed, or filled the incoming order stays as it is.
pub proof fn lemma_ids_run_settled(
    symbol: Seq<char>,
    price: Dec,
    ids: Seq<u128>,
    st: MatchRun,
    i: nat,
    n: nat,
)
    requires
        i <= n,
        !(ids_run(symbol, price, ids, st, i).flow is Running) || ids_run(
            symbol,
            price,
            ids,
            st,
            i,
        ).incoming.spec_is_filled(),
    ensures
        ids_run(symbol, price, ids, st, n) == ids_run(symbol, price, ids, st, i),
    decreases n - i,
{
    if i < n {
        lemma_ids_run_settled(symbol, price, ids, st, i, (n - 1) as nat);
    }
}

/// Result of meeting one resting order.
enum ProcessResult {
    /// A trade was executed.
    Trade(Trade),
    /// No trade (self-trade prevention skipped or decremented).
    Skip,
    /// The incoming order was cancelled: stop matching.
    CancelIncoming,
    /// A decimal computation overflowed.
    Overflow,
}

/// Meet one resting order: self-trade prevention, then the trade.
fn process_resting_order(
    symbol: &String,
    price: Dec,
    incoming_order: &mut Order,
    resting_order: &mut Order,
    resting_order_id: u128,
    orders_to_remove: &mut Vec<u128>,
    cancelled_orders: &mut Vec<u128>,
) -> (r: ProcessResult)
    ensures
        match resting_outcome(
            symbol@,
            price,
            *old(incoming_order),
            *old(resting_order),
            resting_order_id,
        ) {
            None => r is Overflow,
            Some(t) => {
                &&& *final(incoming_order) == t.incoming
                &&& *final(resting_order) == t.resting
                &&& final(orders_to_remove)@ == (if t.remove {
                    old(orders_to_remove)@.push(resting_order_id)
                } else {
                    old(orders_to_remove)@
                })
                &&& final(cancelled_orders)@ == old(cancelled_orders)@ + t.cancel
                &&& match r {
                    ProcessResult::Trade(tr) => t.trade == Some(tr.content()) && !t.stop,
                    ProcessResult::Skip => t.trade is None && !t.stop,
                    ProcessResult::CancelIncoming => t.trade is None && t.stop,
                    ProcessResult::Overflow => false,
                }
            },
        },
{
    let stp = match check_self_trade(incoming_order, resting_order) {
        Some(a) => a,
        None => {
            return ProcessResult::Overflow;
        },
    };
    match stp {
        SelfTradeAction::Allow => {
            let (a, b) = match (incoming_order.remaining_quantity(), resting_order.remaining_quantity()) {
                (Some(a), Some(b)) => (a, b),
                _ => {
                    return ProcessResult::Overflow;
                },
            };
            let quantity = a.min(b);
            let trade = match incoming_order.side {
                OrderSide::Buy => create_trade(symbol, price, quantity, incoming_order, resting_order),
                OrderSide::Sell => create_trade(
                    symbol,
                    price,
                    quantity,
                    resting_order,
                    incoming_order,
                ),
            };
            match trade {
                Some(t) => {
                    if resting_order.is_filled() {
                        orders_to_remove.push(resting_order_id);
                    }
                    assert(old(cancelled_orders)@ + Seq::<u128>::empty() =~= old(cancelled_orders)@);
                    ProcessResult::Trade(t)
                },
                None => ProcessResult::Overflow,
            }
        },
        SelfTradeAction::Skip => {
            assert(old(cancelled_orders)@ + Seq::<u128>::empty() =~= old(cancelled_orders)@);
            ProcessResult::Skip
        },
        SelfTradeAction::DecrementBoth => {
            let (a, b) = match (incoming_order.remaining_quantity(), resting_order.remaining_quantity()) {
                (Some(a), Some(b)) => (a, b),
                _ => {
                    return ProcessResult::Overflow;
                },
            };
            let qty = a.min(b);
            let mut inc2 = incoming_order.duplicate();
            let mut rest2 = resting_order.duplicate();
            if !inc2.fill(qty) {
                return ProcessResult::Overflow;
            }
            if !rest2.fill(qty) {
                return ProcessResult::Overflow;
            }
            *incoming_order = inc2;
            *resting_order = rest2;
            if resting_order.is_filled() {
                orders_to_remove.push(resting_order_id);
            }
            assert(old(cancelled_orders)@ + Seq::<u128>::empty() =~= old(cancelled_orders)@);
            ProcessResult::Skip
        },
        SelfTradeAction::CancelResting => {
            resting_order.status = OrderStatus::Cancelled;
            orders_to_remove.push(resting_order_id);
            cancelled_orders.push(resting_order_id);
            assert(cancelled_orders@ =~= old(cancelled_orders)@ + seq![resting_order_id]);
            ProcessResult::Skip
        },
        SelfTradeAction::CancelIncoming => {
            incoming_order.status = OrderStatus::Cancelled;
            cancelled_orders.push(incoming_order.id);
            assert(cancelled_orders@ =~= old(cancelled_orders)@ + seq![old(incoming_order).id]);
            ProcessResult::CancelIncoming
        },
        SelfTradeAction::CancelBoth => {
            incoming_order.status = OrderStatus::Cancelled;
            resting_order.status = OrderStatus::Cancelled;
            orders_to_remove.push(resting_order_id);
            cancelled_orders.push(incoming_order.id);
            cancelled_orders.push(resting_order_id);
            assert(cancelled_orders@ =~= old(cancelled_orders)@ + seq![
                old(incoming_order).id,
                resting_order_id,
            ]);
            ProcessResult::CancelIncoming
        },
    }
}

/// Meet the resting order `resting_order_id` of the book's orders.
fn process_single_resting_order(
    symbol: &String,
    orders: &mut HashMap<u128, Order>,
    incoming_order: &mut Order,
    price: Dec,
    resting_order_id: u128,
    orders_to_remove: &mut Vec<u128>,
    trades: &mut Vec<Trade>,
    cancelled_orders: &mut Vec<u128>,
    Ghost(st): Ghost<MatchRun>,
) -> (r: Result<bool, MatchingError>)
    requires
        run_is(
            st,
            old(orders)@,
            *old(incoming_order),
            old(trades)@,
            old(cancelled_orders)@,
            old(orders_to_remove)@,
        ),
    ensures
        ({
            let st2 = id_visit(symbol@, price, st, resting_order_id);
            &&& r == flow_result(st2.flow)
            &&& st2.flow != Flow::Failed(MatchingError::ArithmeticOverflow) ==> run_is(
                st2,
                final(orders)@,
                *final(incoming_order),
                final(trades)@,
                final(cancelled_orders)@,
                final(orders_to_remove)@,
            )
        }),
{
    let mut resting = match orders.get(&resting_order_id) {
        Some(o) => o.duplicate(),
        None => {
            return Err(MatchingError::OrderNotFound(resting_order_id));
        },
    };
    let res = process_resting_order(
        symbol,
        price,
        incoming_order,
        &mut resting,
        resting_order_id,
        orders_to_remove,
        cancelled_orders,
    );
    match res {
        ProcessResult::Overflow => Err(MatchingError::ArithmeticOverflow),
        ProcessResult::Trade(t) => {
            orders.insert(resting_order_id, resting);
            proof {
                assert(trades_content(trades@.push(t)) =~= trades_content(trades@).push(t.content()));
            }
            trades.push(t);
            Ok(false)
        },
        ProcessResult::Skip => {
            orders.insert(resting_order_id, resting);
            Ok(false)
        },
        ProcessResult::CancelIncoming => {
            orders.insert(resting_order_id, resting);
            Ok(true)
        },
    }
}

/// Meet the resting orders `order_ids` of a level in turn, until the incoming
/// order is filled or cancelled.  `Ok(true)` when matching must stop.
fn process_resting_orders(
    symbol: &String,
    orders: &mut HashMap<u128, Order>,
    incoming_order: &mut Order,
    price: Dec,
    order_ids: Vec<u128>,
    orders_to_remove: &mut Vec<u128>,
    trades: &mut Vec<Trade>,
    cancelled_orders: &mut Vec<u128>,
    Ghost(st): Ghost<MatchRun>,
) -> (r: Result<bool, MatchingError>)
    requires
        st.flow is Running,
        run_is(
            st,
            old(orders)@,
            *old(incoming_order),
            old(trades)@,
            old(cancelled_orders)@,
            old(orders_to_remove)@,
        ),
    ensures
        ({
            let st2 = ids_run(symbol@, price, order_ids@, st, order_ids@.len());
            &&& r == flow_result(st2.flow)
            &&& st2.flow != Flow::Failed(MatchingError::ArithmeticOverflow) ==> run_is(
                st2,
                final(orders)@,
                *final(incoming_order),
                final(trades)@,
                final(cancelled_orders)@,
                final(orders_to_remove)@,
            )
        }),
{
    let mut i: usize = 0;
    while i < order_ids.len()
        invariant
            i <= order_ids@.len(),
            ids_run(symbol@, price, order_ids@, st, i as nat).flow is Running,
            run_is(
                ids_run(symbol@, price, order_ids@, st, i as nat),
                orders@,
                *incoming_order,
                trades@,
                cancelled_orders@,
                orders_to_remove@,
            ),
        decreases order_ids.len() - i,
    {
        if incoming_order.is_filled() {
            proof {
                lemma_ids_run_settled(symbol@, price, order_ids@, st, i as nat, order_ids@.len());
            }
            return Ok(false);
        }
        let ghost cur = ids_run(symbol@, price, order_ids@, st, i as nat);
        let r = process_single_resting_order(
            symbol,
            orders,
            incoming_order,
            price,
            order_ids[i],
            orders_to_remove,
            trades,
            cancelled_orders,
            Ghost(cur),
        );
        assert(ids_run(symbol@, price, order_ids@, st, (i + 1) as nat) == id_visit(
            symbol@,
            price,
            cur,
            order_ids@[i as int],
        ));
        match r {
            Err(e) => {
                proof {
                    lemma_ids_run_settled(
                        symbol@,
                        price,
                        order_ids@,
                        st,
                        (i + 1) as nat,
                        order_ids@.len(),
                    );
                }
                return Err(e);
            },
            Ok(true) => {
                proof {
                    lemma_ids_run_settled(
                        symbol@,
                        price,
                        order_ids@,
                        st,
                        (i + 1) as nat,
                        order_ids@.len(),
                    );
                }
                return Ok(true);
            },
            Ok(false) => {},
        }
        i = i + 1;
    }
    Ok(false)
}

/// A run over one level's orders leaves the levels and the emptied list as
/// they were.
pub proof fn lemma_ids_run_frame(
    symbol: Seq<char>,
    price: Dec,
    ids: Seq<u128>,
    st: MatchRun,
    n: nat,
)
    ensures
        ids_run(symbol, price, ids, st, n).levels == st.levels,
        ids_run(symbol, price, ids, st, n).emptied == st.emptied,
    decreases n,
{
    if n > 0 {
        lemma_ids_run_frame(symbol, price, ids, st, (n - 1) as nat);
    }
}

/// The book's orders without the first `n` ids of `rm`.
pub open spec fn cleanup_run(orders: Map<u128, Order>, rm: Seq<u128>, n: nat) -> Map<u128, Order>
    decreases n,
{
    if n == 0 {
        orders
    } else {
        cleanup_run(orders, rm, (n - 1) as nat).remove(rm[n - 1])
    }
}

/// Sum, from zero, of the remaining quantities of the orders the book holds
/// among the first `n` ids (`None` on decimal overflow).
pub open spec fn remaining_sum(ids: Seq<u128>, orders: Map<u128, Order>, n: nat) -> Option<Dec>
    decreases n,
{
    if n == 0 {
        Some(Dec::spec_zero())
    } else {
        match remaining_sum(ids, orders, (n - 1) as nat) {
            None => None,
            Some(acc) => if orders.contains_key(ids[n - 1]) {
                match orders[ids[n - 1]].spec_remaining() {
                    None => None,
                    Some(r) => dec_add(acc, r),
                }
            } else {
                Some(acc)
            },
        }
    }
}

proof fn lemma_remaining_sum_none_stays(ids: Seq<u128>, orders: Map<u128, Order>, i: nat, n: nat)
    requires
        i <= n,
        remaining_sum(ids, orders, i) is None,
    ensures
        remaining_sum(ids, orders, n) is None,
    decreases n - i,
{
    if i < n {
        lemma_remaining_sum_none_stays(ids, orders, i, (n - 1) as nat);
    }
}

/// Whether a level's price is within the incoming order's limit: at most the
/// limit for a buy (any price for a buy without one), at least the limit for
/// a sell (at least zero for a sell without one).
pub open spec fn in_range(price: Dec, limit: Option<Dec>, buy: bool) -> bool {
    if buy {
        match limit {
            Some(l) => price.value() <= l.value(),
            None => true,
        }
    } else {
        match limit {
            Some(l) => price.value() >= l.value(),
            None => price.value() >= 0,
        }
    }
}

/// The clean-up of level `idx` after its orders were met: the ids to remove
/// leave the level and the book, the level's total becomes the sum of the
/// remaining quantities of the orders left on it (so a partial fill lowers
/// it, and an order taken off takes what was left of it), and an emptied
/// level is noted.
pub open spec fn level_cleanup(st: MatchRun, idx: int) -> MatchRun {
    let lv = st.levels[idx];
    let m = cleanup_run(st.orders, st.to_remove, st.to_remove.len());
    let ids = without_ids(lv.1, st.to_remove);
    match remaining_sum(ids, m, ids.len()) {
        None => failed(st, MatchingError::ArithmeticOverflow),
        Some(t) => {
            let lv2 = (lv.0, ids, t);
            MatchRun {
                levels: st.levels.update(idx, lv2),
                orders: m,
                emptied: if lv2.1.len() == 0 {
                    st.emptied.push(idx as usize)
                } else {
                    st.emptied
                },
                ..st
            }
        },
    }
}

/// Matching at level `idx`: its orders are met oldest first, then the level
/// is cleaned up (unless matching failed).
pub open spec fn level_visit(symbol: Seq<char>, st: MatchRun, idx: int) -> MatchRun {
    let lv = st.levels[idx];
    let st1 = ids_run(symbol, lv.0, lv.1, MatchRun { to_remove: Seq::empty(), ..st }, lv.1.len());
    if st1.flow is Failed {
        st1
    } else {
        level_cleanup(st1, idx)
    }
}

/// Level `idx` is visited while the run goes on, the incoming order is not
/// filled, and the level's price is within the limit.
pub open spec fn level_step(
    symbol: Seq<char>,
    limit: Option<Dec>,
    buy: bool,
    st: MatchRun,
    idx: int,
) -> MatchRun {
    if st.flow is Running && !st.incoming.spec_is_filled() && in_range(st.levels[idx].0, limit, buy) {
        level_visit(symbol, st, idx)
    } else {
        st
    }
}

/// Index of the level visited at step `k`: lowest price first for a buy
/// (against the asks), highest first for a sell (against the bids).
pub open spec fn level_index(buy: bool, len: nat, k: nat) -> int {
    if buy {
        k as int
    } else {
        len - 1 - k
    }
}

/// The run after the first `n` steps over `len` levels.
pub open spec fn levels_run(
    symbol: Seq<char>,
    limit: Option<Dec>,
    buy: bool,
    len: nat,
    st: MatchRun,
    n: nat,
) -> MatchRun
    decreases n,
{
    if n == 0 {
        st
    } else {
        let prev = levels_run(symbol, limit, buy, len, st, (n - 1) as nat);
        level_step(symbol, limit, buy, prev, level_index(buy, len, (n - 1) as nat))
    }
}

/// The levels among the first `n` that were not left empty, in order.
pub open spec fn keep_levels(levels: Seq<LevelView>, emptied: Seq<usize>, n: nat) -> Seq<LevelView>
    decreases n,
{
    if n == 0 {
        Seq::empty()
    } else {
        let prev = keep_levels(levels, emptied, (n - 1) as nat);
        if emptied.contains((n - 1) as usize) {
            prev
        } else {
            prev.push(levels[n - 1])
        }
    }
}

/// A run at its start.
pub open spec fn side_start(levels: Seq<LevelView>, orders: Map<u128, Order>, incoming: Order) -> MatchRun {
    MatchRun {
        levels,
        orders,
        incoming,
        trades: Seq::empty(),
        cancelled: Seq::empty(),
        to_remove: Seq::empty(),
        emptied: Seq::empty(),
        flow: Flow::Running,
    }
}

/// The whole run of an incoming order over one side of a book.
pub open spec fn side_run(
    symbol: Seq<char>,
    limit: Option<Dec>,
    buy: bool,
    levels: Seq<LevelView>,
    orders: Map<u128, Order>,
    incoming: Order,
) -> MatchRun {
    levels_run(symbol, limit, buy, levels.len(), side_start(levels, orders, incoming), levels.len())
}

/// The side's levels after a run: without the emptied levels, unless it failed.
pub open spec fn side_levels(st: MatchRun) -> Seq<LevelView> {
    if st.flow is Failed {
        st.levels
    } else {
        keep_levels(st.levels, st.emptied, st.levels.len())
    }
}

/// A run that has stopped, failed, or filled the incoming order stays as it is.
pub proof fn lemma_levels_run_settled(
    symbol: Seq<char>,
    limit: Option<Dec>,
    buy: bool,
    len: nat,
    st: MatchRun,
    i: nat,
    n: nat,
)
    requires
        i <= n,
        !(levels_run(symbol, limit, buy, len, st, i).flow is Running) || levels_run(
            symbol,
            limit,
            buy,
            len,
            st,
            i,
        ).incoming.spec_is_filled(),
    ensures
        levels_run(symbol, limit, buy, len, st, n) == levels_run(symbol, limit, buy, len, st, i),
    decreases n - i,
{
    if i < n {
        lemma_levels_run_settled(symbol, limit, buy, len, st, i, (n - 1) as nat);
    }
}

/// Whether `i` is listed.
fn contains_index(v: &Vec<usize>, i: usize) -> (b: bool)
    ensures
        b == v@.contains(i),
{
    let mut k: usize = 0;
    while k < v.len()
        invariant
            k <= v@.len(),
            forall|j: int| 0 <= j < k ==> v@[j] != i,
        decreases v.len() - k,
    {
        if v[k] == i {
            return true;
        }
        k = k + 1;
    }
    false
}

/// Remove level `idx`'s listed orders from it and from the book, set its
/// total to the remaining quantity of the orders left on it, and note the
/// level if it is left empty.  `false` on decimal overflow.
fn cleanup_and_mark_empty(
    levels: &mut Vec<PriceLevel>,
    orders: &mut HashMap<u128, Order>,
    idx: usize,
    orders_to_remove: Vec<u128>,
    empty_price_levels: &mut Vec<usize>,
) -> (ok: bool)
    requires
        idx < old(levels)@.len(),
    ensures
        final(levels)@.len() == old(levels)@.len(),
        ({
            let lv = levels_view(old(levels)@)[idx as int];
            let m = cleanup_run(old(orders)@, orders_to_remove@, orders_to_remove@.len());
            let ids = without_ids(lv.1, orders_to_remove@);
            match remaining_sum(ids, m, ids.len()) {
                None => !ok,
                Some(t) => {
                    let lv2 = (lv.0, ids, t);
                    &&& ok
                    &&& levels_view(final(levels)@) == levels_view(old(levels)@).update(
                        idx as int,
                        lv2,
                    )
                    &&& final(orders)@ == m
                    &&& final(empty_price_levels)@ == (if lv2.1.len() == 0 {
                        old(empty_price_levels)@.push(idx)
                    } else {
                        old(empty_price_levels)@
                    })
                },
            }
        }),
{
    let ghost lv = levels_view(levels@)[idx as int];
    let mut level = levels[idx].duplicate();
    level.orders = remove_ids(&level.orders, &orders_to_remove);
    let mut j: usize = 0;
    while j < orders_to_remove.len()
        invariant
            j <= orders_to_remove@.len(),
            idx < levels@.len(),
            levels@ == old(levels)@,
            empty_price_levels@ == old(empty_price_levels)@,
            lv == levels_view(old(levels)@)[idx as int],
            level.price == lv.0,
            level.orders@ == without_ids(lv.1, orders_to_remove@),
            orders@ == cleanup_run(old(orders)@, orders_to_remove@, j as nat),
        decreases orders_to_remove.len() - j,
    {
        let id = orders_to_remove[j];
        orders.remove(&id);
        j = j + 1;
        proof {
            assert(orders@ =~= cleanup_run(old(orders)@, orders_to_remove@, j as nat));
        }
    }
    let ghost ids = level.orders@;
    let mut total = Dec::zero();
    let mut k: usize = 0;
    while k < level.orders.len()
        invariant
            k <= ids.len(),
            ids == level.orders@,
            idx < levels@.len(),
            levels@ == old(levels)@,
            empty_price_levels@ == old(empty_price_levels)@,
            lv == levels_view(old(levels)@)[idx as int],
            level.price == lv.0,
            level.orders@ == without_ids(lv.1, orders_to_remove@),
            orders@ == cleanup_run(old(orders)@, orders_to_remove@, orders_to_remove@.len()),
            remaining_sum(ids, orders@, k as nat) == Some(total),
        decreases level.orders.len() - k,
    {
        let id = level.orders[k];
        match orders.get(&id) {
            Some(o) => {
                let step = match o.remaining_quantity() {
                    Some(r) => total.add(r),
                    None => None,
                };
                match step {
                    Some(t) => {
                        total = t;
                    },
                    None => {
                        proof {
                            lemma_remaining_sum_none_stays(ids, orders@, (k + 1) as nat, ids.len());
                        }
                        return false;
                    },
                }
            },
            None => {},
        }
        k = k + 1;
    }
    level.total_quantity = total;
    let empty = level.is_empty();
    levels.set(idx, level);
    proof {
        assert(levels_view(levels@) =~= levels_view(old(levels)@).update(
            idx as int,
            (lv.0, without_ids(lv.1, orders_to_remove@), total),
        ));
    }
    if empty {
        empty_price_levels.push(idx);
    }
    true
}

/// The run's levels and emptied levels are these, besides `run_is`.
pub open spec fn side_is(
    st: MatchRun,
    levels: Seq<PriceLevel>,
    orders: Map<u128, Order>,
    incoming: Order,
    trades: Seq<Trade>,
    cancelled: Seq<u128>,
    emptied: Seq<usize>,
) -> bool {
    &&& st.levels == levels_view(levels)
    &&& st.orders == orders
    &&& st.incoming == incoming
    &&& st.trades == trades_content(trades)
    &&& st.cancelled == cancelled
    &&& st.emptied == emptied
}

/// Match at level `idx`: meet its orders, then clean it up.  `Ok(true)`
/// when matching must stop.
fn match_at_price_level(
    symbol: &String,
    levels: &mut Vec<PriceLevel>,
    orders: &mut HashMap<u128, Order>,
    incoming_order: &mut Order,
    idx: usize,
    trades: &mut Vec<Trade>,
    cancelled_orders: &mut Vec<u128>,
    empty_price_levels: &mut Vec<usize>,
    Ghost(st): Ghost<MatchRun>,
) -> (r: Result<bool, MatchingError>)
    requires
        idx < old(levels)@.len(),
        st.flow is Running,
        side_is(
            st,
            old(levels)@,
            old(orders)@,
            *old(incoming_order),
            old(trades)@,
            old(cancelled_orders)@,
            old(empty_price_levels)@,
        ),
    ensures
        final(levels)@.len() == old(levels)@.len(),
        ({
            let st2 = level_visit(symbol@, st, idx as int);
            &&& r == flow_result(st2.flow)
            &&& st2.flow != Flow::Failed(MatchingError::ArithmeticOverflow) ==> side_is(
                st2,
                final(levels)@,
                final(orders)@,
                *final(incoming_order),
                final(trades)@,
                final(cancelled_orders)@,
                final(empty_price_levels)@,
            )
        }),
{
    let level = levels[idx].duplicate();
    let price = level.price;
    let order_ids = level.orders;
    let ghost lv = st.levels[idx as int];
    let ghost st0 = MatchRun { to_remove: Seq::empty(), ..st };
    let mut orders_to_remove: Vec<u128> = Vec::new();
    let should_stop = match process_resting_orders(
        symbol,
        orders,
        incoming_order,
        price,
        order_ids,
        &mut orders_to_remove,
        trades,
        cancelled_orders,
        Ghost(st0),
    ) {
        Ok(b) => b,
        Err(e) => {
            proof {
                lemma_ids_run_frame(symbol@, lv.0, lv.1, st0, lv.1.len());
            }
            return Err(e);
        },
    };
    proof {
        lemma_ids_run_frame(symbol@, lv.0, lv.1, st0, lv.1.len());
    }
    if !cleanup_and_mark_empty(levels, orders, idx, orders_to_remove, empty_price_levels) {
        return Err(MatchingError::ArithmeticOverflow);
    }
    Ok(should_stop)
}

/// The levels not listed as emptied, in order.
fn drop_emptied(levels: &mut Vec<PriceLevel>, emptied: &Vec<usize>)
    ensures
        levels_view(final(levels)@) == keep_levels(
            levels_view(old(levels)@),
            emptied@,
            old(levels)@.len(),
        ),
{
    let mut kept: Vec<PriceLevel> = Vec::new();
    let mut i: usize = 0;
    while i < levels.len()
        invariant
            i <= levels@.len(),
            levels@ == old(levels)@,
            levels_view(kept@) == keep_levels(levels_view(levels@), emptied@, i as nat),
        decreases levels.len() - i,
    {
        if !contains_index(emptied, i) {
            let l = levels[i].duplicate();
            proof {
                assert(levels_view(kept@.push(l)) =~= levels_view(kept@).push(l.view_level()));
            }
            kept.push(l);
        }
        i = i + 1;
    }
    *levels = kept;
}

/// Match a buy order against the asks, lowest price first, up to its limit
/// price (all asks for a buy without one).
fn match_buy_order(book: &mut OrderBook, buy_order: &mut Order) -> (r: Result<
    (Vec<Trade>, Vec<u128>),
    MatchingError,
>)
    ensures
        ({
            let st = side_run(
                old(book).symbol@,
                old(buy_order).price,
                true,
                levels_view(old(book).asks@),
                old(book).orders@,
                *old(buy_order),
            );
            &&& st.flow is Failed ==> r == Err::<(Vec<Trade>, Vec<u128>), MatchingError>(
                st.flow->Failed_0,
            )
            &&& !(st.flow is Failed) ==> (r matches Ok((t, c)) && trades_content(t@) == st.trades
                && c@ == st.cancelled)
            &&& st.flow != Flow::Failed(MatchingError::ArithmeticOverflow) ==> {
                &&& levels_view(final(book).asks@) == side_levels(st)
                &&& final(book).orders@ == st.orders
                &&& *final(buy_order) == st.incoming
            }
            &&& final(book).symbol == old(book).symbol
            &&& final(book).bids == old(book).bids
            &&& final(book).trades == old(book).trades
        }),
{
    let mut trades: Vec<Trade> = Vec::new();
    let mut cancelled_orders: Vec<u128> = Vec::new();
    let mut empty_price_levels: Vec<usize> = Vec::new();
    let limit = buy_order.price;
    let n = book.asks.len();
    let ghost len = n as nat;
    let ghost st0 = side_start(levels_view(book.asks@), book.orders@, *buy_order);
    proof {
        assert(trades_content(trades@) =~= Seq::<TradeContent>::empty());
    }
    let mut i: usize = 0;
    while i < n
        invariant
            i <= n == len,
            book.asks@.len() == n,
            old(book).asks@.len() == n,
            limit == old(buy_order).price,
            st0 == side_start(levels_view(old(book).asks@), old(book).orders@, *old(buy_order)),
            levels_run(book.symbol@, limit, true, len, st0, i as nat).flow is Running,
            side_is(
                levels_run(book.symbol@, limit, true, len, st0, i as nat),
                book.asks@,
                book.orders@,
                *buy_order,
                trades@,
                cancelled_orders@,
                empty_price_levels@,
            ),
            book.symbol == old(book).symbol,
            book.bids == old(book).bids,
            book.trades == old(book).trades,
        decreases n - i,
    {
        let ghost cur = levels_run(book.symbol@, limit, true, len, st0, i as nat);
        if buy_order.is_filled() {
            proof {
                lemma_levels_run_settled(book.symbol@, limit, true, len, st0, i as nat, len);
            }
            drop_emptied(&mut book.asks, &empty_price_levels);
            return Ok((trades, cancelled_orders));
        }
        let in_limit = match limit {
            Some(l) => book.asks[i].price.le(&l),
            None => true,
        };
        assert(cur.levels[i as int] == book.asks@[i as int].view_level());
        assert(in_limit == in_range(cur.levels[i as int].0, limit, true));
        assert(levels_run(book.symbol@, limit, true, len, st0, (i + 1) as nat) == level_step(
            book.symbol@,
            limit,
            true,
            cur,
            i as int,
        ));
        if in_limit {
            let r = match_at_price_level(
                &book.symbol,
                &mut book.asks,
                &mut book.orders,
                buy_order,
                i,
                &mut trades,
                &mut cancelled_orders,
                &mut empty_price_levels,
                Ghost(cur),
            );
            match r {
                Err(e) => {
                    proof {
                        lemma_levels_run_settled(
                            book.symbol@,
                            limit,
                            true,
                            len,
                            st0,
                            (i + 1) as nat,
                            len,
                        );
                    }
                    return Err(e);
                },
                Ok(true) => {
                    proof {
                        lemma_levels_run_settled(
                            book.symbol@,
                            limit,
                            true,
                            len,
                            st0,
                            (i + 1) as nat,
                            len,
                        );
                    }
                    drop_emptied(&mut book.asks, &empty_price_levels);
                    return Ok((trades, cancelled_orders));
                },
                Ok(false) => {},
            }
        }
        i = i + 1;
    }
    drop_emptied(&mut book.asks, &empty_price_levels);
    Ok((trades, cancelled_orders))
}

/// Match a sell order against the bids, highest price first, down to its
/// limit price (bids at zero or above for a sell without one).
fn match_sell_order(book: &mut OrderBook, sell_order: &mut Order) -> (r: Result<
    (Vec<Trade>, Vec<u128>),
    MatchingError,
>)
    ensures
        ({
            let st = side_run(
                old(book).symbol@,
                old(sell_order).price,
                false,
                levels_view(old(book).bids@),
                old(book).orders@,
                *old(sell_order),
            );
            &&& st.flow is Failed ==> r == Err::<(Vec<Trade>, Vec<u128>), MatchingError>(
                st.flow->Failed_0,
            )
            &&& !(st.flow is Failed) ==> (r matches Ok((t, c)) && trades_content(t@) == st.trades
                && c@ == st.cancelled)
            &&& st.flow != Flow::Failed(MatchingError::ArithmeticOverflow) ==> {
                &&& levels_view(final(book).bids@) == side_levels(st)
                &&& final(book).orders@ == st.orders
                &&& *final(sell_order) == st.incoming
            }
            &&& final(book).symbol == old(book).symbol
            &&& final(book).asks == old(book).asks
            &&& final(book).trades == old(book).trades
        }),
{
    let mut trades: Vec<Trade> = Vec::new();
    let mut cancelled_orders: Vec<u128> = Vec::new();
    let mut empty_price_levels: Vec<usize> = Vec::new();
    let limit = sell_order.price;
    let n = book.bids.len();
    let ghost len = n as nat;
    let ghost st0 = side_start(levels_view(book.bids@), book.orders@, *sell_order);
    proof {
        assert(trades_content(trades@) =~= Seq::<TradeContent>::empty());
    }
    let mut i: usize = 0;
    while i < n
        invariant
            i <= n == len,
            book.bids@.len() == n,
            old(book).bids@.len() == n,
            limit == old(sell_order).price,
            st0 == side_start(levels_view(old(book).bids@), old(book).orders@, *old(sell_order)),
            levels_run(book.symbol@, limit, false, len, st0, i as nat).flow is Running,
            side_is(
                levels_run(book.symbol@, limit, false, len, st0, i as nat),
                book.bids@,
                book.orders@,
                *sell_order,
                trades@,
                cancelled_orders@,
                empty_price_levels@,
            ),
            book.symbol == old(book).symbol,
            book.asks == old(book).asks,
            book.trades == old(book).trades,
        decreases n - i,
    {
        let ghost cur = levels_run(book.symbol@, limit, false, len, st0, i as nat);
        if sell_order.is_filled() {
            proof {
                lemma_levels_run_settled(book.symbol@, limit, false, len, st0, i as nat, len);
            }
            drop_emptied(&mut book.bids, &empty_price_levels);
            return Ok((trades, cancelled_orders));
        }
        let idx = n - 1 - i;
        let in_limit = match limit {
            Some(l) => l.le(&book.bids[idx].price),
            None => Dec::zero().le(&book.bids[idx].price),
        };
        assert(cur.levels[idx as int] == book.bids@[idx as int].view_level());
        assert(in_limit == in_range(cur.levels[idx as int].0, limit, false));
        assert(levels_run(book.symbol@, limit, false, len, st0, (i + 1) as nat) == level_step(
            book.symbol@,
            limit,
            false,
            cur,
            idx as int,
        ));
        if in_limit {
            let r = match_at_price_level(
                &book.symbol,
                &mut book.bids,
                &mut book.orders,
                sell_order,
                idx,
                &mut trades,
                &mut cancelled_orders,
                &mut empty_price_levels,
                Ghost(cur),
            );
            match r {
                Err(e) => {
                    proof {
                        lemma_levels_run_settled(
                            book.symbol@,
                            limit,
                            false,
                            len,
                            st0,
                            (i + 1) as nat,
                            len,
                        );
                    }
                    return Err(e);
                },
                Ok(true) => {
                    proof {
                        lemma_levels_run_settled(
                            book.symbol@,
                            limit,
                            false,
                            len,
                            st0,
                            (i + 1) as nat,
                            len,
                        );
                    }
                    drop_emptied(&mut book.bids, &empty_price_levels);
                    return Ok((trades, cancelled_orders));
                },
                Ok(false) => {},
            }
        }
        i = i + 1;
    }
    drop_emptied(&mut book.bids, &empty_price_levels);
    Ok((trades, cancelled_orders))
}

/// Whether an order would trade at once against the best opposite price: a
/// buy against the best ask (any buy without a price), a sell against the
/// best bid (any sell without a price).
pub open spec fn would_match(book: BookView, order: Order) -> bool {
    match order.side {
        OrderSide::Buy => match book.best_ask() {
            Some(a) => match order.price {
                Some(p) => p.value() >= a.value(),
                None => true,
            },
            None => false,
        },
        OrderSide::Sell => match book.best_bid() {
            Some(b) => match order.price {
                Some(p) => p.value() <= b.value(),
                None => true,
            },
            None => false,
        },
    }
}

/// Check if an order would match immediately (for post-only validation).
fn would_match_immediately(orderbook: &OrderBook, order: &Order) -> (b: bool)
    ensures
        b == would_match(orderbook@, *order),
{
    match order.side {
        OrderSide::Buy => match orderbook.get_best_ask() {
            Some(best_ask) => match order.price {
                Some(p) => best_ask.le(&p),
                None => true,
            },
            None => false,
        },
        OrderSide::Sell => match orderbook.get_best_bid() {
            Some(best_bid) => match order.price {
                Some(p) => p.le(&best_bid),
                None => true,
            },
            None => false,
        },
    }
}

/// What matching an order against a book does: the book's sides and orders
/// afterwards, the incoming order afterwards, and the result (the trades'
/// contents and the cancelled ids, or the error).
pub struct MatchOutcome {
    pub bids: Seq<LevelView>,
    pub asks: Seq<LevelView>,
    pub orders: Map<u128, Order>,
    pub incoming: Order,
    pub result: Result<(Seq<TradeContent>, Seq<u128>), MatchingError>,
}

/// Matching `incoming` against `book` at time `now`:
/// - a quantity that is not positive is refused, nothing changes;
/// - an expired order is marked expired and does not trade;
/// - a post-only order that would trade at once is rejected;
/// - otherwise it meets the opposite side in price-time priority, within
///   its limit; a fill-or-kill order left unfilled is then rejected (the
///   trades stand in the book).
pub open spec fn match_outcome(book: BookView, incoming: Order, now: i64) -> MatchOutcome {
    let bids = book.bids;
    let asks = book.asks;
    if incoming.quantity.value() <= 0 {
        MatchOutcome {
            bids,
            asks,
            orders: book.orders,
            incoming,
            result: Err(MatchingError::InvalidQuantity),
        }
    } else if incoming.spec_is_expired(now) {
        MatchOutcome {
            bids,
            asks,
            orders: book.orders,
            incoming: with_status(incoming, OrderStatus::Expired),
            result: Ok((Seq::empty(), Seq::empty())),
        }
    } else if incoming.post_only && would_match(book, incoming) {
        MatchOutcome {
            bids,
            asks,
            orders: book.orders,
            incoming: with_status(incoming, OrderStatus::Rejected),
            result: Err(MatchingError::PostOnlyWouldMatch),
        }
    } else {
        let buy = incoming.side == OrderSide::Buy;
        let st = side_run(
            book.symbol,
            incoming.price,
            buy,
            if buy {
                asks
            } else {
                bids
            },
            book.orders,
            incoming,
        );
        let side = side_levels(st);
        let bids2 = if buy {
            bids
        } else {
            side
        };
        let asks2 = if buy {
            side
        } else {
            asks
        };
        if st.flow is Failed {
            MatchOutcome {
                bids: bids2,
                asks: asks2,
                orders: st.orders,
                incoming: st.incoming,
                result: Err(st.flow->Failed_0),
            }
        } else if st.incoming.time_in_force == TimeInForce::FOK && !st.incoming.spec_is_filled() {
            MatchOutcome {
                bids: bids2,
                asks: asks2,
                orders: st.orders,
                incoming: with_status(st.incoming, OrderStatus::Rejected),
                result: Err(MatchingError::FillOrKillRejected),
            }
        } else {
            MatchOutcome {
                bids: bids2,
                asks: asks2,
                orders: st.orders,
                incoming: st.incoming,
                result: Ok((st.trades, st.cancelled)),
            }
        }
    }
}

/// The exec result and book agree with the outcome (the book and order
/// are left unstated when a decimal overflowed).
pub open spec fn outcome_is(
    out: MatchOutcome,
    r: Result<(Vec<Trade>, Vec<u128>), MatchingError>,
    old_book: BookView,
    book: BookView,
    incoming: Order,
) -> bool {
    &&& (r is Ok <==> out.result is Ok)
    &&& (r matches Ok((t, c)) ==> out.result == Ok::<(Seq<TradeContent>, Seq<u128>), MatchingError>(
        (trades_content(t@), c@),
    ))
    &&& (r matches Err(e) ==> out.result == Err::<(Seq<TradeContent>, Seq<u128>), MatchingError>(e))
    &&& out.result != Err::<(Seq<TradeContent>, Seq<u128>), MatchingError>(
        MatchingError::ArithmeticOverflow,
    ) ==> {
        &&& book.bids == out.bids
        &&& book.asks == out.asks
        &&& book.orders == out.orders
        &&& incoming == out.incoming
    }
    &&& book.symbol == old_book.symbol
    &&& book.trades == old_book.trades
}

/// Match an incoming order against the book at time `now`: the trades made
/// (the book keeps them out of its history) and the ids of orders that
/// self-trade prevention cancelled.
pub fn match_order_at(orderbook: &mut OrderBook, incoming_order: &mut Order, now: i64) -> (r: Result<
    (Vec<Trade>, Vec<u128>),
    MatchingError,
>)
    ensures
        outcome_is(
            match_outcome(old(orderbook)@, *old(incoming_order), now),
            r,
            old(orderbook)@,
            final(orderbook)@,
            *final(incoming_order),
        ),
{
    if incoming_order.quantity.le(&Dec::zero()) {
        return Err(MatchingError::InvalidQuantity);
    }
    if incoming_order.is_expired_at(now) {
        incoming_order.status = OrderStatus::Expired;
        let trades: Vec<Trade> = Vec::new();
        let cancelled_orders: Vec<u128> = Vec::new();
        proof {
            assert(trades_content(trades@) =~= Seq::<TradeContent>::empty());
        }
        return Ok((trades, cancelled_orders));
    }
    if incoming_order.post_only && would_match_immediately(orderbook, incoming_order) {
        incoming_order.status = OrderStatus::Rejected;
        return Err(MatchingError::PostOnlyWouldMatch);
    }
    let res = match incoming_order.side {
        OrderSide::Buy => match_buy_order(orderbook, incoming_order),
        OrderSide::Sell => match_sell_order(orderbook, incoming_order),
    };
    let (trades, cancelled_orders) = match res {
        Ok(p) => p,
        Err(e) => {
            return Err(e);
        },
    };
    if incoming_order.time_in_force == TimeInForce::FOK && !incoming_order.is_filled() {
        incoming_order.status = OrderStatus::Rejected;
        return Err(MatchingError::FillOrKillRejected);
    }
    Ok((trades, cancelled_orders))
}

/// Match an incoming order against the book now (the clock decides only
/// whether an order with an expire time has expired).
pub fn match_order(orderbook: &mut OrderBook, incoming_order: &mut Order) -> (r: Result<
    (Vec<Trade>, Vec<u128>),
    MatchingError,
>)
    ensures
        exists|now: i64|
            outcome_is(
                #[trigger] match_outcome(old(orderbook)@, *old(incoming_order), now),
                r,
                old(orderbook)@,
                final(orderbook)@,
                *final(incoming_order),
            ),
{
    let now = crate::clock::now_millis();
    match_order_at(orderbook, incoming_order, now)
}

} // verus!
