//! Stop order requests: which requests are refused, the stop order a request
//! becomes, and the answers of the submit, get and cancel endpoints.
use vstd::prelude::*;

use crate::clock::now_millis;
use crate::decimal::Dec;
use crate::engine::errors::{order_book_error_text, prefixed, OrderBookError};
use crate::engine::orderbook::{EngineView, OrderBookEngine};
use crate::engine::stop_order::{StopOrder, StopOrderStatus, StopOrderType, TriggerCondition};
use crate::engine::trigger::{add_stop_view, cancel_stop_view, stop_of};
use crate::engine::types::{OrderSide, SelfTradePreventionMode, TimeInForce};
use crate::ids::{fresh_id, id_text, uuid_text};
use crate::text::push_str;

verus! {

/// Request to submit a stop order.  Times are milliseconds since the epoch.
pub struct SubmitStopOrderRequest {
    pub symbol: String,
    pub user_id: String,
    pub side: OrderSide,
    pub quantity: Dec,
    pub trigger_price: Dec,
    pub trigger_condition: TriggerCondition,
    pub stop_type: StopOrderType,
    pub limit_price: Option<Dec>,
    pub trail_amount: Option<Dec>,
    pub trail_percent: Option<Dec>,
    pub time_in_force: Option<TimeInForce>,
    pub stp_mode: Option<SelfTradePreventionMode>,
    pub post_only: Option<bool>,
    pub expire_time: Option<i64>,
}

/// Answer to an accepted stop order.
pub struct StopOrderResponse {
    pub stop_order_id: u128,
    pub symbol: String,
    pub user_id: String,
    pub status: StopOrderStatus,
    pub message: String,
}

/// Error body of the stop order endpoints.
pub struct ErrorResponse {
    pub error: String,
}

/// Why a request cannot become a stop order: a stop-limit order needs a
/// limit price, a trailing stop a trail amount or percent.
pub open spec fn stop_request_error(req: SubmitStopOrderRequest) -> Option<Seq<char>> {
    if req.stop_type == StopOrderType::StopLimit && req.limit_price is None {
        Some("StopLimit orders require limit_price"@)
    } else if req.stop_type == StopOrderType::TrailingStop && req.trail_amount is None
        && req.trail_percent is None {
        Some("TrailingStop orders require trail_amount or trail_percent"@)
    } else {
        None
    }
}

/// The stop order a valid request becomes, with this id and creation time:
/// pending; a trailing stop starts tracking both extremes at its trigger
/// price; time in force defaults to good-till-cancelled, self-trade
/// prevention to none, post-only to false.
pub open spec fn stop_from_request(req: SubmitStopOrderRequest, id: u128, now: i64) -> StopOrder {
    let trailing = req.stop_type == StopOrderType::TrailingStop;
    StopOrder {
        id,
        symbol: req.symbol,
        user_id: req.user_id,
        trigger_price: req.trigger_price,
        trigger_condition: req.trigger_condition,
        stop_type: req.stop_type,
        side: req.side,
        quantity: req.quantity,
        limit_price: req.limit_price,
        trail_amount: req.trail_amount,
        trail_percent: req.trail_percent,
        highest_price: if trailing { Some(req.trigger_price) } else { None },
        lowest_price: if trailing { Some(req.trigger_price) } else { None },
        created_at: now,
        expire_time: req.expire_time,
        status: StopOrderStatus::Pending,
        time_in_force: match req.time_in_force {
            Some(t) => t,
            None => TimeInForce::GTC,
        },
        stp_mode: match req.stp_mode {
            Some(m) => m,
            None => SelfTradePreventionMode::NoPrevention,
        },
        post_only: match req.post_only {
            Some(p) => p,
            None => false,
        },
    }
}

/// The stop order for a request, or the reason it is refused.
pub fn build_stop_order(req: SubmitStopOrderRequest, id: u128, now: i64) -> (r: Result<
    StopOrder,
    ErrorResponse,
>)
    ensures
        r is Ok <==> stop_request_error(req) is None,
        match r {
            Ok(s) => s == stop_from_request(req, id, now),
            Err(e) => stop_request_error(req) == Some(e.error@),
        },
{
    if req.stop_type == StopOrderType::StopLimit && req.limit_price.is_none() {
        return Err(ErrorResponse { error: "StopLimit orders require limit_price".to_owned() });
    }
    if req.stop_type == StopOrderType::TrailingStop && req.trail_amount.is_none()
        && req.trail_percent.is_none() {
        return Err(
            ErrorResponse {
                error: "TrailingStop orders require trail_amount or trail_percent".to_owned(),
            },
        );
    }
    let trailing = req.stop_type == StopOrderType::TrailingStop;
    let extreme = if trailing {
        Some(req.trigger_price)
    } else {
        None
    };
    let time_in_force = match req.time_in_force {
        Some(t) => t,
        None => TimeInForce::GTC,
    };
    let stp_mode = match req.stp_mode {
        Some(m) => m,
        None => SelfTradePreventionMode::NoPrevention,
    };
    let post_only = match req.post_only {
        Some(p) => p,
        None => false,
    };
    Ok(
        StopOrder {
            id,
            symbol: req.symbol,
            user_id: req.user_id,
            trigger_price: req.trigger_price,
            trigger_condition: req.trigger_condition,
            stop_type: req.stop_type,
            side: req.side,
            quantity: req.quantity,
            limit_price: req.limit_price,
            trail_amount: req.trail_amount,
            trail_percent: req.trail_percent,
            highest_price: extreme,
            lowest_price: extreme,
            created_at: now,
            expire_time: req.expire_time,
            status: StopOrderStatus::Pending,
            time_in_force,
            stp_mode,
            post_only,
        },
    )
}

/// What submitting `req` under `id` at time `now` answers and does: a
/// refused request is answered 400 with its reason and leaves the engine as
/// it was; an accepted one is answered 201, describes the new pending stop
/// order, and adds that stop order to the engine.
pub open spec fn stop_submission_is(
    before: EngineView,
    req: SubmitStopOrderRequest,
    id: u128,
    now: i64,
    r: (u16, Result<StopOrderResponse, ErrorResponse>),
    after: EngineView,
) -> bool {
    match stop_request_error(req) {
        Some(msg) => {
            &&& r.0 == 400
            &&& r.1 matches Err(e) && e.error@ == msg
            &&& after == before
        },
        None => {
            &&& r.0 == 201
            &&& r.1 matches Ok(a) && {
                &&& a.stop_order_id == id
                &&& a.symbol@ == req.symbol@
                &&& a.user_id@ == req.user_id@
                &&& a.status == StopOrderStatus::Pending
                &&& a.message@ == "Stop order submitted successfully"@
            }
            &&& after == (EngineView {
                trigger: add_stop_view(before.trigger, stop_from_request(req, id, now)),
                ..before
            })
        },
    }
}

/// Submit a stop order with this id at time `now` (see `stop_submission_is`).
pub fn submit_stop_order_at(
    engine: &mut OrderBookEngine,
    req: SubmitStopOrderRequest,
    id: u128,
    now: i64,
) -> (r: (u16, Result<StopOrderResponse, ErrorResponse>))
    ensures
        stop_submission_is(old(engine)@, req, id, now, r, final(engine)@),
{
    let symbol = req.symbol.clone();
    let user_id = req.user_id.clone();
    match build_stop_order(req, id, now) {
        Err(e) => (400, Err(e)),
        Ok(stop) => {
            let _ = engine.add_stop_order(stop);
            (
                201,
                Ok(
                    StopOrderResponse {
                        stop_order_id: id,
                        symbol,
                        user_id,
                        status: StopOrderStatus::Pending,
                        message: "Stop order submitted successfully".to_owned(),
                    },
                ),
            )
        },
    }
}

/// Submit a stop order under a fresh random id, created now: whatever id
/// and time were drawn, the answer and the engine afterwards are those of
/// `submit_stop_order_at` for them.
pub fn submit_stop_order(engine: &mut OrderBookEngine, req: SubmitStopOrderRequest) -> (r: (
    u16,
    Result<StopOrderResponse, ErrorResponse>,
))
    ensures
        exists|id: u128, now: i64|
            #[trigger] stop_submission_is(old(engine)@, req, id, now, r, final(engine)@),
        stop_request_error(req) is Some ==> r.0 == 400 && r.1 is Err && final(engine)@ == old(
            engine,
        )@,
        stop_request_error(req) is None ==> r.0 == 201 && r.1 is Ok,
{
    let id = fresh_id();
    let now = now_millis();
    let r = submit_stop_order_at(engine, req, id, now);
    assert(stop_submission_is(old(engine)@, req, id, now, r, engine@));
    r
}

/// The answer for a stop order id: the stop order (200), or 404 with
/// `"Stop order <id> not found"`.
pub fn get_stop_order_answer(engine: &OrderBookEngine, id: u128) -> (r: (
    u16,
    Result<StopOrder, ErrorResponse>,
))
    ensures
        match stop_of(engine@.trigger, id) {
            Some(s) => r.0 == 200 && r.1 == Ok::<StopOrder, ErrorResponse>(s),
            None => {
                &&& r.0 == 404
                &&& r.1 matches Err(e) && e.error@ == "Stop order "@ + uuid_text(id) + " not found"@
            },
        },
{
    match engine.get_stop_order(id) {
        Some(s) => (200, Ok(s)),
        None => {
            let mut out: Vec<char> = Vec::new();
            push_str(&mut out, "Stop order ");
            let t = id_text(id);
            push_str(&mut out, t.as_str());
            push_str(&mut out, " not found");
            (404, Err(ErrorResponse { error: crate::text::string_from_chars(out.as_slice()) }))
        },
    }
}

/// Cancel a stop order: the cancelled stop order (200), or 404 with
/// `"Failed to cancel stop order: "` and the engine's error message.
pub fn cancel_stop_order_answer(engine: &mut OrderBookEngine, id: u128) -> (r: (
    u16,
    Result<StopOrder, ErrorResponse>,
))
    ensures
        final(engine)@ == (EngineView {
            trigger: cancel_stop_view(old(engine)@.trigger, id).0,
            ..old(engine)@
        }),
        match cancel_stop_view(old(engine)@.trigger, id).1 {
            Some(s) => r.0 == 200 && r.1 == Ok::<StopOrder, ErrorResponse>(s),
            None => {
                &&& r.0 == 404
                &&& r.1 matches Err(e) && e.error@ == "Failed to cancel stop order: "@
                    + order_book_error_text(OrderBookError::OrderNotFound(id))
            },
        },
{
    match engine.cancel_stop_order(id) {
        Ok(s) => (200, Ok(s)),
        Err(e) => {
            let text = e.to_text();
            (404, Err(ErrorResponse { error: prefixed("Failed to cancel stop order: ", &text) }))
        },
    }
}

} // verus!
