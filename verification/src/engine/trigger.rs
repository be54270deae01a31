//! The trigger engine: stop orders waiting for their trigger prices, fired
//! by trades.
//!
//! Buy stops and sell stops are kept in levels by trigger price, in
//! increasing price order, each level oldest first; an index maps a stop's
//! id to the trigger price and side under which it was filed.
use std::collections::HashMap;
use vstd::prelude::*;

use crate::decimal::Dec;
use crate::engine::stop_order::{StopOrder, StopOrderStatus, StopOrderType};
use crate::engine::types::{Order, OrderSide, OrderStatus, OrderType};

verus! {

broadcast use {vstd::std_specs::hash::group_hash_axioms, crate::decimal::group_dec_parts};

/// The stop orders filed under one trigger price, oldest first.
pub struct StopLevel {
    pub price: Dec,
    pub stops: Vec<StopOrder>,
}

/// A level of stops by value: its price and its stops.
pub type StopLevelView = (Dec, Seq<StopOrder>);

pub open spec fn stop_levels_view(v: Seq<StopLevel>) -> Seq<StopLevelView> {
    v.map_values(|l: StopLevel| (l.price, l.stops@))
}

/// Levels in strictly increasing price order.
pub open spec fn stop_levels_sorted(levels: Seq<StopLevelView>) -> bool {
    forall|i: int, j: int|
        0 <= i < j < levels.len() ==> (#[trigger] levels[i]).0.value() < (#[trigger] levels[j]).0.value()
}

/// Index of the first of the first `n` levels whose price equals `price`.
pub open spec fn find_level(levels: Seq<StopLevelView>, price: Dec, n: nat) -> Option<int>
    decreases n,
{
    if n == 0 {
        None
    } else {
        match find_level(levels, price, (n - 1) as nat) {
            Some(i) => Some(i),
            None => if levels[n - 1].0.value() == price.value() {
                Some(n - 1)
            } else {
                None
            },
        }
    }
}

/// Number of the first `n` levels priced below `price`.
pub open spec fn lower_count(levels: Seq<StopLevelView>, price: Dec, n: nat) -> nat
    decreases n,
{
    if n == 0 {
        0
    } else {
        lower_count(levels, price, (n - 1) as nat) + if levels[n - 1].0.value() < price.value() {
            1nat
        } else {
            0nat
        }
    }
}

/// Filing a stop under its trigger price: at the back of the level with that
/// price, or in a new level placed after the lower-priced levels.
pub open spec fn stops_insert(levels: Seq<StopLevelView>, stop: StopOrder) -> Seq<StopLevelView> {
    match find_level(levels, stop.trigger_price, levels.len()) {
        Some(i) => levels.update(i, (levels[i].0, levels[i].1.push(stop))),
        None => levels.insert(
            lower_count(levels, stop.trigger_price, levels.len()) as int,
            (stop.trigger_price, seq![stop]),
        ),
    }
}

/// Index of the first of the first `n` stops with this id.
pub open spec fn find_stop(stops: Seq<StopOrder>, id: u128, n: nat) -> Option<int>
    decreases n,
{
    if n == 0 {
        None
    } else {
        match find_stop(stops, id, (n - 1) as nat) {
            Some(i) => Some(i),
            None => if stops[n - 1].id == id {
                Some(n - 1)
            } else {
                None
            },
        }
    }
}

proof fn lemma_find_level_mono(levels: Seq<StopLevelView>, price: Dec, m: nat, n: nat)
    requires
        m <= n,
        find_level(levels, price, m) is Some,
    ensures
        find_level(levels, price, n) == find_level(levels, price, m),
    decreases n - m,
{
    if m < n {
        lemma_find_level_mono(levels, price, m, (n - 1) as nat);
    }
}

proof fn lemma_find_stop_mono(stops: Seq<StopOrder>, id: u128, m: nat, n: nat)
    requires
        m <= n,
        find_stop(stops, id, m) is Some,
    ensures
        find_stop(stops, id, n) == find_stop(stops, id, m),
    decreases n - m,
{
    if m < n {
        lemma_find_stop_mono(stops, id, m, (n - 1) as nat);
    }
}

pub proof fn lemma_find_level_bounds(levels: Seq<StopLevelView>, price: Dec, n: nat)
    requires
        n <= levels.len(),
    ensures
        find_level(levels, price, n) matches Some(i) ==> 0 <= i < n && levels[i].0.value()
            == price.value(),
        find_level(levels, price, n) is None ==> forall|k: int|
            0 <= k < n ==> (#[trigger] levels[k]).0.value() != price.value(),
    decreases n,
{
    if n > 0 {
        lemma_find_level_bounds(levels, price, (n - 1) as nat);
    }
}

pub proof fn lemma_find_stop_bounds(stops: Seq<StopOrder>, id: u128, n: nat)
    requires
        n <= stops.len(),
    ensures
        find_stop(stops, id, n) matches Some(i) ==> 0 <= i < n && stops[i].id == id,
        find_stop(stops, id, n) is None ==> forall|k: int| 0 <= k < n ==> (#[trigger] stops[k]).id != id,
    decreases n,
{
    if n > 0 {
        lemma_find_stop_bounds(stops, id, (n - 1) as nat);
    }
}

proof fn lemma_lower_count_bound(levels: Seq<StopLevelView>, price: Dec, n: nat)
    ensures
        lower_count(levels, price, n) <= n,
    decreases n,
{
    if n > 0 {
        lemma_lower_count_bound(levels, price, (n - 1) as nat);
    }
}

/// Index of the level priced `price`, if any.
fn level_position(levels: &Vec<StopLevel>, price: Dec) -> (r: Option<usize>)
    ensures
        r matches Some(i) ==> find_level(stop_levels_view(levels@), price, levels@.len()) == Some(
            i as int,
        ),
        r is None ==> find_level(stop_levels_view(levels@), price, levels@.len()) is None,
{
    let ghost v = stop_levels_view(levels@);
    let mut i: usize = 0;
    while i < levels.len()
        invariant
            i <= levels@.len(),
            v == stop_levels_view(levels@),
            find_level(v, price, i as nat) is None,
        decreases levels.len() - i,
    {
        if levels[i].price.eq_value(&price) {
            proof {
                lemma_find_level_mono(v, price, (i + 1) as nat, levels@.len());
            }
            return Some(i);
        }
        i = i + 1;
    }
    None
}

/// Index of the stop with this id, if any.
fn stop_position(stops: &Vec<StopOrder>, id: u128) -> (r: Option<usize>)
    ensures
        r matches Some(i) ==> find_stop(stops@, id, stops@.len()) == Some(i as int),
        r is None ==> find_stop(stops@, id, stops@.len()) is None,
{
    let mut i: usize = 0;
    while i < stops.len()
        invariant
            i <= stops@.len(),
            find_stop(stops@, id, i as nat) is None,
        decreases stops.len() - i,
    {
        if stops[i].id == id {
            proof {
                lemma_find_stop_mono(stops@, id, (i + 1) as nat, stops@.len());
            }
            return Some(i);
        }
        i = i + 1;
    }
    None
}

/// File a stop under its trigger price.
fn insert_stop(levels: &mut Vec<StopLevel>, stop: StopOrder)
    ensures
        stop_levels_view(final(levels)@) == stops_insert(stop_levels_view(old(levels)@), stop),
{
    let ghost v = stop_levels_view(levels@);
    proof {
        lemma_find_level_bounds(v, stop.trigger_price, v.len());
    }
    match level_position(levels, stop.trigger_price) {
        Some(i) => {
            let mut stops = duplicate_stops(&levels[i].stops);
            let price = levels[i].price;
            stops.push(stop);
            levels.set(i, StopLevel { price, stops });
            proof {
                assert(stop_levels_view(levels@) =~= v.update(i as int, (v[i as int].0, v[i as int].1.push(stop))));
            }
        },
        None => {
            let mut c: usize = 0;
            let mut i: usize = 0;
            while i < levels.len()
                invariant
                    i <= levels@.len(),
                    v == stop_levels_view(levels@),
                    c as nat == lower_count(v, stop.trigger_price, i as nat),
                    c <= i,
                decreases levels.len() - i,
            {
                if levels[i].price.lt(&stop.trigger_price) {
                    c = c + 1;
                }
                i = i + 1;
            }
            let price = stop.trigger_price;
            let stops = vec![stop];
            levels.insert(c, StopLevel { price, stops });
            proof {
                assert(stops@ =~= seq![stop]);
                assert(stop_levels_view(levels@) =~= v.insert(c as int, (price, seq![stop])));
            }
        },
    }
}

/// Identical copies of the stops, in order.
fn duplicate_stops(v: &Vec<StopOrder>) -> (r: Vec<StopOrder>)
    ensures
        r@ == v@,
{
    let mut r: Vec<StopOrder> = Vec::new();
    let mut i: usize = 0;
    while i < v.len()
        invariant
            i <= v@.len(),
            r@ == v@.take(i as int),
        decreases v.len() - i,
    {
        r.push(v[i].duplicate());
        i = i + 1;
        assert(r@ =~= v@.take(i as int));
    }
    assert(v@.take(i as int) =~= v@);
    r
}

/// The trigger engine by value: buy and sell levels, the id index, and the
/// last trade price.
#[verifier::ext_equal]
pub struct TriggerView {
    pub buys: Seq<StopLevelView>,
    pub sells: Seq<StopLevelView>,
    pub index: Map<u128, (Dec, bool)>,
    pub last: Option<Dec>,
}

/// Engine that watches trade prices and fires stop orders.
pub struct TriggerEngine {
    /// Buy stops by trigger price.
    buy_stops: Vec<StopLevel>,
    /// Sell stops by trigger price.
    sell_stops: Vec<StopLevel>,
    /// Id -> (trigger price, is a buy) of each filed stop.
    order_index: HashMap<u128, (Dec, bool)>,
    /// Last known trade price.
    last_trade_price: Option<Dec>,
}

impl View for TriggerEngine {
    type V = TriggerView;

    closed spec fn view(&self) -> TriggerView {
        TriggerView {
            buys: stop_levels_view(self.buy_stops@),
            sells: stop_levels_view(self.sell_stops@),
            index: self.order_index@,
            last: self.last_trade_price,
        }
    }
}

/// Adding a stop: indexed by id and filed on its side.
pub open spec fn add_stop_view(v: TriggerView, stop: StopOrder) -> TriggerView {
    let is_buy = stop.side == OrderSide::Buy;
    TriggerView {
        buys: if is_buy {
            stops_insert(v.buys, stop)
        } else {
            v.buys
        },
        sells: if is_buy {
            v.sells
        } else {
            stops_insert(v.sells, stop)
        },
        index: v.index.insert(stop.id, (stop.trigger_price, is_buy)),
        ..v
    }
}

/// Where the stop with this id stands: side, level and position.
pub open spec fn locate_stop(v: TriggerView, id: u128) -> Option<(bool, int, int)> {
    if !v.index.contains_key(id) {
        None
    } else {
        let (tp, is_buy) = v.index[id];
        let side = if is_buy {
            v.buys
        } else {
            v.sells
        };
        match find_level(side, tp, side.len()) {
            None => None,
            Some(i) => match find_stop(side[i].1, id, side[i].1.len()) {
                None => None,
                Some(p) => Some((is_buy, i, p)),
            },
        }
    }
}

/// The stop with this id, found through the index.
pub open spec fn stop_of(v: TriggerView, id: u128) -> Option<StopOrder> {
    match locate_stop(v, id) {
        Some((is_buy, i, p)) => Some(
            if is_buy {
                v.buys[i].1[p]
            } else {
                v.sells[i].1[p]
            },
        ),
        None => None,
    }
}

/// The side's levels without stop `p` of level `i` (and without the level
/// when that was its last stop).
pub open spec fn take_stop(side: Seq<StopLevelView>, i: int, p: int) -> Seq<StopLevelView> {
    let stops = side[i].1.remove(p);
    if stops.len() == 0 {
        side.remove(i)
    } else {
        side.update(i, (side[i].0, stops))
    }
}

/// Cancelling the stop with this id: its index entry goes in any case; if
/// it is found it leaves its level and comes back marked cancelled.
pub open spec fn cancel_stop_view(v: TriggerView, id: u128) -> (TriggerView, Option<StopOrder>) {
    if !v.index.contains_key(id) {
        (v, None)
    } else {
        let v1 = TriggerView { index: v.index.remove(id), ..v };
        match locate_stop(v, id) {
            None => (v1, None),
            Some((is_buy, i, p)) => {
                let side = if is_buy {
                    v.buys
                } else {
                    v.sells
                };
                let stop = side[i].1[p];
                (
                    TriggerView {
                        buys: if is_buy {
                            take_stop(v.buys, i, p)
                        } else {
                            v.buys
                        },
                        sells: if is_buy {
                            v.sells
                        } else {
                            take_stop(v.sells, i, p)
                        },
                        ..v1
                    },
                    Some(StopOrder { status: StopOrderStatus::Cancelled, ..stop }),
                )
            },
        }
    }
}

impl TriggerEngine {
    pub fn new() -> (e: TriggerEngine)
        ensures
            e@.buys.len() == 0,
            e@.sells.len() == 0,
            e@.index == Map::<u128, (Dec, bool)>::empty(),
            e@.last is None,
    {
        TriggerEngine {
            buy_stops: Vec::new(),
            sell_stops: Vec::new(),
            order_index: HashMap::new(),
            last_trade_price: None,
        }
    }

    /// Add a new stop order.
    pub fn add_stop_order(&mut self, stop: StopOrder)
        ensures
            final(self)@ == add_stop_view(old(self)@, stop),
    {
        let is_buy = stop.side == OrderSide::Buy;
        self.order_index.insert(stop.id, (stop.trigger_price, is_buy));
        if is_buy {
            insert_stop(&mut self.buy_stops, stop);
        } else {
            insert_stop(&mut self.sell_stops, stop);
        }
    }

    /// Cancel a stop order: `Some` of it, marked cancelled, when it was found.
    pub fn cancel_stop_order(&mut self, order_id: u128) -> (r: Option<StopOrder>)
        ensures
            (final(self)@, r) == cancel_stop_view(old(self)@, order_id),
    {
        let ghost v = self@;
        match self.order_index.remove(&order_id) {
            None => {
                assert(self@ =~= v);
                None
            },
            Some((trigger_price, is_buy)) => {
                let r = if is_buy {
                    take_from_level(&mut self.buy_stops, trigger_price, order_id)
                } else {
                    take_from_level(&mut self.sell_stops, trigger_price, order_id)
                };
                proof {
                    let side = if is_buy {
                        v.buys
                    } else {
                        v.sells
                    };
                    lemma_find_level_bounds(side, trigger_price, side.len());
                    assert((self@, r) =~~= cancel_stop_view(v, order_id));
                }
                r
            },
        }
    }
}

/// Take the stop `order_id` from the level priced `trigger_price`: `Some` of
/// it, marked cancelled, when found; an emptied level goes.
fn take_from_level(levels: &mut Vec<StopLevel>, trigger_price: Dec, order_id: u128) -> (r: Option<
    StopOrder,
>)
    ensures
        ({
            let side = stop_levels_view(old(levels)@);
            match find_level(side, trigger_price, side.len()) {
                None => r is None && final(levels)@ == old(levels)@,
                Some(i) => match find_stop(side[i].1, order_id, side[i].1.len()) {
                    None => r is None && final(levels)@ == old(levels)@,
                    Some(p) => r == Some(StopOrder { status: StopOrderStatus::Cancelled, ..side[i].1[p] })
                        && stop_levels_view(final(levels)@) == take_stop(side, i, p),
                },
            }
        }),
{
    let ghost side = stop_levels_view(levels@);
    match level_position(levels, trigger_price) {
        None => None,
        Some(i) => {
            proof {
                lemma_find_level_bounds(side, trigger_price, side.len());
            }
            match stop_position(&levels[i].stops, order_id) {
                None => None,
                Some(pos) => {
                    let mut stops = duplicate_stops(&levels[i].stops);
                    let price = levels[i].price;
                    proof {
                        lemma_find_stop_bounds(stops@, order_id, stops@.len());
                    }
                    let mut order = stops.remove(pos);
                    order.status = StopOrderStatus::Cancelled;
                    if stops.len() == 0 {
                        levels.remove(i);
                        proof {
                            assert(stop_levels_view(levels@) =~= side.remove(i as int));
                        }
                    } else {
                        levels.set(i, StopLevel { price, stops });
                        proof {
                            assert(stop_levels_view(levels@) =~= side.update(
                                i as int,
                                (side[i as int].0, side[i as int].1.remove(pos as int)),
                            ));
                        }
                    }
                    Some(order)
                },
            }
        },
    }
}

/// Every stop after a trade at `price` (trailing stops follow it).
pub open spec fn trail_levels(levels: Seq<StopLevelView>, price: Dec) -> Seq<StopLevelView> {
    levels.map_values(
        |lv: StopLevelView| (lv.0, lv.1.map_values(|s: StopOrder| s.spec_trailing(price))),
    )
}

/// Prices of the first `n` levels that a trade at `price` reaches, in
/// order: those at or below it for buy stops, at or above it for sell stops.
pub open spec fn keys_where(levels: Seq<StopLevelView>, price: Dec, buy: bool, n: nat) -> Seq<Dec>
    decreases n,
{
    if n == 0 {
        Seq::empty()
    } else {
        let prev = keys_where(levels, price, buy, (n - 1) as nat);
        let k = levels[n - 1].0;
        if (buy && k.value() <= price.value()) || (!buy && k.value() >= price.value()) {
            prev.push(k)
        } else {
            prev
        }
    }
}

/// A pass over stop levels: the levels of the side, the id index, and the
/// stops fired so far.
pub struct TriggerRun {
    pub levels: Seq<StopLevelView>,
    pub index: Map<u128, (Dec, bool)>,
    pub fired: Seq<StopOrder>,
}

/// One stop of a level taken off the book: an expired stop is dropped, a
/// stop whose condition holds fires (and leaves the index), any other is
/// filed again under its trigger price.
pub open spec fn stop_step(price: Dec, now: i64, st: TriggerRun, stop: StopOrder) -> TriggerRun {
    if stop.spec_is_expired(now) {
        st
    } else if stop.spec_should_trigger(price) {
        TriggerRun { index: st.index.remove(stop.id), fired: st.fired.push(stop), ..st }
    } else {
        TriggerRun { levels: stops_insert(st.levels, stop), ..st }
    }
}

/// The pass after the first `n` stops of `stops`.
pub open spec fn stops_run(
    price: Dec,
    now: i64,
    stops: Seq<StopOrder>,
    st: TriggerRun,
    n: nat,
) -> TriggerRun
    decreases n,
{
    if n == 0 {
        st
    } else {
        stop_step(price, now, stops_run(price, now, stops, st, (n - 1) as nat), stops[n - 1])
    }
}

/// The level priced `key`, if there is one, is taken off and its stops are
/// gone through in order.
pub open spec fn key_step(price: Dec, now: i64, st: TriggerRun, key: Dec) -> TriggerRun {
    match find_level(st.levels, key, st.levels.len()) {
        None => st,
        Some(i) => stops_run(
            price,
            now,
            st.levels[i].1,
            TriggerRun { levels: st.levels.remove(i), ..st },
            st.levels[i].1.len(),
        ),
    }
}

/// The pass after the first `n` keys.
pub open spec fn keys_run(price: Dec, now: i64, keys: Seq<Dec>, st: TriggerRun, n: nat) -> TriggerRun
    decreases n,
{
    if n == 0 {
        st
    } else {
        key_step(price, now, keys_run(price, now, keys, st, (n - 1) as nat), keys[n - 1])
    }
}

/// A pass over one side for a trade at `price`, from `st`.
pub open spec fn side_pass(price: Dec, now: i64, buy: bool, st: TriggerRun) -> TriggerRun {
    let keys = keys_where(st.levels, price, buy, st.levels.len());
    keys_run(price, now, keys, st, keys.len())
}

/// A trade at `price` at time `now`: trailing stops follow the price, then
/// the buy stops at or below it and the sell stops at or above it are gone
/// through, lowest price first; the engine afterwards and the fired stops,
/// in firing order.
pub open spec fn on_trade_view(v: TriggerView, price: Dec, now: i64) -> (TriggerView, Seq<StopOrder>) {
    let b = side_pass(
        price,
        now,
        true,
        TriggerRun { levels: trail_levels(v.buys, price), index: v.index, fired: Seq::empty() },
    );
    let s = side_pass(
        price,
        now,
        false,
        TriggerRun { levels: trail_levels(v.sells, price), index: b.index, fired: b.fired },
    );
    (TriggerView { buys: b.levels, sells: s.levels, index: s.index, last: Some(price) }, s.fired)
}

/// The order a fired stop becomes (apart from its fresh id and time stamp):
/// a market order for a stop-market, a limit order at the stop's limit price
/// otherwise, new and unfilled, with the stop's other terms.
pub open spec fn converted_from(o: Order, s: StopOrder) -> bool {
    &&& o.symbol@ == s.symbol@
    &&& o.side == s.side
    &&& o.order_type == (if s.stop_type == StopOrderType::StopMarket {
        OrderType::Market
    } else {
        OrderType::Limit
    })
    &&& o.price == s.limit_price
    &&& o.quantity == s.quantity
    &&& o.filled_quantity == Dec::spec_zero()
    &&& o.status == OrderStatus::New
    &&& o.user_id@ == s.user_id@
    &&& o.time_in_force == s.time_in_force
    &&& o.stp_mode == s.stp_mode
    &&& o.post_only == s.post_only
    &&& o.expire_time == s.expire_time
}

/// Each order is the conversion of the stop at the same position.
pub open spec fn converted_all(orders: Seq<Order>, stops: Seq<StopOrder>) -> bool {
    orders.len() == stops.len() && forall|k: int|
        0 <= k < orders.len() ==> converted_from(#[trigger] orders[k], stops[k])
}

/// Convert a fired stop order into a regular order with a fresh id.
fn convert_to_order(stop: &StopOrder) -> (o: Order)
    ensures
        converted_from(o, *stop),
{
    let order_type = match stop.stop_type {
        StopOrderType::StopMarket => OrderType::Market,
        StopOrderType::StopLimit => OrderType::Limit,
        StopOrderType::TrailingStop => OrderType::Limit,
    };
    let id = crate::ids::fresh_id();
    let timestamp = crate::clock::now_millis();
    Order {
        id,
        symbol: stop.symbol.clone(),
        side: stop.side,
        order_type,
        price: stop.limit_price,
        quantity: stop.quantity,
        filled_quantity: Dec::zero(),
        status: OrderStatus::New,
        user_id: stop.user_id.clone(),
        timestamp,
        time_in_force: stop.time_in_force,
        stp_mode: stop.stp_mode,
        post_only: stop.post_only,
        expire_time: stop.expire_time,
    }
}

/// Apply a trade at `price` to every stop of a side.
fn trail_side(levels: &mut Vec<StopLevel>, price: Dec)
    ensures
        stop_levels_view(final(levels)@) == trail_levels(stop_levels_view(old(levels)@), price),
{
    let ghost v = stop_levels_view(levels@);
    let mut out: Vec<StopLevel> = Vec::new();
    let mut i: usize = 0;
    while i < levels.len()
        invariant
            i <= levels@.len(),
            v == stop_levels_view(levels@),
            stop_levels_view(out@) == trail_levels(v, price).take(i as int),
        decreases levels.len() - i,
    {
        let mut stops: Vec<StopOrder> = Vec::new();
        let mut j: usize = 0;
        while j < levels[i].stops.len()
            invariant
                i < levels@.len(),
                v == stop_levels_view(levels@),
                stop_levels_view(out@) == trail_levels(v, price).take(i as int),
                j <= levels@[i as int].stops@.len(),
                stops@ == levels@[i as int].stops@.map_values(|s: StopOrder| s.spec_trailing(price)).take(
                    j as int,
                ),
            decreases levels[i as int].stops@.len() - j,
        {
            let mut s = levels[i].stops[j].duplicate();
            s.update_trailing(price);
            stops.push(s);
            j = j + 1;
            assert(stops@ =~= levels@[i as int].stops@.map_values(
                |s: StopOrder| s.spec_trailing(price),
            ).take(j as int));
        }
        let price_i = levels[i].price;
        let ghost out_old = out@;
        let ghost stops_v = stops@;
        out.push(StopLevel { price: price_i, stops });
        i = i + 1;
        proof {
            assert(stop_levels_view(out@) =~= stop_levels_view(out_old).push((price_i, stops_v)));
            assert(trail_levels(v, price).take(i as int) =~= trail_levels(v, price).take(i - 1).push(
                trail_levels(v, price)[i - 1],
            ));
            assert(stops_v =~= levels@[i - 1].stops@.map_values(|s: StopOrder| s.spec_trailing(price)));
            assert(trail_levels(v, price)[i - 1] == (price_i, stops_v));
            assert(stop_levels_view(out@) =~= trail_levels(v, price).take(i as int));
        }
    }
    assert(trail_levels(v, price).take(i as int) =~= trail_levels(v, price));
    *levels = out;
}

/// The prices of the levels a trade at `price` reaches.
fn collect_keys(levels: &Vec<StopLevel>, price: Dec, buy: bool) -> (r: Vec<Dec>)
    ensures
        r@ == keys_where(stop_levels_view(levels@), price, buy, levels@.len()),
{
    let ghost v = stop_levels_view(levels@);
    let mut r: Vec<Dec> = Vec::new();
    let mut i: usize = 0;
    while i < levels.len()
        invariant
            i <= levels@.len(),
            v == stop_levels_view(levels@),
            r@ == keys_where(v, price, buy, i as nat),
        decreases levels.len() - i,
    {
        let k = levels[i].price;
        let take = if buy {
            k.le(&price)
        } else {
            price.le(&k)
        };
        if take {
            r.push(k);
        }
        i = i + 1;
    }
    r
}

/// Go through the stops of one side that a trade at `price` reaches:
/// fired stops become orders appended to `triggered`.
fn fire_side(
    levels: &mut Vec<StopLevel>,
    index: &mut HashMap<u128, (Dec, bool)>,
    price: Dec,
    now: i64,
    buy: bool,
    triggered: &mut Vec<Order>,
    Ghost(fired): Ghost<Seq<StopOrder>>,
)
    requires
        converted_all(old(triggered)@, fired),
    ensures
        ({
            let r = side_pass(
                price,
                now,
                buy,
                TriggerRun { levels: stop_levels_view(old(levels)@), index: old(index)@, fired },
            );
            &&& stop_levels_view(final(levels)@) == r.levels
            &&& final(index)@ == r.index
            &&& converted_all(final(triggered)@, r.fired)
        }),
{
    let ghost st0 = TriggerRun { levels: stop_levels_view(levels@), index: index@, fired };
    let keys = collect_keys(levels, price, buy);
    let mut k: usize = 0;
    while k < keys.len()
        invariant
            k <= keys@.len(),
            keys@ == keys_where(st0.levels, price, buy, st0.levels.len()),
            stop_levels_view(levels@) == keys_run(price, now, keys@, st0, k as nat).levels,
            index@ == keys_run(price, now, keys@, st0, k as nat).index,
            converted_all(triggered@, keys_run(price, now, keys@, st0, k as nat).fired),
        decreases keys.len() - k,
    {
        let ghost st = keys_run(price, now, keys@, st0, k as nat);
        let key = keys[k];
        proof {
            lemma_find_level_bounds(st.levels, key, st.levels.len());
        }
        match level_position(levels, key) {
            None => {},
            Some(i) => {
                let level = levels.remove(i);
                let stops = level.stops;
                let ghost st1 = TriggerRun { levels: st.levels.remove(i as int), ..st };
                proof {
                    assert(stop_levels_view(levels@) =~= st.levels.remove(i as int));
                }
                let mut j: usize = 0;
                while j < stops.len()
                    invariant
                        j <= stops@.len(),
                        stop_levels_view(levels@) == stops_run(price, now, stops@, st1, j as nat).levels,
                        index@ == stops_run(price, now, stops@, st1, j as nat).index,
                        converted_all(triggered@, stops_run(price, now, stops@, st1, j as nat).fired),
                    decreases stops.len() - j,
                {
                    let ghost sj = stops_run(price, now, stops@, st1, j as nat);
                    let stop = stops[j].duplicate();
                    if stop.is_expired(now) {
                    } else if stop.should_trigger(price) {
                        let o = convert_to_order(&stop);
                        triggered.push(o);
                        index.remove(&stop.id);
                        proof {
                            assert forall|q: int| 0 <= q < triggered@.len() implies converted_from(
                                #[trigger] triggered@[q],
                                sj.fired.push(stop)[q],
                            ) by {
                                if q < sj.fired.len() {
                                    assert(triggered@[q] == old(triggered)@[q] || true);
                                }
                            }
                        }
                    } else {
                        insert_stop(levels, stop);
                    }
                    j = j + 1;
                }
            },
        }
        k = k + 1;
    }
}

/// The pending stops of `symbol` among the first `n` of `stops`, in order.
pub open spec fn stops_for(stops: Seq<StopOrder>, symbol: Seq<char>, n: nat) -> Seq<StopOrder>
    decreases n,
{
    if n == 0 {
        Seq::empty()
    } else {
        let prev = stops_for(stops, symbol, (n - 1) as nat);
        let s = stops[n - 1];
        if s.symbol@ == symbol && s.status == StopOrderStatus::Pending {
            prev.push(s)
        } else {
            prev
        }
    }
}

/// The pending stops of `symbol` in the first `n` levels, level by level.
pub open spec fn levels_for(levels: Seq<StopLevelView>, symbol: Seq<char>, n: nat) -> Seq<StopOrder>
    decreases n,
{
    if n == 0 {
        Seq::empty()
    } else {
        levels_for(levels, symbol, (n - 1) as nat) + stops_for(
            levels[n - 1].1,
            symbol,
            levels[n - 1].1.len(),
        )
    }
}

/// Number of stops in the levels.
pub open spec fn count_stops(levels: Seq<StopLevelView>) -> nat
    decreases levels.len(),
{
    if levels.len() == 0 {
        0
    } else {
        count_stops(levels.drop_last()) + levels.last().1.len()
    }
}

/// Number of stop orders the engine holds.
pub open spec fn stop_total(v: TriggerView) -> nat {
    count_stops(v.buys) + count_stops(v.sells)
}

/// The stops among the first `n` that have not expired at `now`.
pub open spec fn live_stops(stops: Seq<StopOrder>, now: i64, n: nat) -> Seq<StopOrder>
    decreases n,
{
    if n == 0 {
        Seq::empty()
    } else {
        let prev = live_stops(stops, now, (n - 1) as nat);
        if stops[n - 1].spec_is_expired(now) {
            prev
        } else {
            prev.push(stops[n - 1])
        }
    }
}

/// Ids of the stops among the first `n` that have expired at `now`.
pub open spec fn expired_ids(stops: Seq<StopOrder>, now: i64, n: nat) -> Seq<u128>
    decreases n,
{
    if n == 0 {
        Seq::empty()
    } else {
        let prev = expired_ids(stops, now, (n - 1) as nat);
        if stops[n - 1].spec_is_expired(now) {
            prev.push(stops[n - 1].id)
        } else {
            prev
        }
    }
}

/// The first `n` levels without their expired stops, levels left empty dropped.
pub open spec fn cleanup_side(levels: Seq<StopLevelView>, now: i64, n: nat) -> Seq<StopLevelView>
    decreases n,
{
    if n == 0 {
        Seq::empty()
    } else {
        let prev = cleanup_side(levels, now, (n - 1) as nat);
        let live = live_stops(levels[n - 1].1, now, levels[n - 1].1.len());
        if live.len() > 0 {
            prev.push((levels[n - 1].0, live))
        } else {
            prev
        }
    }
}

/// Ids of the expired stops of the first `n` levels, level by level.
pub open spec fn side_expired_ids(levels: Seq<StopLevelView>, now: i64, n: nat) -> Seq<u128>
    decreases n,
{
    if n == 0 {
        Seq::empty()
    } else {
        side_expired_ids(levels, now, (n - 1) as nat) + expired_ids(
            levels[n - 1].1,
            now,
            levels[n - 1].1.len(),
        )
    }
}

/// The index without these ids, removed in order.
pub open spec fn index_without(m: Map<u128, (Dec, bool)>, ids: Seq<u128>) -> Map<u128, (Dec, bool)>
    decreases ids.len(),
{
    if ids.len() == 0 {
        m
    } else {
        index_without(m, ids.drop_last()).remove(ids.last())
    }
}

/// Removing expired stops at `now`: from the buy side, then the sell side;
/// their ids leave the index; the engine afterwards and how many were removed.
pub open spec fn cleanup_view(v: TriggerView, now: i64) -> (TriggerView, nat) {
    let bi = side_expired_ids(v.buys, now, v.buys.len());
    let si = side_expired_ids(v.sells, now, v.sells.len());
    (
        TriggerView {
            buys: cleanup_side(v.buys, now, v.buys.len()),
            sells: cleanup_side(v.sells, now, v.sells.len()),
            index: index_without(index_without(v.index, bi), si),
            ..v
        },
        bi.len() + si.len(),
    )
}

/// `n`, or `usize::MAX` when it is larger.
pub open spec fn capped(n: nat) -> usize {
    if n > usize::MAX {
        usize::MAX
    } else {
        n as usize
    }
}

/// The pending stops of `symbol` in these levels.
fn collect_for_symbol(levels: &Vec<StopLevel>, symbol: &str, out: &mut Vec<StopOrder>)
    ensures
        final(out)@ == old(out)@ + levels_for(stop_levels_view(levels@), symbol@, levels@.len()),
{
    let ghost v = stop_levels_view(levels@);
    let sym = String::from_str(symbol);
    let mut i: usize = 0;
    while i < levels.len()
        invariant
            i <= levels@.len(),
            v == stop_levels_view(levels@),
            sym@ == symbol@,
            out@ == old(out)@ + levels_for(v, symbol@, i as nat),
        decreases levels.len() - i,
    {
        let ghost base = out@;
        let mut j: usize = 0;
        while j < levels[i].stops.len()
            invariant
                i < levels@.len(),
                v == stop_levels_view(levels@),
                base == old(out)@ + levels_for(v, symbol@, i as nat),
                sym@ == symbol@,
                j <= levels@[i as int].stops@.len(),
                out@ == base + stops_for(levels@[i as int].stops@, symbol@, j as nat),
            decreases levels@[i as int].stops@.len() - j,
        {
            let s = &levels[i].stops[j];
            if s.symbol == sym && s.is_active() {
                out.push(s.duplicate());
            }
            j = j + 1;
            proof {
                assert(out@ =~= base + stops_for(levels@[i as int].stops@, symbol@, j as nat));
            }
        }
        i = i + 1;
        proof {
            assert(out@ =~= old(out)@ + levels_for(v, symbol@, i as nat));
        }
    }
}

/// Number of stops in these levels, capped at `usize::MAX`.
fn count_side(levels: &Vec<StopLevel>) -> (r: usize)
    ensures
        r == capped(count_stops(stop_levels_view(levels@))),
{
    let ghost v = stop_levels_view(levels@);
    let mut c: usize = 0;
    let mut i: usize = 0;
    while i < levels.len()
        invariant
            i <= levels@.len(),
            v == stop_levels_view(levels@),
            c == capped(count_stops(v.take(i as int))),
        decreases levels.len() - i,
    {
        proof {
            assert(v.take(i + 1).drop_last() =~= v.take(i as int));
        }
        c = c.saturating_add(levels[i].stops.len());
        i = i + 1;
    }
    proof {
        assert(v.take(i as int) =~= v);
    }
    c
}

/// Drop the expired stops of one side, taking their ids off the index;
/// `count` grows (capped) by how many were dropped.
fn cleanup_one_side(
    levels: &mut Vec<StopLevel>,
    index: &mut HashMap<u128, (Dec, bool)>,
    now: i64,
    count: &mut usize,
    Ghost(done): Ghost<nat>,
)
    requires
        *old(count) == capped(done),
    ensures
        ({
            let ids = side_expired_ids(stop_levels_view(old(levels)@), now, old(levels)@.len());
            &&& stop_levels_view(final(levels)@) == cleanup_side(
                stop_levels_view(old(levels)@),
                now,
                old(levels)@.len(),
            )
            &&& final(index)@ == index_without(old(index)@, ids)
            &&& *final(count) == capped(done + ids.len())
        }),
{
    let ghost v = stop_levels_view(levels@);
    let ghost m0 = index@;
    let mut kept: Vec<StopLevel> = Vec::new();
    let mut i: usize = 0;
    while i < levels.len()
        invariant
            i <= levels@.len(),
            v == stop_levels_view(levels@),
            stop_levels_view(kept@) == cleanup_side(v, now, i as nat),
            index@ == index_without(m0, side_expired_ids(v, now, i as nat)),
            *count == capped(done + side_expired_ids(v, now, i as nat).len()),
        decreases levels.len() - i,
    {
        let ghost ids0 = side_expired_ids(v, now, i as nat);
        let mut live: Vec<StopOrder> = Vec::new();
        let mut j: usize = 0;
        while j < levels[i].stops.len()
            invariant
                i < levels@.len(),
                v == stop_levels_view(levels@),
                ids0 == side_expired_ids(v, now, i as nat),
                j <= levels@[i as int].stops@.len(),
                live@ == live_stops(levels@[i as int].stops@, now, j as nat),
                index@ == index_without(m0, ids0 + expired_ids(levels@[i as int].stops@, now, j as nat)),
                *count == capped(done + ids0.len() + expired_ids(levels@[i as int].stops@, now, j as nat).len()),
            decreases levels@[i as int].stops@.len() - j,
        {
            let ghost e0 = expired_ids(levels@[i as int].stops@, now, j as nat);
            let s = &levels[i].stops[j];
            if s.is_expired(now) {
                let id = s.id;
                index.remove(&id);
                *count = count.saturating_add(1);
                proof {
                    assert((ids0 + e0.push(id)).drop_last() =~= ids0 + e0);
                }
            } else {
                live.push(s.duplicate());
            }
            j = j + 1;
        }
        let price = levels[i].price;
        let ghost live_v = live@;
        if live.len() > 0 {
            let ghost kept_old = kept@;
            kept.push(StopLevel { price, stops: live });
            proof {
                assert(stop_levels_view(kept@) =~= stop_levels_view(kept_old).push((price, live_v)));
            }
        }
        i = i + 1;
        proof {
            assert(side_expired_ids(v, now, i as nat) =~= ids0 + expired_ids(
                levels@[i - 1].stops@,
                now,
                levels@[i - 1].stops@.len(),
            ));
        }
    }
    *levels = kept;
}

impl TriggerEngine {
    /// Every trailing stop follows a trade at `price`.
    fn update_trailing_stops(&mut self, price: Dec)
        ensures
            final(self)@ == (TriggerView {
                buys: trail_levels(old(self)@.buys, price),
                sells: trail_levels(old(self)@.sells, price),
                ..old(self)@
            }),
    {
        trail_side(&mut self.buy_stops, price);
        trail_side(&mut self.sell_stops, price);
    }

    /// Process a trade at `price` at time `now`: the orders of the stops it
    /// fires, in firing order.
    pub fn on_trade_at(&mut self, trade_price: Dec, now: i64) -> (r: Vec<Order>)
        ensures
            final(self)@ == on_trade_view(old(self)@, trade_price, now).0,
            converted_all(r@, on_trade_view(old(self)@, trade_price, now).1),
    {
        let ghost v = self@;
        self.update_trailing_stops(trade_price);
        let mut triggered: Vec<Order> = Vec::new();
        let ghost b = side_pass(
            trade_price,
            now,
            true,
            TriggerRun {
                levels: trail_levels(v.buys, trade_price),
                index: v.index,
                fired: Seq::empty(),
            },
        );
        fire_side(
            &mut self.buy_stops,
            &mut self.order_index,
            trade_price,
            now,
            true,
            &mut triggered,
            Ghost(Seq::empty()),
        );
        fire_side(
            &mut self.sell_stops,
            &mut self.order_index,
            trade_price,
            now,
            false,
            &mut triggered,
            Ghost(b.fired),
        );
        self.last_trade_price = Some(trade_price);
        proof {
            assert(self@ =~= on_trade_view(v, trade_price, now).0);
        }
        triggered
    }

    /// Process a trade at `price` now (the clock decides which stops have expired).
    pub fn on_trade(&mut self, trade_price: Dec) -> (r: Vec<Order>)
        ensures
            exists|now: i64|
                final(self)@ == (#[trigger] on_trade_view(old(self)@, trade_price, now)).0
                    && converted_all(r@, on_trade_view(old(self)@, trade_price, now).1),
    {
        let now = crate::clock::now_millis();
        self.on_trade_at(trade_price, now)
    }

    /// The stop order with this id.
    pub fn get_stop_order(&self, order_id: u128) -> (r: Option<StopOrder>)
        ensures
            r == stop_of(self@, order_id),
    {
        match self.order_index.get(&order_id) {
            None => None,
            Some(entry) => {
                let (trigger_price, is_buy) = *entry;
                let levels = if is_buy {
                    &self.buy_stops
                } else {
                    &self.sell_stops
                };
                proof {
                    lemma_find_level_bounds(
                        stop_levels_view(levels@),
                        trigger_price,
                        levels@.len(),
                    );
                }
                match level_position(levels, trigger_price) {
                    None => None,
                    Some(i) => {
                        proof {
                            lemma_find_stop_bounds(levels@[i as int].stops@, order_id, levels@[i as int].stops@.len());
                        }
                        match stop_position(&levels[i].stops, order_id) {
                            None => None,
                            Some(p) => Some(levels[i].stops[p].duplicate()),
                        }
                    },
                }
            },
        }
    }

    /// All pending stop orders of a symbol: buy stops, then sell stops, each
    /// lowest trigger price first.
    pub fn get_stop_orders_by_symbol(&self, symbol: &str) -> (r: Vec<StopOrder>)
        ensures
            r@ == levels_for(self@.buys, symbol@, self@.buys.len()) + levels_for(
                self@.sells,
                symbol@,
                self@.sells.len(),
            ),
    {
        let mut r: Vec<StopOrder> = Vec::new();
        collect_for_symbol(&self.buy_stops, symbol, &mut r);
        collect_for_symbol(&self.sell_stops, symbol, &mut r);
        proof {
            assert(r@ =~= levels_for(self@.buys, symbol@, self@.buys.len()) + levels_for(
                self@.sells,
                symbol@,
                self@.sells.len(),
            ));
        }
        r
    }

    /// Number of filed stop orders (capped at `usize::MAX`).
    pub fn get_total_stop_orders(&self) -> (n: usize)
        ensures
            n == capped(stop_total(self@)),
    {
        let b = count_side(&self.buy_stops);
        let s = count_side(&self.sell_stops);
        b.saturating_add(s)
    }

    /// The last trade price seen.
    pub fn get_last_trade_price(&self) -> (p: Option<Dec>)
        ensures
            p == self@.last,
    {
        self.last_trade_price
    }

    /// Remove the stops expired at `now`; how many were removed (capped).
    pub fn cleanup_expired_at(&mut self, now: i64) -> (n: usize)
        ensures
            final(self)@ == cleanup_view(old(self)@, now).0,
            n == capped(cleanup_view(old(self)@, now).1),
    {
        let ghost v = self@;
        let mut expired_count: usize = 0;
        cleanup_one_side(
            &mut self.buy_stops,
            &mut self.order_index,
            now,
            &mut expired_count,
            Ghost(0),
        );
        let ghost nb = side_expired_ids(v.buys, now, v.buys.len()).len();
        cleanup_one_side(
            &mut self.sell_stops,
            &mut self.order_index,
            now,
            &mut expired_count,
            Ghost(nb),
        );
        proof {
            assert(self@ =~= cleanup_view(v, now).0);
        }
        expired_count
    }

    /// Remove the stops that have expired now.
    pub fn cleanup_expired(&mut self) -> (n: usize)
        ensures
            exists|now: i64|
                final(self)@ == (#[trigger] cleanup_view(old(self)@, now)).0 && n == capped(
                    cleanup_view(old(self)@, now).1,
                ),
    {
        let now = crate::clock::now_millis();
        self.cleanup_expired_at(now)
    }
}

impl Default for TriggerEngine {
    fn default() -> (e: TriggerEngine)
        ensures
            e@.buys.len() == 0,
            e@.sells.len() == 0,
            e@.index == Map::<u128, (Dec, bool)>::empty(),
            e@.last is None,
    {
        TriggerEngine::new()
    }
}

proof fn lemma_count_concat(a: Seq<StopLevelView>, b: Seq<StopLevelView>)
    ensures
        count_stops(a + b) == count_stops(a) + count_stops(b),
    decreases b.len(),
{
    if b.len() == 0 {
        assert(a + b =~= a);
    } else {
        lemma_count_concat(a, b.drop_last());
        assert((a + b).drop_last() =~= a + b.drop_last());
    }
}

proof fn lemma_count_single(x: StopLevelView)
    ensures
        count_stops(seq![x]) == x.1.len(),
{
    assert(seq![x].drop_last() =~= Seq::<StopLevelView>::empty());
    assert(count_stops(Seq::<StopLevelView>::empty()) == 0);
    assert(seq![x].last() == x);
}

proof fn lemma_count_remove(s: Seq<StopLevelView>, i: int)
    requires
        0 <= i < s.len(),
    ensures
        count_stops(s.remove(i)) + s[i].1.len() == count_stops(s),
{
    assert(s =~= s.take(i) + seq![s[i]] + s.skip(i + 1));
    assert(s.remove(i) =~= s.take(i) + s.skip(i + 1));
    lemma_count_concat(s.take(i), s.skip(i + 1));
    lemma_count_concat(s.take(i) + seq![s[i]], s.skip(i + 1));
    lemma_count_concat(s.take(i), seq![s[i]]);
    lemma_count_single(s[i]);
}

proof fn lemma_count_update(s: Seq<StopLevelView>, i: int, x: StopLevelView)
    requires
        0 <= i < s.len(),
    ensures
        count_stops(s.update(i, x)) + s[i].1.len() == count_stops(s) + x.1.len(),
{
    lemma_count_remove(s, i);
    lemma_count_remove(s.update(i, x), i);
    assert(s.update(i, x).remove(i) =~= s.remove(i));
}

proof fn lemma_count_insert(s: Seq<StopLevelView>, i: int, x: StopLevelView)
    requires
        0 <= i <= s.len(),
    ensures
        count_stops(s.insert(i, x)) == count_stops(s) + x.1.len(),
{
    assert(s.insert(i, x).remove(i) =~= s);
    lemma_count_remove(s.insert(i, x), i);
}

/// Filing a stop adds one stop.
pub proof fn lemma_count_stops_insert(levels: Seq<StopLevelView>, stop: StopOrder)
    ensures
        count_stops(stops_insert(levels, stop)) == count_stops(levels) + 1,
{
    lemma_find_level_bounds(levels, stop.trigger_price, levels.len());
    lemma_lower_count_bound(levels, stop.trigger_price, levels.len());
    match find_level(levels, stop.trigger_price, levels.len()) {
        Some(i) => {
            lemma_count_update(levels, i, (levels[i].0, levels[i].1.push(stop)));
        },
        None => {
            lemma_count_insert(
                levels,
                lower_count(levels, stop.trigger_price, levels.len()) as int,
                (stop.trigger_price, seq![stop]),
            );
        },
    }
}

/// Taking one stop off its level takes one stop off the side.
pub proof fn lemma_count_take_stop(side: Seq<StopLevelView>, i: int, p: int)
    requires
        0 <= i < side.len(),
        0 <= p < side[i].1.len(),
    ensures
        count_stops(take_stop(side, i, p)) + 1 == count_stops(side),
{
    let stops = side[i].1.remove(p);
    if stops.len() == 0 {
        lemma_count_remove(side, i);
    } else {
        lemma_count_update(side, i, (side[i].0, stops));
    }
}

/// Trailing changes no level's number of stops.
proof fn lemma_count_trail(levels: Seq<StopLevelView>, price: Dec)
    ensures
        count_stops(trail_levels(levels, price)) == count_stops(levels),
    decreases levels.len(),
{
    if levels.len() > 0 {
        assert(trail_levels(levels, price).drop_last() =~= trail_levels(levels.drop_last(), price));
        lemma_count_trail(levels.drop_last(), price);
    }
}

proof fn lemma_stops_run_count(price: Dec, now: i64, stops: Seq<StopOrder>, st: TriggerRun, n: nat)
    ensures
        count_stops(stops_run(price, now, stops, st, n).levels) + stops_run(
            price,
            now,
            stops,
            st,
            n,
        ).fired.len() <= count_stops(st.levels) + st.fired.len() + n,
    decreases n,
{
    if n > 0 {
        lemma_stops_run_count(price, now, stops, st, (n - 1) as nat);
        let prev = stops_run(price, now, stops, st, (n - 1) as nat);
        lemma_count_stops_insert(prev.levels, stops[n - 1]);
    }
}

proof fn lemma_keys_run_count(price: Dec, now: i64, keys: Seq<Dec>, st: TriggerRun, n: nat)
    ensures
        count_stops(keys_run(price, now, keys, st, n).levels) + keys_run(
            price,
            now,
            keys,
            st,
            n,
        ).fired.len() <= count_stops(st.levels) + st.fired.len(),
    decreases n,
{
    if n > 0 {
        lemma_keys_run_count(price, now, keys, st, (n - 1) as nat);
        let prev = keys_run(price, now, keys, st, (n - 1) as nat);
        let key = keys[n - 1];
        lemma_find_level_bounds(prev.levels, key, prev.levels.len());
        match find_level(prev.levels, key, prev.levels.len()) {
            None => {},
            Some(i) => {
                lemma_count_remove(prev.levels, i);
                lemma_stops_run_count(
                    price,
                    now,
                    prev.levels[i].1,
                    TriggerRun { levels: prev.levels.remove(i), ..prev },
                    prev.levels[i].1.len(),
                );
            },
        }
    }
}

/// A trade never adds stop orders: those it fires leave the engine.
pub proof fn lemma_on_trade_count(v: TriggerView, price: Dec, now: i64)
    ensures
        stop_total(on_trade_view(v, price, now).0) + on_trade_view(v, price, now).1.len()
            <= stop_total(v),
{
    lemma_count_trail(v.buys, price);
    lemma_count_trail(v.sells, price);
    let b0 = TriggerRun { levels: trail_levels(v.buys, price), index: v.index, fired: Seq::empty() };
    let bk = keys_where(b0.levels, price, true, b0.levels.len());
    lemma_keys_run_count(price, now, bk, b0, bk.len());
    let b = side_pass(price, now, true, b0);
    let s0 = TriggerRun { levels: trail_levels(v.sells, price), index: b.index, fired: b.fired };
    let sk = keys_where(s0.levels, price, false, s0.levels.len());
    lemma_keys_run_count(price, now, sk, s0, sk.len());
}

} // verus!
