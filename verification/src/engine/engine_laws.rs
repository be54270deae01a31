//! What the engine promises across calls: a stop order just added is found
//! by its id, a cancelled one is not, and it cancels once; stop levels stay sorted by price; an
//! order cancelled once cannot be cancelled again, nor found; an order that
//! rests after it was submitted is found under its id; submitting and
//! cancelling orders keep every book's price levels sorted; the orders a
//! trade fires are the fired stops turned into market or limit orders.
use vstd::prelude::*;

use crate::engine::errors::OrderBookError;
use crate::engine::matching::{match_outcome, side_start, would_match};
use crate::engine::matching_laws::{law_levels_stay_sorted, lemma_levels_run};
use crate::engine::orderbook::{
    apply_cancels, below_count, cancel_data, cancel_outcome, empty_book, find_book, find_price,
    rest_order, settle, side_of, side_with, side_without, submitted, with_book,
};
use crate::engine::stop_order::{StopOrder, StopOrderType};
use crate::engine::trigger::{
    add_stop_view, cancel_stop_view, converted_all, find_level, find_stop, lower_count,
    on_trade_view, stop_levels_sorted, stop_of, stops_insert, stop_total, StopLevelView, TriggerView,
};
use crate::engine::types::{
    levels_sorted, BookView, LevelView, Order, OrderSide, OrderStatus, OrderType,
};
use crate::decimal::Dec;

verus! {

proof fn lemma_find_level_first(levels: Seq<StopLevelView>, price: Dec, n: nat, i: int)
    requires
        0 <= i < n <= levels.len(),
        levels[i].0.value() == price.value(),
        forall|k: int| 0 <= k < i ==> (#[trigger] levels[k]).0.value() != price.value(),
    ensures
        find_level(levels, price, n) == Some(i),
    decreases n,
{
    if n - 1 > i {
        lemma_find_level_first(levels, price, (n - 1) as nat, i);
    } else {
        lemma_find_level_none(levels, price, (n - 1) as nat);
    }
}

proof fn lemma_find_level_none(levels: Seq<StopLevelView>, price: Dec, n: nat)
    requires
        n <= levels.len(),
        forall|k: int| 0 <= k < n ==> (#[trigger] levels[k]).0.value() != price.value(),
    ensures
        find_level(levels, price, n) is None,
    decreases n,
{
    if n > 0 {
        lemma_find_level_none(levels, price, (n - 1) as nat);
    }
}

proof fn lemma_find_level_found(levels: Seq<StopLevelView>, price: Dec, n: nat)
    requires
        n <= levels.len(),
    ensures
        find_level(levels, price, n) matches Some(i) ==> {
            &&& 0 <= i < n
            &&& levels[i].0.value() == price.value()
            &&& forall|k: int| 0 <= k < i ==> (#[trigger] levels[k]).0.value() != price.value()
        },
        find_level(levels, price, n) is None ==> forall|k: int|
            0 <= k < n ==> (#[trigger] levels[k]).0.value() != price.value(),
    decreases n,
{
    if n > 0 {
        lemma_find_level_found(levels, price, (n - 1) as nat);
    }
}

proof fn lemma_find_stop_first(stops: Seq<StopOrder>, id: u128, n: nat, i: int)
    requires
        0 <= i < n <= stops.len(),
        stops[i].id == id,
        forall|k: int| 0 <= k < i ==> (#[trigger] stops[k]).id != id,
    ensures
        find_stop(stops, id, n) == Some(i),
    decreases n,
{
    if n - 1 > i {
        lemma_find_stop_first(stops, id, (n - 1) as nat, i);
    } else {
        lemma_find_stop_none(stops, id, (n - 1) as nat);
    }
}

proof fn lemma_find_stop_none(stops: Seq<StopOrder>, id: u128, n: nat)
    requires
        n <= stops.len(),
        forall|k: int| 0 <= k < n ==> (#[trigger] stops[k]).id != id,
    ensures
        find_stop(stops, id, n) is None,
    decreases n,
{
    if n > 0 {
        lemma_find_stop_none(stops, id, (n - 1) as nat);
    }
}

proof fn lemma_lower_count_prefix(levels: Seq<StopLevelView>, price: Dec, n: nat)
    requires
        n <= levels.len(),
        stop_levels_sorted(levels),
    ensures
        lower_count(levels, price, n) <= n,
        forall|k: int|
            0 <= k < n ==> (k < lower_count(levels, price, n) <==> (#[trigger] levels[k]).0.value()
                < price.value()),
    decreases n,
{
    if n > 0 {
        lemma_lower_count_prefix(levels, price, (n - 1) as nat);
        let m = (n - 1) as int;
        if levels[m].0.value() < price.value() {
            assert forall|k: int| 0 <= k < m implies (#[trigger] levels[k]).0.value() < price.value() by {
                assert(levels[k].0.value() < levels[m].0.value());
            }
            assert(lower_count(levels, price, (n - 1) as nat) == n - 1) by {
                if lower_count(levels, price, (n - 1) as nat) < n - 1 {
                    let c = lower_count(levels, price, (n - 1) as nat) as int;
                    assert(levels[c].0.value() < price.value());
                }
            }
        }
    }
}

/// No stop of the view carries this id, and the index does not name it.
pub open spec fn id_unused(v: TriggerView, id: u128) -> bool {
    &&& !v.index.contains_key(id)
    &&& forall|i: int, p: int|
        0 <= i < v.buys.len() && 0 <= p < v.buys[i].1.len() ==> (#[trigger] v.buys[i].1[p]).id != id
    &&& forall|i: int, p: int|
        0 <= i < v.sells.len() && 0 <= p < v.sells[i].1.len() ==> (#[trigger] v.sells[i].1[p]).id
            != id
}

proof fn lemma_insert_finds(side: Seq<StopLevelView>, stop: StopOrder)
    requires
        forall|i: int, p: int|
            0 <= i < side.len() && 0 <= p < side[i].1.len() ==> (#[trigger] side[i].1[p]).id != stop.id,
    ensures
        ({
            let s2 = stops_insert(side, stop);
            find_level(s2, stop.trigger_price, s2.len()) matches Some(i) && find_stop(
                s2[i].1,
                stop.id,
                s2[i].1.len(),
            ) matches Some(p) && s2[i].1[p] == stop
        }),
{
    let tp = stop.trigger_price;
    let s2 = stops_insert(side, stop);
    lemma_find_level_found(side, tp, side.len());
    match find_level(side, tp, side.len()) {
        Some(i) => {
            assert forall|k: int| 0 <= k < i implies (#[trigger] s2[k]).0.value() != tp.value() by {
                assert(s2[k] == side[k]);
            }
            lemma_find_level_first(s2, tp, s2.len(), i);
            let stops = side[i].1.push(stop);
            assert(s2[i].1 == stops);
            assert forall|k: int| 0 <= k < side[i].1.len() implies (#[trigger] stops[k]).id
                != stop.id by {
                assert(stops[k] == side[i].1[k]);
            }
            lemma_find_stop_first(stops, stop.id, stops.len(), side[i].1.len() as int);
        },
        None => {
            let q = lower_count(side, tp, side.len()) as int;
            lemma_lower_count_bound(side, tp, side.len());
            assert forall|k: int| 0 <= k < q implies (#[trigger] s2[k]).0.value() != tp.value() by {
                assert(s2[k] == side[k]);
            }
            assert(s2[q] == (tp, seq![stop]));
            lemma_find_level_first(s2, tp, s2.len(), q);
            lemma_find_stop_first(seq![stop], stop.id, 1, 0);
        },
    }
}

proof fn lemma_lower_count_bound(levels: Seq<StopLevelView>, price: Dec, n: nat)
    ensures
        lower_count(levels, price, n) <= n,
    decreases n,
{
    if n > 0 {
        lemma_lower_count_bound(levels, price, (n - 1) as nat);
    }
}

/// The orders that a trade fires are, one for one and in firing order, the
/// fired stops turned into orders: a stop-market becomes a market order and
/// nothing else does; a stop-limit or a trailing stop becomes a limit order
/// at the stop's limit price; each keeps the stop's side, symbol, quantity,
/// user, time in force, self-trade mode, post-only flag and expiry, and
/// starts new and unfilled.
pub proof fn law_fired_stops_become_orders(
    v: TriggerView,
    price: Dec,
    now: i64,
    orders: Seq<Order>,
)
    requires
        converted_all(orders, on_trade_view(v, price, now).1),
    ensures
        orders.len() == on_trade_view(v, price, now).1.len(),
        forall|k: int|
            #![trigger orders[k]]
            0 <= k < orders.len() ==> {
                let s = on_trade_view(v, price, now).1[k];
                let o = orders[k];
                &&& (o.order_type == OrderType::Market) == (s.stop_type
                    == StopOrderType::StopMarket)
                &&& (s.stop_type == StopOrderType::StopLimit || s.stop_type
                    == StopOrderType::TrailingStop) ==> o.order_type == OrderType::Limit
                &&& o.price == s.limit_price
                &&& o.side == s.side
                &&& o.symbol@ == s.symbol@
                &&& o.quantity == s.quantity
                &&& o.user_id@ == s.user_id@
                &&& o.filled_quantity == Dec::spec_zero()
                &&& o.status == OrderStatus::New
                &&& o.time_in_force == s.time_in_force
                &&& o.stp_mode == s.stp_mode
                &&& o.post_only == s.post_only
                &&& o.expire_time == s.expire_time
            },
{
}

/// A stop order added under an id not yet in use is then found by that id,
/// as it was added.
pub proof fn law_added_stop_is_found(v: TriggerView, stop: StopOrder)
    requires
        id_unused(v, stop.id),
    ensures
        stop_of(add_stop_view(v, stop), stop.id) == Some(stop),
{
    if stop.side == OrderSide::Buy {
        lemma_insert_finds(v.buys, stop);
    } else {
        lemma_insert_finds(v.sells, stop);
    }
}

/// Once a stop order is cancelled, it is not found by its id any more.
pub proof fn law_cancelled_stop_is_gone(v: TriggerView, id: u128)
    ensures
        stop_of(cancel_stop_view(v, id).0, id) is None,
{
}

/// A stop order added under an id not yet in use and then cancelled is
/// given back as it was added, marked cancelled; cancelling it again finds
/// nothing.
pub proof fn law_added_stop_cancels_once(v: TriggerView, stop: StopOrder)
    requires
        id_unused(v, stop.id),
    ensures
        cancel_stop_view(add_stop_view(v, stop), stop.id).1 == Some(
            StopOrder { status: crate::engine::stop_order::StopOrderStatus::Cancelled, ..stop },
        ),
        cancel_stop_view(cancel_stop_view(add_stop_view(v, stop), stop.id).0, stop.id).1 is None,
{
    law_added_stop_is_found(v, stop);
}

/// Every stop filed on a level is named by the index.
pub open spec fn stops_indexed(v: TriggerView) -> bool {
    &&& forall|i: int, p: int|
        0 <= i < v.buys.len() && 0 <= p < v.buys[i].1.len() ==> v.index.contains_key(
            (#[trigger] v.buys[i].1[p]).id,
        )
    &&& forall|i: int, p: int|
        0 <= i < v.sells.len() && 0 <= p < v.sells[i].1.len() ==> v.index.contains_key(
            (#[trigger] v.sells[i].1[p]).id,
        )
}

/// Adding a stop order under an id the index does not name, then
/// cancelling it, gives it back marked cancelled, leaves as many stop
/// orders as before and none under that id; cancelling it again finds
/// nothing.
pub proof fn law_add_then_cancel_stop(v: TriggerView, stop: StopOrder)
    requires
        stops_indexed(v),
        !v.index.contains_key(stop.id),
    ensures
        cancel_stop_view(add_stop_view(v, stop), stop.id).1 == Some(
            StopOrder { status: crate::engine::stop_order::StopOrderStatus::Cancelled, ..stop },
        ),
        stop_total(cancel_stop_view(add_stop_view(v, stop), stop.id).0) == stop_total(v),
        stop_of(cancel_stop_view(add_stop_view(v, stop), stop.id).0, stop.id) is None,
        cancel_stop_view(cancel_stop_view(add_stop_view(v, stop), stop.id).0, stop.id).1 is None,
{
    assert(id_unused(v, stop.id)) by {
        assert forall|i: int, p: int|
            0 <= i < v.buys.len() && 0 <= p < v.buys[i].1.len() implies (#[trigger] v.buys[i].1[p]).id
                != stop.id by {
            assert(v.index.contains_key(v.buys[i].1[p].id));
        }
        assert forall|i: int, p: int|
            0 <= i < v.sells.len() && 0 <= p < v.sells[i].1.len() implies (#[trigger] v.sells[i].1[p]).id
                != stop.id by {
            assert(v.index.contains_key(v.sells[i].1[p].id));
        }
    }
    law_added_stop_cancels_once(v, stop);
    let w = add_stop_view(v, stop);
    let is_buy = stop.side == OrderSide::Buy;
    crate::engine::trigger::lemma_count_stops_insert(if is_buy { v.buys } else { v.sells }, stop);
    assert(stop_total(w) == stop_total(v) + 1);
    let side = if is_buy { w.buys } else { w.sells };
    crate::engine::trigger::lemma_find_level_bounds(side, stop.trigger_price, side.len());
    match find_level(side, stop.trigger_price, side.len()) {
        Some(i) => {
            crate::engine::trigger::lemma_find_stop_bounds(side[i].1, stop.id, side[i].1.len());
            match find_stop(side[i].1, stop.id, side[i].1.len()) {
                Some(p) => {
                    crate::engine::trigger::lemma_count_take_stop(side, i, p);
                },
                None => {},
            }
        },
        None => {},
    }
}

/// Adding a stop order keeps each side's levels in strictly increasing
/// price order.
pub proof fn law_stop_levels_stay_sorted(v: TriggerView, stop: StopOrder)
    requires
        stop_levels_sorted(v.buys),
        stop_levels_sorted(v.sells),
    ensures
        stop_levels_sorted(add_stop_view(v, stop).buys),
        stop_levels_sorted(add_stop_view(v, stop).sells),
{
    lemma_insert_sorted(v.buys, stop);
    lemma_insert_sorted(v.sells, stop);
}

proof fn lemma_insert_sorted(side: Seq<StopLevelView>, stop: StopOrder)
    requires
        stop_levels_sorted(side),
    ensures
        stop_levels_sorted(stops_insert(side, stop)),
{
    let tp = stop.trigger_price;
    let s2 = stops_insert(side, stop);
    lemma_find_level_found(side, tp, side.len());
    match find_level(side, tp, side.len()) {
        Some(i) => {
            assert forall|a: int, b: int| 0 <= a < b < s2.len() implies (#[trigger] s2[a]).0.value()
                < (#[trigger] s2[b]).0.value() by {
                assert(s2[a].0 == side[a].0);
                assert(s2[b].0 == side[b].0);
            }
        },
        None => {
            let q = lower_count(side, tp, side.len()) as int;
            lemma_lower_count_prefix(side, tp, side.len());
            assert forall|a: int, b: int| 0 <= a < b < s2.len() implies (#[trigger] s2[a]).0.value()
                < (#[trigger] s2[b]).0.value() by {
                if b < q {
                    assert(s2[a] == side[a] && s2[b] == side[b]);
                } else if b == q {
                    assert(s2[a] == side[a]);
                    assert(side[a].0.value() < tp.value());
                } else if a < q {
                    assert(s2[a] == side[a] && s2[b] == side[b - 1]);
                    assert(side[b - 1].0.value() != tp.value());
                } else if a == q {
                    assert(s2[b] == side[b - 1]);
                    assert(side[b - 1].0.value() != tp.value());
                    assert(!(side[b - 1].0.value() < tp.value()));
                } else {
                    assert(s2[a] == side[a - 1] && s2[b] == side[b - 1]);
                }
            }
        },
    }
}

proof fn lemma_find_book_update(books: Seq<BookView>, symbol: Seq<char>, i: int, b: BookView, n: nat)
    requires
        0 <= i < books.len(),
        n <= books.len(),
        b.symbol == books[i].symbol,
    ensures
        find_book(books.update(i, b), symbol, n) == find_book(books, symbol, n),
    decreases n,
{
    if n > 0 {
        lemma_find_book_update(books, symbol, i, b, (n - 1) as nat);
    }
}

proof fn lemma_with_book_finds(books: Seq<BookView>, symbol: Seq<char>)
    ensures
        ({
            let (bs, i) = with_book(books, symbol);
            &&& find_book(bs, symbol, bs.len()) == Some(i)
            &&& 0 <= i < bs.len()
            &&& bs[i].symbol == symbol
        }),
    decreases books.len(),
{
    lemma_find_book_found(books, symbol, books.len());
    match find_book(books, symbol, books.len()) {
        Some(i) => {},
        None => {
            let bs = books.push(crate::engine::orderbook::empty_book(symbol));
            lemma_find_book_prefix(books, bs, symbol, books.len());
        },
    }
}

proof fn lemma_find_book_found(books: Seq<BookView>, symbol: Seq<char>, n: nat)
    requires
        n <= books.len(),
    ensures
        find_book(books, symbol, n) matches Some(i) ==> 0 <= i < n && books[i].symbol == symbol,
    decreases n,
{
    if n > 0 {
        lemma_find_book_found(books, symbol, (n - 1) as nat);
    }
}

proof fn lemma_find_book_prefix(books: Seq<BookView>, bs: Seq<BookView>, symbol: Seq<char>, n: nat)
    requires
        n <= books.len(),
        books.len() < bs.len(),
        forall|k: int| 0 <= k < books.len() ==> bs[k] == books[k],
    ensures
        find_book(bs, symbol, n) == find_book(books, symbol, n),
    decreases n,
{
    if n > 0 {
        lemma_find_book_prefix(books, bs, symbol, (n - 1) as nat);
    }
}

/// An order that was cancelled is gone from its book: asking for it, or
/// cancelling it again, is answered `OrderNotFound`.
pub proof fn law_cancelled_order_is_gone(books: Seq<BookView>, symbol: Seq<char>, id: u128)
    requires
        cancel_outcome(books, symbol, id).1 is Ok,
    ensures
        ({
            let after = cancel_outcome(books, symbol, id).0;
            let (bs, i) = with_book(after, symbol);
            &&& !bs[i].orders.contains_key(id)
            &&& cancel_outcome(after, symbol, id).1 == Err::<
                crate::engine::types::Order,
                OrderBookError,
            >(OrderBookError::OrderNotFound(id))
        }),
{
    let (bs0, i) = with_book(books, symbol);
    lemma_with_book_finds(books, symbol);
    let after = cancel_outcome(books, symbol, id).0;
    let b1 = after[i];
    assert(after == bs0.update(i, b1));
    assert(b1.symbol == symbol);
    lemma_find_book_update(bs0, symbol, i, b1, bs0.len());
    assert(with_book(after, symbol) == (after, i));
    assert(!b1.orders.contains_key(id));
}

proof fn lemma_find_price_found(levels: Seq<LevelView>, price: Dec, n: nat)
    requires
        n <= levels.len(),
    ensures
        find_price(levels, price, n) matches Some(i) ==> 0 <= i < n && levels[i].0.value()
            == price.value(),
        find_price(levels, price, n) is None ==> forall|k: int|
            0 <= k < n ==> (#[trigger] levels[k]).0.value() != price.value(),
    decreases n,
{
    if n > 0 {
        lemma_find_price_found(levels, price, (n - 1) as nat);
    }
}

proof fn lemma_below_count_prefix(levels: Seq<LevelView>, price: Dec, n: nat)
    requires
        n <= levels.len(),
        levels_sorted(levels),
    ensures
        below_count(levels, price, n) <= n,
        forall|k: int|
            0 <= k < n ==> (k < below_count(levels, price, n) <==> (#[trigger] levels[k]).0.value()
                < price.value()),
    decreases n,
{
    if n > 0 {
        lemma_below_count_prefix(levels, price, (n - 1) as nat);
        let m = (n - 1) as int;
        if levels[m].0.value() < price.value() {
            assert forall|k: int| 0 <= k < m implies (#[trigger] levels[k]).0.value() < price.value() by {
                assert(levels[k].0.value() < levels[m].0.value());
            }
            assert(below_count(levels, price, (n - 1) as nat) == n - 1) by {
                if below_count(levels, price, (n - 1) as nat) < n - 1 {
                    let c = below_count(levels, price, (n - 1) as nat) as int;
                    assert(levels[c].0.value() < price.value());
                }
            }
        }
    }
}

proof fn lemma_side_without_sorted(levels: Seq<LevelView>, id: u128, price: Dec, qty: Dec)
    requires
        levels_sorted(levels),
    ensures
        side_without(levels, id, price, qty) matches Some(l) ==> levels_sorted(l),
{
    lemma_find_price_found(levels, price, levels.len());
    match side_without(levels, id, price, qty) {
        Some(l) => {
            match find_price(levels, price, levels.len()) {
                None => {},
                Some(i) => {
                    if l.len() == levels.len() {
                        assert forall|a: int, b: int| 0 <= a < b < l.len() implies (#[trigger] l[a]).0.value()
                            < (#[trigger] l[b]).0.value() by {
                            assert(l[a].0 == levels[a].0 && l[b].0 == levels[b].0);
                        }
                    } else {
                        assert forall|a: int, b: int| 0 <= a < b < l.len() implies (#[trigger] l[a]).0.value()
                            < (#[trigger] l[b]).0.value() by {
                            let a2 = if a < i { a } else { a + 1 };
                            let b2 = if b < i { b } else { b + 1 };
                            assert(l[a] == levels[a2] && l[b] == levels[b2]);
                        }
                    }
                },
            }
        },
        None => {},
    }
}

proof fn lemma_side_with_sorted(levels: Seq<LevelView>, id: u128, price: Dec, qty: Dec)
    requires
        levels_sorted(levels),
    ensures
        side_with(levels, id, price, qty) matches Some(l) ==> levels_sorted(l),
{
    lemma_find_price_found(levels, price, levels.len());
    match side_with(levels, id, price, qty) {
        Some(l) => {
            match find_price(levels, price, levels.len()) {
                Some(i) => {
                    assert forall|a: int, b: int| 0 <= a < b < l.len() implies (#[trigger] l[a]).0.value()
                        < (#[trigger] l[b]).0.value() by {
                        assert(l[a].0 == levels[a].0 && l[b].0 == levels[b].0);
                    }
                },
                None => {
                    let q = below_count(levels, price, levels.len()) as int;
                    lemma_below_count_prefix(levels, price, levels.len());
                    assert forall|a: int, b: int| 0 <= a < b < l.len() implies (#[trigger] l[a]).0.value()
                        < (#[trigger] l[b]).0.value() by {
                        if b < q {
                            assert(l[a] == levels[a] && l[b] == levels[b]);
                        } else if b == q {
                            assert(l[a] == levels[a]);
                        } else if a < q {
                            assert(l[a] == levels[a] && l[b] == levels[b - 1]);
                            assert(levels[b - 1].0.value() != price.value());
                        } else if a == q {
                            assert(l[b] == levels[b - 1]);
                            assert(levels[b - 1].0.value() != price.value());
                        } else {
                            assert(l[a] == levels[a - 1] && l[b] == levels[b - 1]);
                        }
                    }
                },
            }
        },
        None => {},
    }
}

proof fn lemma_apply_cancels_wf(b: BookView, data: Seq<(u128, Option<Dec>, OrderSide, Option<Dec>)>)
    requires
        b.wf(),
    ensures
        apply_cancels(b, data) matches Some(b2) ==> b2.wf(),
    decreases data.len(),
{
    if data.len() > 0 {
        lemma_apply_cancels_wf(b, data.drop_last());
        match apply_cancels(b, data.drop_last()) {
            None => {},
            Some(b1) => {
                let (id, price, side, rq) = data.last();
                match (rq, price) {
                    (Some(q), Some(p)) => {
                        lemma_side_without_sorted(side_of(b1, side), id, p, q);
                    },
                    _ => {},
                }
            },
        }
    }
}

proof fn lemma_rest_order_wf(b: BookView, o: Order)
    requires
        b.wf(),
    ensures
        rest_order(b, o) matches Some(b2) ==> b2.wf(),
{
    if o.spec_should_rest() && o.order_type == crate::engine::types::OrderType::Limit {
        match (o.price, o.spec_remaining()) {
            (Some(p), Some(rq)) => {
                lemma_side_with_sorted(side_of(b, o.side), o.id, p, rq);
            },
            _ => {},
        }
    }
}

/// Whether every book's price levels are sorted.
pub open spec fn books_wf(books: Seq<BookView>) -> bool {
    forall|k: int| 0 <= k < books.len() ==> (#[trigger] books[k]).wf()
}

proof fn lemma_with_book_wf(books: Seq<BookView>, symbol: Seq<char>)
    requires
        books_wf(books),
    ensures
        books_wf(with_book(books, symbol).0),
{
    let bs = with_book(books, symbol).0;
    assert forall|k: int| 0 <= k < bs.len() implies (#[trigger] bs[k]).wf() by {
        if k < books.len() {
            assert(bs[k] == books[k]);
        } else {
            assert(bs[k] == empty_book(symbol));
        }
    }
}

/// Submitting an order keeps every book's price levels in strictly
/// increasing price order, whatever the outcome.
pub proof fn law_submit_keeps_books_sorted(books: Seq<BookView>, order: Order, now: i64)
    requires
        books_wf(books),
    ensures
        books_wf(submitted(books, order, now).books),
{
    lemma_with_book_wf(books, order.symbol@);
    let (bs, i) = with_book(books, order.symbol@);
    lemma_with_book_finds(books, order.symbol@);
    let b = bs[i];
    if !b.orders.contains_key(order.id) {
        let out = match_outcome(b, order, now);
        law_levels_stay_sorted(b, order, now);
        match out.result {
            Ok((trades, cancelled)) => {
                let b1 = BookView { bids: out.bids, asks: out.asks, orders: out.orders, ..b };
                lemma_apply_cancels_wf(b1, cancel_data(b1, cancelled));
                match apply_cancels(b1, cancel_data(b1, cancelled)) {
                    Some(b2) => {
                        lemma_rest_order_wf(b2, out.incoming);
                    },
                    None => {},
                }
                match settle(b1, out.incoming, cancelled) {
                    Some(b3) => {
                        let nb = bs.update(i, b3);
                        assert forall|k: int| 0 <= k < nb.len() implies (#[trigger] nb[k]).wf() by {
                            if k != i {
                                assert(nb[k] == bs[k]);
                            }
                        }
                    },
                    None => {},
                }
            },
            Err(_) => {},
        }
    }
}

/// Cancelling an order keeps every book's price levels sorted.
pub proof fn law_cancel_keeps_books_sorted(books: Seq<BookView>, symbol: Seq<char>, id: u128)
    requires
        books_wf(books),
    ensures
        books_wf(cancel_outcome(books, symbol, id).0),
{
    lemma_with_book_wf(books, symbol);
    let (bs, i) = with_book(books, symbol);
    lemma_with_book_finds(books, symbol);
    let b = bs[i];
    if b.orders.contains_key(id) {
        let o = b.orders[id];
        let b1 = BookView { orders: b.orders.remove(id), ..b };
        match (o.price, o.spec_remaining()) {
            (Some(p), Some(rq)) => {
                lemma_side_without_sorted(side_of(b1, o.side), id, p, rq);
            },
            _ => {},
        }
        let nb = cancel_outcome(books, symbol, id).0;
        assert forall|k: int| 0 <= k < nb.len() implies (#[trigger] nb[k]).wf() by {
            if k != i {
                assert(nb[k] == bs[k]);
            }
        }
    }
}

/// Matching keeps the incoming order's id.
proof fn lemma_match_keeps_id(b: BookView, order: Order, now: i64)
    ensures
        match_outcome(b, order, now).incoming.id == order.id,
{
    if order.quantity.value() > 0 && !order.spec_is_expired(now) && !(order.post_only && would_match(
        b,
        order,
    )) {
        let buy = order.side == OrderSide::Buy;
        let levels = if buy {
            b.asks
        } else {
            b.bids
        };
        lemma_levels_run(b.symbol, order.price, buy, side_start(levels, b.orders, order), levels.len());
    }
}

/// An order that rests after it was submitted is held by its book under its
/// own id, as matching left it: asking for it gives it back.
pub proof fn law_resting_order_is_found(books: Seq<BookView>, order: Order, now: i64)
    requires
        submitted(books, order, now).result matches Ok((o, _)) && o.spec_should_rest()
            && o.order_type == OrderType::Limit && o.price is Some,
    ensures
        ({
            let s = submitted(books, order, now);
            let o = s.result->Ok_0.0;
            let (bs, i) = with_book(s.books, order.symbol@);
            &&& o.id == order.id
            &&& bs[i].orders.contains_key(order.id)
            &&& bs[i].orders[order.id] == o
        }),
{
    let s = submitted(books, order, now);
    let (bs0, i) = with_book(books, order.symbol@);
    lemma_with_book_finds(books, order.symbol@);
    let b = bs0[i];
    let out = match_outcome(b, order, now);
    lemma_match_keeps_id(b, order, now);
    let (trades, cancelled) = out.result->Ok_0;
    let b1 = BookView { bids: out.bids, asks: out.asks, orders: out.orders, ..b };
    let b3 = settle(b1, out.incoming, cancelled).unwrap();
    assert(s.books == bs0.update(i, b3));
    let b2 = apply_cancels(b1, cancel_data(b1, cancelled)).unwrap();
    assert(rest_order(b2, out.incoming) == Some(b3));
    assert(b3.symbol == order.symbol@) by {
        lemma_apply_cancels_keeps_symbol(b1, cancel_data(b1, cancelled));
    }
    lemma_find_book_update(bs0, order.symbol@, i, b3, bs0.len());
    assert(with_book(s.books, order.symbol@) == (s.books, i));
}

proof fn lemma_apply_cancels_keeps_symbol(b: BookView, data: Seq<(u128, Option<Dec>, OrderSide, Option<Dec>)>)
    ensures
        apply_cancels(b, data) matches Some(b2) ==> b2.symbol == b.symbol,
    decreases data.len(),
{
    if data.len() > 0 {
        lemma_apply_cancels_keeps_symbol(b, data.drop_last());
    }
}

} // verus!
