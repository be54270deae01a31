//! What matching promises, proved over `match_outcome`: trades respect the
//! incoming order's limit, come in price priority, are priced at resting
//! levels, always involve the incoming order and never pair two orders of
//! the same user; the book's price levels stay sorted; a post-only order
//! never takes liquidity; a fill-or-kill order that succeeds is filled;
//! self-trade prevention cancels the order its mode names (in
//! cancel-smallest mode, the one with less left).
use vstd::prelude::*;

use crate::decimal::Dec;
use crate::engine::matching::{
    id_step, id_visit, ids_run, in_range, keep_levels, lemma_ids_run_settled,
    lemma_levels_run_settled, level_cleanup, level_index, level_step, level_visit, levels_run,
    match_outcome, min_dec, resting_outcome, side_run, side_start, stp_action, trade_outcome,
    would_match, Flow, MatchRun, MatchingError, SelfTradeAction,
};
use crate::engine::types::{
    levels_sorted, BookView, LevelView, Order, OrderSide, OrderStatus, SelfTradePreventionMode,
    TimeInForce, TradeContent,
};

verus! {

/// The incoming order takes part in the trade: as buyer when it buys, as
/// seller when it sells.
pub open spec fn takes_part(t: TradeContent, o: Order) -> bool {
    if o.side == OrderSide::Buy {
        t.3 == o.id
    } else {
        t.4 == o.id
    }
}

/// Trade prices never get worse for the incoming order: rising for a buy,
/// falling for a sell.
pub open spec fn prices_in_priority(ts: Seq<TradeContent>, buy: bool) -> bool {
    forall|i: int, j: int|
        0 <= i < j < ts.len() ==> if buy {
            (#[trigger] ts[i]).1.value() <= (#[trigger] ts[j]).1.value()
        } else {
            ts[i].1.value() >= ts[j].1.value()
        }
}

/// The incoming order keeps its id, side and time in force.
pub open spec fn same_order(a: Order, b: Order) -> bool {
    a.id == b.id && a.side == b.side && a.time_in_force == b.time_in_force
}

/// The run's trades start with `st`'s and the new ones are at `price` and
/// involve the incoming order.
pub open spec fn trades_extend(st: MatchRun, r: MatchRun, price: Dec) -> bool {
    &&& r.trades.len() >= st.trades.len()
    &&& r.trades.subrange(0, st.trades.len() as int) == st.trades
    &&& forall|k: int|
        st.trades.len() <= k < r.trades.len() ==> (#[trigger] r.trades[k]).1 == price && takes_part(
            r.trades[k],
            st.incoming,
        )
}

pub(crate) proof fn lemma_id_visit(symbol: Seq<char>, price: Dec, st: MatchRun, rid: u128)
    ensures
        ({
            let r = id_visit(symbol, price, st, rid);
            &&& same_order(r.incoming, st.incoming)
            &&& trades_extend(st, r, price)
            &&& r.levels == st.levels
            &&& r.emptied == st.emptied
        }),
{
    let r = id_visit(symbol, price, st, rid);
    if st.orders.contains_key(rid) {
        let inc = st.incoming;
        let rest = st.orders[rid];
        match resting_outcome(symbol, price, inc, rest, rid) {
            None => {
                assert(r.trades.subrange(0, st.trades.len() as int) =~= st.trades);
            },
            Some(t) => {
                assert(r.trades.subrange(0, st.trades.len() as int) =~= st.trades);
                match stp_action(inc, rest) {
                    Some(SelfTradeAction::Allow) => {
                        let a = inc.spec_remaining().unwrap();
                        let b = rest.spec_remaining().unwrap();
                        let q = min_dec(a, b);
                        let buy = inc.side == OrderSide::Buy;
                        let (c, b2, s2) = trade_outcome(
                            symbol,
                            price,
                            q,
                            if buy { inc } else { rest },
                            if buy { rest } else { inc },
                        ).unwrap();
                        assert(c.1 == price);
                        assert(takes_part(c, inc));
                        assert(same_order(t.incoming, inc));
                        assert(r.trades[st.trades.len() as int] == c);
                    },
                    _ => {},
                }
            },
        }
    } else {
        assert(r.trades.subrange(0, st.trades.len() as int) =~= st.trades);
    }
}

pub(crate) proof fn lemma_ids_run(symbol: Seq<char>, price: Dec, ids: Seq<u128>, st: MatchRun, n: nat)
    ensures
        ({
            let r = ids_run(symbol, price, ids, st, n);
            &&& same_order(r.incoming, st.incoming)
            &&& trades_extend(st, r, price)
            &&& r.levels == st.levels
            &&& r.emptied == st.emptied
        }),
    decreases n,
{
    if n == 0 {
        assert(st.trades.subrange(0, st.trades.len() as int) =~= st.trades);
    } else {
        let prev = ids_run(symbol, price, ids, st, (n - 1) as nat);
        lemma_ids_run(symbol, price, ids, st, (n - 1) as nat);
        let r = ids_run(symbol, price, ids, st, n);
        if prev.flow is Running && !prev.incoming.spec_is_filled() {
            lemma_id_visit(symbol, price, prev, ids[n - 1]);
            assert(r.trades.subrange(0, st.trades.len() as int) =~= prev.trades.subrange(
                0,
                st.trades.len() as int,
            ));
            assert forall|k: int| st.trades.len() <= k < r.trades.len() implies (
            #[trigger] r.trades[k]).1 == price && takes_part(r.trades[k], st.incoming) by {
                if k < prev.trades.len() {
                    assert(r.trades[k] == prev.trades[k]) by {
                        assert(r.trades.subrange(0, prev.trades.len() as int)[k]
                            == prev.trades[k]);
                    }
                }
            }
        }
    }
}

/// Visiting a level keeps the prices of all levels, extends the trades with
/// trades at the visited level's price, and keeps the incoming order's id,
/// side and time in force.
pub(crate) proof fn lemma_level_visit(symbol: Seq<char>, st: MatchRun, idx: int)
    requires
        0 <= idx < st.levels.len(),
    ensures
        ({
            let r = level_visit(symbol, st, idx);
            &&& same_order(r.incoming, st.incoming)
            &&& trades_extend(st, r, st.levels[idx].0)
            &&& r.levels.len() == st.levels.len()
            &&& forall|i: int| 0 <= i < st.levels.len() ==> (#[trigger] r.levels[i]).0 == st.levels[i].0
        }),
{
    let lv = st.levels[idx];
    let st0 = MatchRun { to_remove: Seq::empty(), ..st };
    lemma_ids_run(symbol, lv.0, lv.1, st0, lv.1.len());
}

/// Among the first `n` steps, `j` is a level not yet visited.
pub open spec fn unvisited(buy: bool, len: nat, n: nat, j: int) -> bool {
    if buy {
        n <= j < len
    } else {
        0 <= j < len - n
    }
}

/// What holds of a run over levels `lv0` after `n` steps.
pub open spec fn run_inv(
    lv0: Seq<LevelView>,
    st0: MatchRun,
    r: MatchRun,
    limit: Option<Dec>,
    buy: bool,
    n: nat,
) -> bool {
    &&& same_order(r.incoming, st0.incoming)
    &&& r.levels.len() == lv0.len()
    &&& forall|i: int| 0 <= i < lv0.len() ==> (#[trigger] r.levels[i]).0 == lv0[i].0
    &&& r.trades.len() >= st0.trades.len()
    &&& r.trades.subrange(0, st0.trades.len() as int) == st0.trades
    &&& forall|k: int|
        st0.trades.len() <= k < r.trades.len() ==> in_range((#[trigger] r.trades[k]).1, limit, buy)
            && takes_part(r.trades[k], st0.incoming)
    &&& levels_sorted(lv0) ==> {
        &&& prices_in_priority(r.trades.subrange(st0.trades.len() as int, r.trades.len() as int), buy)
        &&& forall|k: int, j: int|
            st0.trades.len() <= k < r.trades.len() && unvisited(buy, lv0.len(), n, j) ==> if buy {
                (#[trigger] r.trades[k]).1.value() <= (#[trigger] lv0[j]).0.value()
            } else {
                r.trades[k].1.value() >= lv0[j].0.value()
            }
    }
}

pub(crate) proof fn lemma_levels_run(
    symbol: Seq<char>,
    limit: Option<Dec>,
    buy: bool,
    st0: MatchRun,
    n: nat,
)
    requires
        n <= st0.levels.len(),
    ensures
        run_inv(
            st0.levels,
            st0,
            levels_run(symbol, limit, buy, st0.levels.len(), st0, n),
            limit,
            buy,
            n,
        ),
    decreases n,
{
    let len = st0.levels.len();
    let lv0 = st0.levels;
    let r = levels_run(symbol, limit, buy, len, st0, n);
    if n == 0 {
        assert(r.trades.subrange(0, st0.trades.len() as int) =~= st0.trades);
        assert(r.trades.subrange(st0.trades.len() as int, r.trades.len() as int) =~= Seq::<
            TradeContent,
        >::empty());
    } else {
        let prev = levels_run(symbol, limit, buy, len, st0, (n - 1) as nat);
        lemma_levels_run(symbol, limit, buy, st0, (n - 1) as nat);
        let idx = level_index(buy, len, (n - 1) as nat);
        if prev.flow is Running && !prev.incoming.spec_is_filled() && in_range(
            prev.levels[idx].0,
            limit,
            buy,
        ) {
            lemma_level_visit(symbol, prev, idx);
            let base = st0.trades.len() as int;
            assert(r.trades.subrange(0, base) =~= prev.trades.subrange(0, base)) by {
                assert forall|k: int| 0 <= k < base implies r.trades[k] == prev.trades[k] by {
                    assert(r.trades.subrange(0, prev.trades.len() as int)[k] == prev.trades[k]);
                }
            }
            assert forall|k: int| base <= k < r.trades.len() implies in_range(
                (#[trigger] r.trades[k]).1,
                limit,
                buy,
            ) && takes_part(r.trades[k], st0.incoming) by {
                if k < prev.trades.len() {
                    assert(r.trades.subrange(0, prev.trades.len() as int)[k] == prev.trades[k]);
                }
            }
            if levels_sorted(lv0) {
                let rs = r.trades.subrange(base, r.trades.len() as int);
                assert forall|k: int, j: int|
                    base <= k < r.trades.len() && unvisited(buy, len, n, j) implies if buy {
                    (#[trigger] r.trades[k]).1.value() <= (#[trigger] lv0[j]).0.value()
                } else {
                    r.trades[k].1.value() >= lv0[j].0.value()
                } by {
                    assert(unvisited(buy, len, (n - 1) as nat, j));
                    assert(unvisited(buy, len, (n - 1) as nat, idx));
                    if k < prev.trades.len() {
                        assert(r.trades.subrange(0, prev.trades.len() as int)[k]
                            == prev.trades[k]);
                    } else {
                        assert(r.trades[k].1 == lv0[idx].0);
                        if buy {
                            assert(lv0[idx].0.value() < lv0[j].0.value());
                        } else {
                            assert(lv0[j].0.value() < lv0[idx].0.value());
                        }
                    }
                }
                assert forall|a: int, b: int| 0 <= a < b < rs.len() implies if buy {
                    (#[trigger] rs[a]).1.value() <= (#[trigger] rs[b]).1.value()
                } else {
                    rs[a].1.value() >= rs[b].1.value()
                } by {
                    let ka = base + a;
                    let kb = base + b;
                    assert(rs[a] == r.trades[ka]);
                    assert(rs[b] == r.trades[kb]);
                    if kb < prev.trades.len() {
                        let ps = prev.trades.subrange(base, prev.trades.len() as int);
                        assert(r.trades.subrange(0, prev.trades.len() as int)[ka]
                            == prev.trades[ka]);
                        assert(r.trades.subrange(0, prev.trades.len() as int)[kb]
                            == prev.trades[kb]);
                        assert(ps[a] == prev.trades[ka]);
                        assert(ps[b] == prev.trades[kb]);
                    } else {
                        assert(r.trades[kb].1 == lv0[idx].0);
                        assert(unvisited(buy, len, (n - 1) as nat, idx));
                        if ka < prev.trades.len() {
                            assert(r.trades.subrange(0, prev.trades.len() as int)[ka]
                                == prev.trades[ka]);
                        }
                    }
                }
            }
        } else {
            if levels_sorted(lv0) {
                assert forall|k: int, j: int|
                    st0.trades.len() <= k < r.trades.len() && unvisited(buy, len, n, j) implies if buy {
                    (#[trigger] r.trades[k]).1.value() <= (#[trigger] lv0[j]).0.value()
                } else {
                    r.trades[k].1.value() >= lv0[j].0.value()
                } by {
                    assert(unvisited(buy, len, (n - 1) as nat, j));
                }
            }
        }
    }
}

/// The trades from position `from` on are priced at some of these levels.
pub open spec fn priced_from(trades: Seq<TradeContent>, from: int, levels: Seq<LevelView>) -> bool {
    forall|k: int|
        from <= k < trades.len() ==> exists|j: int|
            0 <= j < levels.len() && (#[trigger] trades[k]).1 == (#[trigger] levels[j]).0
}

proof fn lemma_run_prices(symbol: Seq<char>, limit: Option<Dec>, buy: bool, st0: MatchRun, n: nat)
    requires
        n <= st0.levels.len(),
    ensures
        priced_from(
            levels_run(symbol, limit, buy, st0.levels.len(), st0, n).trades,
            st0.trades.len() as int,
            st0.levels,
        ),
    decreases n,
{
    if n > 0 {
        let len = st0.levels.len();
        let prev = levels_run(symbol, limit, buy, len, st0, (n - 1) as nat);
        let r = levels_run(symbol, limit, buy, len, st0, n);
        lemma_run_prices(symbol, limit, buy, st0, (n - 1) as nat);
        lemma_levels_run(symbol, limit, buy, st0, (n - 1) as nat);
        let idx = level_index(buy, len, (n - 1) as nat);
        if prev.flow is Running && !prev.incoming.spec_is_filled() && in_range(
            prev.levels[idx].0,
            limit,
            buy,
        ) {
            lemma_level_visit(symbol, prev, idx);
            assert forall|k: int| st0.trades.len() <= k < r.trades.len() implies exists|j: int|
                0 <= j < len && (#[trigger] r.trades[k]).1 == (#[trigger] st0.levels[j]).0 by {
                if k < prev.trades.len() {
                    assert(r.trades.subrange(0, prev.trades.len() as int)[k] == prev.trades[k]);
                    let j = choose|j: int|
                        0 <= j < len && (#[trigger] prev.trades[k]).1 == (#[trigger] st0.levels[j]).0;
                    assert(r.trades[k].1 == st0.levels[j].0);
                } else {
                    assert(r.trades[k].1 == prev.levels[idx].0);
                    assert(prev.levels[idx].0 == st0.levels[idx].0);
                    assert(r.trades[k].1 == st0.levels[idx].0);
                }
            }
        }
    }
}

/// When no level is within the limit, the run changes nothing.
proof fn lemma_levels_run_out_of_range(
    symbol: Seq<char>,
    limit: Option<Dec>,
    buy: bool,
    st0: MatchRun,
    n: nat,
)
    requires
        n <= st0.levels.len(),
        forall|i: int| 0 <= i < st0.levels.len() ==> !in_range(#[trigger] st0.levels[i].0, limit, buy),
    ensures
        levels_run(symbol, limit, buy, st0.levels.len(), st0, n) == st0,
    decreases n,
{
    if n > 0 {
        lemma_levels_run_out_of_range(symbol, limit, buy, st0, (n - 1) as nat);
    }
}

/// Dropping levels keeps the rest in order: every kept level comes from the
/// first `n`, so it is below each later level of a sorted sequence.
proof fn lemma_keep_levels_sorted(levels: Seq<LevelView>, emptied: Seq<usize>, n: nat)
    requires
        n <= levels.len(),
        levels_sorted(levels),
    ensures
        levels_sorted(keep_levels(levels, emptied, n)),
        forall|k: int, m: int|
            0 <= k < keep_levels(levels, emptied, n).len() && n <= m < levels.len() ==> (
            #[trigger] keep_levels(levels, emptied, n)[k]).0.value() < (#[trigger] levels[m]).0.value(),
    decreases n,
{
    if n > 0 {
        lemma_keep_levels_sorted(levels, emptied, (n - 1) as nat);
        let prev = keep_levels(levels, emptied, (n - 1) as nat);
        let cur = keep_levels(levels, emptied, n);
        if !emptied.contains((n - 1) as usize) {
            assert forall|k: int, m: int|
                0 <= k < cur.len() && n <= m < levels.len() implies (#[trigger] cur[k]).0.value() < (
            #[trigger] levels[m]).0.value() by {
                if k < prev.len() {
                    assert(cur[k] == prev[k]);
                } else {
                    assert(cur[k] == levels[n - 1]);
                }
            }
            assert forall|i: int, j: int| 0 <= i < j < cur.len() implies (#[trigger] cur[i]).0.value()
                < (#[trigger] cur[j]).0.value() by {
                if j < prev.len() {
                    assert(cur[i] == prev[i]);
                    assert(cur[j] == prev[j]);
                } else {
                    assert(cur[i] == prev[i]);
                    assert(cur[j] == levels[n - 1]);
                }
            }
        }
    }
}

/// Levels with the same prices as sorted levels are sorted.
proof fn lemma_same_prices_sorted(a: Seq<LevelView>, b: Seq<LevelView>)
    requires
        levels_sorted(a),
        a.len() == b.len(),
        forall|i: int| 0 <= i < a.len() ==> (#[trigger] b[i]).0 == a[i].0,
    ensures
        levels_sorted(b),
{
    assert forall|i: int, j: int| 0 <= i < j < b.len() implies (#[trigger] b[i]).0.value() < (
    #[trigger] b[j]).0.value() by {
        assert(a[i].0.value() < a[j].0.value());
    }
}

/// Every trade of a successful match is within the incoming order's limit
/// (a buy pays at most its price, a sell gets at least its price, or zero
/// when it has none) and has the incoming order as buyer or seller.
pub proof fn law_trades_respect_limit(book: BookView, incoming: Order, now: i64)
    requires
        match_outcome(book, incoming, now).result is Ok,
    ensures
        ({
            let trades = match_outcome(book, incoming, now).result->Ok_0.0;
            forall|k: int|
                0 <= k < trades.len() ==> in_range(
                    (#[trigger] trades[k]).1,
                    incoming.price,
                    incoming.side == OrderSide::Buy,
                ) && takes_part(trades[k], incoming)
        }),
{
    let out = match_outcome(book, incoming, now);
    if incoming.quantity.value() > 0 && !incoming.spec_is_expired(now) && !(incoming.post_only
        && would_match(book, incoming)) {
        let buy = incoming.side == OrderSide::Buy;
        let levels = if buy {
            book.asks
        } else {
            book.bids
        };
        let st0 = side_start(levels, book.orders, incoming);
        lemma_levels_run(book.symbol, incoming.price, buy, st0, levels.len());
        let st = side_run(book.symbol, incoming.price, buy, levels, book.orders, incoming);
        assert(st.trades.subrange(0, 0) =~= st0.trades);
    }
}

/// When the book's levels are sorted, the trades of a successful match come
/// in price priority: a buy meets the lowest asks first, a sell the highest
/// bids first.
pub proof fn law_trades_in_price_priority(book: BookView, incoming: Order, now: i64)
    requires
        book.wf(),
        match_outcome(book, incoming, now).result is Ok,
    ensures
        prices_in_priority(
            match_outcome(book, incoming, now).result->Ok_0.0,
            incoming.side == OrderSide::Buy,
        ),
{
    if incoming.quantity.value() > 0 && !incoming.spec_is_expired(now) && !(incoming.post_only
        && would_match(book, incoming)) {
        let buy = incoming.side == OrderSide::Buy;
        let levels = if buy {
            book.asks
        } else {
            book.bids
        };
        let st0 = side_start(levels, book.orders, incoming);
        lemma_levels_run(book.symbol, incoming.price, buy, st0, levels.len());
        let st = side_run(book.symbol, incoming.price, buy, levels, book.orders, incoming);
        assert(st.trades.subrange(0, st.trades.len() as int) =~= st.trades);
    }
}

/// Matching keeps both sides of a sorted book sorted, whatever the result.
pub proof fn law_levels_stay_sorted(book: BookView, incoming: Order, now: i64)
    requires
        book.wf(),
    ensures
        levels_sorted(match_outcome(book, incoming, now).bids),
        levels_sorted(match_outcome(book, incoming, now).asks),
{
    if incoming.quantity.value() > 0 && !incoming.spec_is_expired(now) && !(incoming.post_only
        && would_match(book, incoming)) {
        let buy = incoming.side == OrderSide::Buy;
        let levels = if buy {
            book.asks
        } else {
            book.bids
        };
        let st0 = side_start(levels, book.orders, incoming);
        lemma_levels_run(book.symbol, incoming.price, buy, st0, levels.len());
        let st = side_run(book.symbol, incoming.price, buy, levels, book.orders, incoming);
        lemma_same_prices_sorted(levels, st.levels);
        lemma_keep_levels_sorted(st.levels, st.emptied, st.levels.len());
    }
}

/// Every trade is priced at one of these levels.
pub open spec fn priced_at_levels(trades: Seq<TradeContent>, levels: Seq<LevelView>) -> bool {
    priced_from(trades, 0, levels)
}

/// Trades execute at the resting orders' prices: every trade of a successful
/// match is priced at one of the opposite side's levels (the asks for a buy,
/// the bids for a sell).
pub proof fn law_trades_at_resting_prices(book: BookView, incoming: Order, now: i64)
    requires
        match_outcome(book, incoming, now).result is Ok,
    ensures
        priced_at_levels(
            match_outcome(book, incoming, now).result->Ok_0.0,
            if incoming.side == OrderSide::Buy {
                book.asks
            } else {
                book.bids
            },
        ),
{
    let buy = incoming.side == OrderSide::Buy;
    let levels = if buy {
        book.asks
    } else {
        book.bids
    };
    if incoming.quantity.value() > 0 && !incoming.spec_is_expired(now) && !(incoming.post_only
        && would_match(book, incoming)) {
        let st0 = side_start(levels, book.orders, incoming);
        lemma_run_prices(book.symbol, incoming.price, buy, st0, levels.len());
        let st = side_run(book.symbol, incoming.price, buy, levels, book.orders, incoming);
        assert(st == levels_run(book.symbol, incoming.price, buy, levels.len(), st0, levels.len()));
        assert(match_outcome(book, incoming, now).result->Ok_0.0 == st.trades);
        assert(priced_from(st.trades, 0, levels));
    } else {
        assert(match_outcome(book, incoming, now).result->Ok_0.0.len() == 0);
    }
}

/// A fill-or-kill order that matches without error is filled (or it had
/// expired and did not trade at all).
pub proof fn law_fill_or_kill(book: BookView, incoming: Order, now: i64)
    requires
        incoming.time_in_force == TimeInForce::FOK,
        match_outcome(book, incoming, now).result is Ok,
    ensures
        match_outcome(book, incoming, now).incoming.spec_is_filled() || match_outcome(
            book,
            incoming,
            now,
        ).incoming.status == OrderStatus::Expired,
{
    if incoming.quantity.value() > 0 && !incoming.spec_is_expired(now) && !(incoming.post_only
        && would_match(book, incoming)) {
        let buy = incoming.side == OrderSide::Buy;
        let levels = if buy {
            book.asks
        } else {
            book.bids
        };
        let st0 = side_start(levels, book.orders, incoming);
        lemma_levels_run(book.symbol, incoming.price, buy, st0, levels.len());
    }
}

/// On a sorted book, a post-only order that is accepted makes no trade: it
/// only ever adds liquidity.
pub proof fn law_post_only_makes_no_trade(book: BookView, incoming: Order, now: i64)
    requires
        book.wf(),
        incoming.post_only,
        match_outcome(book, incoming, now).result is Ok,
    ensures
        match_outcome(book, incoming, now).result->Ok_0.0.len() == 0,
{
    if incoming.quantity.value() > 0 && !incoming.spec_is_expired(now) {
        let buy = incoming.side == OrderSide::Buy;
        let levels = if buy {
            book.asks
        } else {
            book.bids
        };
        let st0 = side_start(levels, book.orders, incoming);
        assert forall|i: int| 0 <= i < levels.len() implies !in_range(
            #[trigger] levels[i].0,
            incoming.price,
            buy,
        ) by {
            if buy {
                if i > 0 {
                    assert(levels[0].0.value() < levels[i].0.value());
                }
            } else {
                let last = levels.len() - 1;
                if i < last {
                    assert(levels[i].0.value() < levels[last].0.value());
                }
            }
        }
        lemma_levels_run_out_of_range(book.symbol, incoming.price, buy, st0, levels.len());
    }
}

/// From position `from` on, every trade is between two different users.
pub open spec fn users_differ_from(trades: Seq<TradeContent>, from: int) -> bool {
    forall|k: int| from <= k < trades.len() ==> (#[trigger] trades[k]).5 != trades[k].6
}

proof fn lemma_id_visit_users(symbol: Seq<char>, price: Dec, st: MatchRun, rid: u128)
    requires
        users_differ_from(st.trades, 0),
    ensures
        users_differ_from(id_visit(symbol, price, st, rid).trades, 0),
{
    let r = id_visit(symbol, price, st, rid);
    lemma_id_visit(symbol, price, st, rid);
    if st.orders.contains_key(rid) {
        let inc = st.incoming;
        let rest = st.orders[rid];
        match resting_outcome(symbol, price, inc, rest, rid) {
            Some(t) => {
                if r.trades.len() > st.trades.len() {
                    assert(stp_action(inc, rest) == Some(SelfTradeAction::Allow));
                    assert(inc.user_id@ != rest.user_id@);
                    let k = st.trades.len() as int;
                    assert(r.trades[k].5 != r.trades[k].6);
                }
                assert forall|k: int| 0 <= k < r.trades.len() implies (#[trigger] r.trades[k]).5
                    != r.trades[k].6 by {
                    if k < st.trades.len() {
                        assert(r.trades.subrange(0, st.trades.len() as int)[k] == st.trades[k]);
                    }
                }
            },
            None => {},
        }
    }
}

proof fn lemma_ids_run_users(symbol: Seq<char>, price: Dec, ids: Seq<u128>, st: MatchRun, n: nat)
    requires
        users_differ_from(st.trades, 0),
    ensures
        users_differ_from(ids_run(symbol, price, ids, st, n).trades, 0),
    decreases n,
{
    if n > 0 {
        let prev = ids_run(symbol, price, ids, st, (n - 1) as nat);
        lemma_ids_run_users(symbol, price, ids, st, (n - 1) as nat);
        if prev.flow is Running && !prev.incoming.spec_is_filled() {
            lemma_id_visit_users(symbol, price, prev, ids[n - 1]);
        }
    }
}

proof fn lemma_levels_run_users(symbol: Seq<char>, limit: Option<Dec>, buy: bool, st0: MatchRun, n: nat)
    requires
        n <= st0.levels.len(),
        users_differ_from(st0.trades, 0),
    ensures
        users_differ_from(levels_run(symbol, limit, buy, st0.levels.len(), st0, n).trades, 0),
    decreases n,
{
    if n > 0 {
        let len = st0.levels.len();
        let prev = levels_run(symbol, limit, buy, len, st0, (n - 1) as nat);
        lemma_levels_run_users(symbol, limit, buy, st0, (n - 1) as nat);
        lemma_levels_run(symbol, limit, buy, st0, (n - 1) as nat);
        let idx = level_index(buy, len, (n - 1) as nat);
        if prev.flow is Running && !prev.incoming.spec_is_filled() && in_range(
            prev.levels[idx].0,
            limit,
            buy,
        ) {
            let lv = prev.levels[idx];
            let s0 = MatchRun { to_remove: Seq::empty(), ..prev };
            lemma_ids_run_users(symbol, lv.0, lv.1, s0, lv.1.len());
        }
    }
}

/// Self-trade prevention: a successful match never makes a trade between an
/// order and a resting order of the same user.
pub proof fn law_no_self_trade(book: BookView, incoming: Order, now: i64)
    requires
        match_outcome(book, incoming, now).result is Ok,
    ensures
        ({
            let trades = match_outcome(book, incoming, now).result->Ok_0.0;
            forall|k: int| 0 <= k < trades.len() ==> (#[trigger] trades[k]).5 != trades[k].6
        }),
{
    if incoming.quantity.value() > 0 && !incoming.spec_is_expired(now) && !(incoming.post_only
        && would_match(book, incoming)) {
        let buy = incoming.side == OrderSide::Buy;
        let levels = if buy {
            book.asks
        } else {
            book.bids
        };
        let st0 = side_start(levels, book.orders, incoming);
        lemma_levels_run_users(book.symbol, incoming.price, buy, st0, levels.len());
    }
}

/// `a` is a prefix of `b`.
pub open spec fn ids_prefix(a: Seq<u128>, b: Seq<u128>) -> bool {
    a.len() <= b.len() && forall|k: int| 0 <= k < a.len() ==> a[k] == #[trigger] b[k]
}

proof fn lemma_ids_run_cancelled_grow(
    symbol: Seq<char>,
    price: Dec,
    ids: Seq<u128>,
    st: MatchRun,
    i: nat,
    n: nat,
)
    requires
        i <= n,
    ensures
        ids_prefix(
            ids_run(symbol, price, ids, st, i).cancelled,
            ids_run(symbol, price, ids, st, n).cancelled,
        ),
    decreases n - i,
{
    if i < n {
        lemma_ids_run_cancelled_grow(symbol, price, ids, st, i, (n - 1) as nat);
        let a = ids_run(symbol, price, ids, st, i).cancelled;
        let prev = ids_run(symbol, price, ids, st, (n - 1) as nat);
        let r = ids_run(symbol, price, ids, st, n);
        assert(r == id_step(symbol, price, prev, ids[n - 1]));
        assert forall|k: int| 0 <= k < a.len() implies a[k] == #[trigger] r.cancelled[k] by {
            assert(a[k] == prev.cancelled[k]);
        }
    }
}

proof fn lemma_levels_run_cancelled_grow(
    symbol: Seq<char>,
    limit: Option<Dec>,
    buy: bool,
    len: nat,
    st: MatchRun,
    i: nat,
    n: nat,
)
    requires
        i <= n,
    ensures
        ids_prefix(
            levels_run(symbol, limit, buy, len, st, i).cancelled,
            levels_run(symbol, limit, buy, len, st, n).cancelled,
        ),
    decreases n - i,
{
    if i < n {
        lemma_levels_run_cancelled_grow(symbol, limit, buy, len, st, i, (n - 1) as nat);
        let a = levels_run(symbol, limit, buy, len, st, i).cancelled;
        let prev = levels_run(symbol, limit, buy, len, st, (n - 1) as nat);
        let idx = level_index(buy, len, (n - 1) as nat);
        let r = levels_run(symbol, limit, buy, len, st, n);
        assert(r == level_step(symbol, limit, buy, prev, idx));
        if prev.flow is Running && !prev.incoming.spec_is_filled() && in_range(
            prev.levels[idx].0,
            limit,
            buy,
        ) {
            let lv = prev.levels[idx];
            let s0 = MatchRun { to_remove: Seq::empty(), ..prev };
            lemma_ids_run_cancelled_grow(symbol, lv.0, lv.1, s0, 0, lv.1.len());
            let s1 = ids_run(symbol, lv.0, lv.1, s0, lv.1.len());
            assert(r.cancelled == s1.cancelled);
        }
        assert forall|k: int| 0 <= k < a.len() implies a[k] == #[trigger] r.cancelled[k] by {
            assert(a[k] == prev.cancelled[k]);
        }
    }
}

/// Self-trade prevention by cancelling: when an incoming order first meets
/// a resting order of the same user (the oldest order of the best level
/// within its limit), its mode decides which of the two is cancelled; in
/// cancel-smallest mode it is the one with the strictly smaller remaining
/// quantity, the resting one when they are equal.
/// - When the incoming order is cancelled, matching stops: the resting order
///   stays in the book as it was, and a successful match trades nothing and
///   reports only the incoming order, now cancelled, as cancelled.
/// - When the resting order is cancelled, a successful match reports it as
///   the first cancelled order.
/// - When both are cancelled, matching stops: a successful match trades
///   nothing, reports both, incoming first, and the resting order has left
///   the book.
pub proof fn law_self_trade_cancels(book: BookView, incoming: Order, now: i64)
    requires
        incoming.quantity.value() > 0,
        !incoming.spec_is_expired(now),
        !(incoming.post_only && would_match(book, incoming)),
        !incoming.spec_is_filled(),
        ({
            let buy = incoming.side == OrderSide::Buy;
            let levels = if buy { book.asks } else { book.bids };
            let lv = levels[level_index(buy, levels.len(), 0)];
            &&& levels.len() > 0
            &&& in_range(lv.0, incoming.price, buy)
            &&& lv.1.len() > 0
            &&& book.orders.contains_key(lv.1[0])
            &&& book.orders[lv.1[0]].user_id@ == incoming.user_id@
            &&& incoming.stp_mode == SelfTradePreventionMode::CancelSmallest ==> {
                &&& incoming.spec_remaining() is Some
                &&& book.orders[lv.1[0]].spec_remaining() is Some
            }
        }),
    ensures
        ({
            let buy = incoming.side == OrderSide::Buy;
            let levels = if buy { book.asks } else { book.bids };
            let rid = levels[level_index(buy, levels.len(), 0)].1[0];
            let resting = book.orders[rid];
            let mode = incoming.stp_mode;
            let smaller_incoming = incoming.spec_remaining()->Some_0.value()
                < resting.spec_remaining()->Some_0.value();
            let out = match_outcome(book, incoming, now);
            &&& (mode == SelfTradePreventionMode::CancelIncoming || mode
                == SelfTradePreventionMode::CancelSmallest && smaller_incoming) ==> {
                &&& out.orders.contains_key(rid)
                &&& out.orders[rid] == resting
                &&& out.result is Ok ==> {
                    &&& out.result == Ok::<(Seq<TradeContent>, Seq<u128>), MatchingError>(
                        (Seq::empty(), seq![incoming.id]),
                    )
                    &&& out.incoming.status == OrderStatus::Cancelled
                }
            }
            &&& (mode == SelfTradePreventionMode::CancelResting || mode
                == SelfTradePreventionMode::CancelSmallest && !smaller_incoming) ==> (
            out.result matches Ok((ts, c)) ==> c.len() >= 1 && c[0] == rid)
            &&& mode == SelfTradePreventionMode::CancelBoth ==> (out.result is Ok ==> {
                &&& out.result == Ok::<(Seq<TradeContent>, Seq<u128>), MatchingError>(
                    (Seq::empty(), seq![incoming.id, rid]),
                )
                &&& out.incoming.status == OrderStatus::Cancelled
                &&& !out.orders.contains_key(rid)
            })
        }),
{
    let buy = incoming.side == OrderSide::Buy;
    let levels = if buy { book.asks } else { book.bids };
    let len = levels.len();
    let idx = level_index(buy, len, 0);
    let lv = levels[idx];
    let rid = lv.1[0];
    let resting = book.orders[rid];
    let mode = incoming.stp_mode;
    let st0 = side_start(levels, book.orders, incoming);
    let symbol = book.symbol;
    let limit = incoming.price;
    assert(levels_run(symbol, limit, buy, len, st0, 0) == st0);
    assert(levels_run(symbol, limit, buy, len, st0, 1) == level_step(symbol, limit, buy, st0, idx))
        by {
        reveal_with_fuel(levels_run, 2);
    }
    assert(levels_run(symbol, limit, buy, len, st0, 1) == level_visit(symbol, st0, idx));
    let s0 = MatchRun { to_remove: Seq::empty(), ..st0 };
    assert(s0 == st0);
    let first = ids_run(symbol, lv.0, lv.1, s0, 1);
    assert(first == id_visit(symbol, lv.0, s0, rid)) by {
        reveal_with_fuel(ids_run, 2);
    }
    let s1 = ids_run(symbol, lv.0, lv.1, s0, lv.1.len());
    let l1 = levels_run(symbol, limit, buy, len, st0, 1);
    let action = stp_action(incoming, resting);
    if action == Some(SelfTradeAction::CancelIncoming) || action == Some(
        SelfTradeAction::CancelBoth,
    ) {
        assert(first.flow == Flow::Stopped);
        lemma_ids_run_settled(symbol, lv.0, lv.1, s0, 1, lv.1.len());
        assert(s1 == first);
        assert(l1 == level_cleanup(s1, idx));
        assert(!(l1.flow is Running));
        lemma_levels_run_settled(symbol, limit, buy, len, st0, 1, len);
        assert(side_run(symbol, limit, buy, levels, book.orders, incoming) == l1);
        assert(l1.trades == Seq::<TradeContent>::empty());
        if action == Some(SelfTradeAction::CancelIncoming) {
            assert(first.orders == book.orders.insert(rid, resting));
            assert(l1.orders == s1.orders);
            assert(l1.cancelled == seq![incoming.id]);
        } else {
            assert(first.to_remove == seq![rid]);
            assert(s1.to_remove.len() == 1);
            assert(l1.flow is Failed || l1.orders == s1.orders.remove(rid)) by {
                reveal_with_fuel(crate::engine::matching::cleanup_run, 2);
            }
            assert(l1.cancelled == seq![incoming.id, rid]);
        }
    } else if action == Some(SelfTradeAction::CancelResting) {
        assert(first.cancelled == seq![rid]);
        lemma_ids_run_cancelled_grow(symbol, lv.0, lv.1, s0, 1, lv.1.len());
        assert(l1.cancelled == s1.cancelled);
        lemma_levels_run_cancelled_grow(symbol, limit, buy, len, st0, 1, len);
        assert(ids_prefix(seq![rid], side_run(symbol, limit, buy, levels, book.orders, incoming).cancelled));
    }
}

} // verus!
