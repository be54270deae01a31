//! Time priority, proved over `match_outcome`: the resting orders that an
//! incoming order trades with come in the order in which the book holds
//! them, level after level in the order the run meets them (best price
//! first on a sorted book) and, within a level, oldest first.
use vstd::prelude::*;

use crate::decimal::Dec;
use crate::engine::matching::{
    cleanup_run, id_visit, ids_run, in_range, level_cleanup, level_index, level_visit, levels_run,
    match_outcome, resting_outcome, side_run, side_start, stp_action, would_match, MatchRun,
    SelfTradeAction,
};
use crate::engine::matching_laws::{
    lemma_ids_run, lemma_level_visit, lemma_levels_run, unvisited,
};
use crate::engine::types::{BookView, LevelView, Order, OrderSide, TradeContent};

verus! {

/// The resting order a trade was made with: the seller when the incoming
/// order buys, the buyer when it sells.
pub open spec fn maker_of(t: TradeContent, buy: bool) -> u128 {
    if buy {
        t.4
    } else {
        t.3
    }
}

/// The resting orders of the trades, in trade order.
pub open spec fn makers(trades: Seq<TradeContent>, buy: bool) -> Seq<u128> {
    trades.map_values(|t: TradeContent| maker_of(t, buy))
}

/// The order ids of the first `n` levels, level after level in the order a
/// run meets them, each level oldest first.
pub open spec fn queue_ids(levels: Seq<LevelView>, buy: bool, n: nat) -> Seq<u128>
    decreases n,
{
    if n == 0 {
        Seq::empty()
    } else {
        queue_ids(levels, buy, (n - 1) as nat) + levels[level_index(buy, levels.len(), (n - 1) as nat)].1
    }
}

/// The ids that the orders listed under `ids` carry.
pub open spec fn ids_of(ids: Seq<u128>, orders: Map<u128, Order>) -> Seq<u128> {
    ids.map_values(|r: u128| orders[r].id)
}

/// The resting orders an incoming order may meet, in priority order: the
/// asks for a buy, first level first, the bids for a sell, last level
/// first; within a level, oldest first.
pub open spec fn priority_order(book: BookView, buy: bool) -> Seq<u128> {
    let levels = if buy {
        book.asks
    } else {
        book.bids
    };
    ids_of(queue_ids(levels, buy, levels.len()), book.orders)
}

/// `f` places each element of `a` at a position of `b`, the positions
/// strictly increasing.
pub open spec fn embeds(f: Seq<int>, a: Seq<u128>, b: Seq<u128>) -> bool {
    &&& f.len() == a.len()
    &&& forall|i: int| 0 <= i < f.len() ==> 0 <= #[trigger] f[i] < b.len() && b[f[i]] == a[i]
    &&& forall|i: int, j: int| 0 <= i < j < f.len() ==> #[trigger] f[i] < #[trigger] f[j]
}

/// `a` is `b` with some elements left out, the rest in the same order.
pub open spec fn is_subsequence(a: Seq<u128>, b: Seq<u128>) -> bool {
    exists|f: Seq<int>| embeds(f, a, b)
}

/// Every order of `m` is held in `orders0` and carries the same id there.
pub open spec fn ids_agree(orders0: Map<u128, Order>, m: Map<u128, Order>) -> bool {
    forall|k: u128| #[trigger]
        m.contains_key(k) ==> orders0.contains_key(k) && m[k].id == orders0[k].id
}

/// The resting orders of the trades a run added to `st`'s.
pub open spec fn new_makers(st: MatchRun, r: MatchRun, buy: bool) -> Seq<u128> {
    makers(r.trades.subrange(st.trades.len() as int, r.trades.len() as int), buy)
}

proof fn lemma_embeds_extend(f: Seq<int>, a: Seq<u128>, b: Seq<u128>, c: Seq<u128>)
    requires
        embeds(f, a, b),
    ensures
        embeds(f, a, b + c),
{
    assert forall|i: int| 0 <= i < f.len() implies 0 <= #[trigger] f[i] < (b + c).len() && (b
        + c)[f[i]] == a[i] by {
        assert((b + c)[f[i]] == b[f[i]]);
    }
}

proof fn lemma_embeds_concat(f: Seq<int>, a: Seq<u128>, b: Seq<u128>, g: Seq<int>, c: Seq<u128>, d: Seq<u128>)
    requires
        embeds(f, a, b),
        embeds(g, c, d),
    ensures
        embeds(f + g.map_values(|x: int| x + b.len()), a + c, b + d),
{
    let h = f + g.map_values(|x: int| x + b.len());
    assert forall|i: int| 0 <= i < h.len() implies 0 <= #[trigger] h[i] < (b + d).len() && (b
        + d)[h[i]] == (a + c)[i] by {
        if i < f.len() {
            assert(h[i] == f[i]);
        } else {
            let k = i - f.len();
            assert(h[i] == g[k] + b.len());
            assert(0 <= g[k] < d.len());
            assert((b + d)[h[i]] == d[g[k]]);
        }
    }
    assert forall|i: int, j: int| 0 <= i < j < h.len() implies #[trigger] h[i] < #[trigger] h[j] by {
        if j < f.len() {
            assert(h[i] == f[i] && h[j] == f[j]);
        } else if i < f.len() {
            assert(h[i] == f[i]);
            assert(h[j] == g[j - f.len()] + b.len());
            assert(0 <= g[j - f.len()]);
        } else {
            assert(h[i] == g[i - f.len()] + b.len());
            assert(h[j] == g[j - f.len()] + b.len());
            assert(g[i - f.len()] < g[j - f.len()]);
        }
    }
}

/// Meeting one resting order keeps the orders' ids and adds at most one
/// trade, made with that order.
proof fn lemma_id_visit_maker(symbol: Seq<char>, price: Dec, st: MatchRun, rid: u128, orders0: Map<u128, Order>)
    requires
        ids_agree(orders0, st.orders),
    ensures
        ({
            let r = id_visit(symbol, price, st, rid);
            &&& ids_agree(orders0, r.orders)
            &&& r.trades == st.trades || (r.trades == st.trades.push(r.trades.last())
                && orders0.contains_key(rid) && maker_of(
                r.trades.last(),
                st.incoming.side == OrderSide::Buy,
            ) == orders0[rid].id)
        }),
{
    let r = id_visit(symbol, price, st, rid);
    if st.orders.contains_key(rid) {
        let inc = st.incoming;
        let rest = st.orders[rid];
        match resting_outcome(symbol, price, inc, rest, rid) {
            None => {},
            Some(t) => {
                assert(t.resting.id == rest.id);
                assert forall|k: u128| #[trigger] r.orders.contains_key(k) implies orders0.contains_key(k)
                    && r.orders[k].id == orders0[k].id by {
                    if k != rid {
                        assert(st.orders.contains_key(k));
                    }
                }
                match stp_action(inc, rest) {
                    Some(SelfTradeAction::Allow) => {
                        let buy = inc.side == OrderSide::Buy;
                        assert(r.trades == st.trades.push(r.trades.last()));
                        if buy {
                            assert(maker_of(r.trades.last(), buy) == rest.id);
                        } else {
                            assert(maker_of(r.trades.last(), buy) == rest.id);
                        }
                    },
                    _ => {},
                }
            },
        }
    }
}

/// A run over the first `n` orders of a level keeps the orders' ids, and
/// the trades it adds are made with orders of the level in queue order.
proof fn lemma_ids_run_order(
    symbol: Seq<char>,
    price: Dec,
    ids: Seq<u128>,
    st: MatchRun,
    n: nat,
    orders0: Map<u128, Order>,
) -> (f: Seq<int>)
    requires
        ids_agree(orders0, st.orders),
        n <= ids.len(),
    ensures
        ({
            let r = ids_run(symbol, price, ids, st, n);
            let buy = st.incoming.side == OrderSide::Buy;
            &&& ids_agree(orders0, r.orders)
            &&& embeds(f, new_makers(st, r, buy), ids_of(ids, orders0))
            &&& forall|i: int| 0 <= i < f.len() ==> #[trigger] f[i] < n
        }),
    decreases n,
{
    let buy = st.incoming.side == OrderSide::Buy;
    let r = ids_run(symbol, price, ids, st, n);
    let b = ids_of(ids, orders0);
    if n == 0 {
        assert(new_makers(st, r, buy) =~= Seq::<u128>::empty());
        Seq::empty()
    } else {
        let prev = ids_run(symbol, price, ids, st, (n - 1) as nat);
        let f0 = lemma_ids_run_order(symbol, price, ids, st, (n - 1) as nat, orders0);
        lemma_ids_run(symbol, price, ids, st, (n - 1) as nat);
        if prev.flow is Running && !prev.incoming.spec_is_filled() {
            let rid = ids[n - 1];
            lemma_id_visit_maker(symbol, price, prev, rid, orders0);
            if r.trades == prev.trades {
                f0
            } else {
                let s0 = st.trades.len() as int;
                let c = r.trades.last();
                assert(r.trades.subrange(s0, r.trades.len() as int) =~= prev.trades.subrange(
                    s0,
                    prev.trades.len() as int,
                ).push(c));
                assert(new_makers(st, r, buy) =~= new_makers(st, prev, buy).push(maker_of(c, buy)));
                let f = f0.push((n - 1) as int);
                assert(b[n - 1] == orders0[rid].id);
                assert forall|i: int| 0 <= i < f.len() implies 0 <= #[trigger] f[i] < b.len()
                    && b[f[i]] == new_makers(st, r, buy)[i] by {
                    if i < f0.len() {
                        assert(f[i] == f0[i]);
                    }
                }
                assert forall|i: int, j: int| 0 <= i < j < f.len() implies #[trigger] f[i]
                    < #[trigger] f[j] by {
                    if j < f0.len() {
                        assert(f[i] == f0[i] && f[j] == f0[j]);
                    } else {
                        assert(f[i] == f0[i]);
                    }
                }
                assert forall|i: int| 0 <= i < f.len() implies #[trigger] f[i] < n by {
                    if i < f0.len() {
                        assert(f[i] == f0[i]);
                    }
                }
                f
            }
        } else {
            f0
        }
    }
}

/// Taking orders off a level only removes orders from the book.
proof fn lemma_cleanup_removes(orders: Map<u128, Order>, rm: Seq<u128>, n: nat)
    ensures
        ({
            let m = cleanup_run(orders, rm, n);
            forall|k: u128| #[trigger] m.contains_key(k) ==> orders.contains_key(k) && m[k] == orders[k]
        }),
    decreases n,
{
    if n > 0 {
        lemma_cleanup_removes(orders, rm, (n - 1) as nat);
        let prev = cleanup_run(orders, rm, (n - 1) as nat);
        let m = cleanup_run(orders, rm, n);
        assert forall|k: u128| #[trigger] m.contains_key(k) implies orders.contains_key(k) && m[k]
            == orders[k] by {
            assert(prev.contains_key(k));
        }
    }
}

/// Meeting the orders of level `idx` keeps the orders' ids, changes no
/// other level, and the trades it adds are made with orders of that level
/// in queue order.
proof fn lemma_level_visit_order(symbol: Seq<char>, st: MatchRun, idx: int, orders0: Map<u128, Order>) -> (f: Seq<int>)
    requires
        0 <= idx < st.levels.len(),
        ids_agree(orders0, st.orders),
    ensures
        ({
            let r = level_visit(symbol, st, idx);
            let buy = st.incoming.side == OrderSide::Buy;
            &&& ids_agree(orders0, r.orders)
            &&& embeds(f, new_makers(st, r, buy), ids_of(st.levels[idx].1, orders0))
            &&& r.levels.len() == st.levels.len()
            &&& forall|j: int| 0 <= j < st.levels.len() && j != idx ==> #[trigger] r.levels[j] == st.levels[j]
        }),
{
    let lv = st.levels[idx];
    let st0 = MatchRun { to_remove: Seq::empty(), ..st };
    let st1 = ids_run(symbol, lv.0, lv.1, st0, lv.1.len());
    let f = lemma_ids_run_order(symbol, lv.0, lv.1, st0, lv.1.len(), orders0);
    lemma_ids_run(symbol, lv.0, lv.1, st0, lv.1.len());
    let buy = st.incoming.side == OrderSide::Buy;
    assert(new_makers(st0, st1, buy) == new_makers(st, st1, buy));
    if !(st1.flow is Failed) {
        lemma_cleanup_removes(st1.orders, st1.to_remove, st1.to_remove.len());
        let r = level_cleanup(st1, idx);
        assert(r.trades == st1.trades);
        assert forall|k: u128| #[trigger] r.orders.contains_key(k) implies orders0.contains_key(k)
            && r.orders[k].id == orders0[k].id by {
            assert(st1.orders.contains_key(k));
        }
    }
    f
}

/// After `n` steps over the levels, the orders keep their ids, the levels
/// not yet met are as they were, and the trades added are made with orders
/// of the first `n` levels met, in queue order.
proof fn lemma_levels_run_order(
    symbol: Seq<char>,
    limit: Option<Dec>,
    buy: bool,
    st0: MatchRun,
    n: nat,
    orders0: Map<u128, Order>,
) -> (f: Seq<int>)
    requires
        n <= st0.levels.len(),
        ids_agree(orders0, st0.orders),
        buy == (st0.incoming.side == OrderSide::Buy),
    ensures
        ({
            let len = st0.levels.len();
            let r = levels_run(symbol, limit, buy, len, st0, n);
            &&& ids_agree(orders0, r.orders)
            &&& r.levels.len() == len
            &&& forall|j: int| unvisited(buy, len, n, j) ==> #[trigger] r.levels[j] == st0.levels[j]
            &&& embeds(f, new_makers(st0, r, buy), ids_of(queue_ids(st0.levels, buy, n), orders0))
        }),
    decreases n,
{
    let len = st0.levels.len();
    let lv0 = st0.levels;
    let r = levels_run(symbol, limit, buy, len, st0, n);
    if n == 0 {
        assert(new_makers(st0, r, buy) =~= Seq::<u128>::empty());
        Seq::empty()
    } else {
        let prev = levels_run(symbol, limit, buy, len, st0, (n - 1) as nat);
        let f0 = lemma_levels_run_order(symbol, limit, buy, st0, (n - 1) as nat, orders0);
        lemma_levels_run(symbol, limit, buy, st0, (n - 1) as nat);
        let idx = level_index(buy, len, (n - 1) as nat);
        let q0 = ids_of(queue_ids(lv0, buy, (n - 1) as nat), orders0);
        let qi = ids_of(lv0[idx].1, orders0);
        assert(ids_of(queue_ids(lv0, buy, n), orders0) =~= q0 + qi);
        assert(unvisited(buy, len, (n - 1) as nat, idx));
        if prev.flow is Running && !prev.incoming.spec_is_filled() && in_range(
            prev.levels[idx].0,
            limit,
            buy,
        ) {
            let g = lemma_level_visit_order(symbol, prev, idx, orders0);
            lemma_level_visit(symbol, prev, idx);
            assert(prev.levels[idx] == lv0[idx]);
            let s0 = st0.trades.len() as int;
            let p = prev.trades.len() as int;
            assert(r.trades.subrange(s0, r.trades.len() as int) =~= prev.trades.subrange(s0, p)
                + r.trades.subrange(p, r.trades.len() as int)) by {
                assert(r.trades.subrange(0, p) == prev.trades);
                assert forall|k: int| s0 <= k < p implies r.trades[k] == prev.trades[k] by {
                    assert(r.trades.subrange(0, p)[k] == prev.trades[k]);
                }
            }
            assert(new_makers(st0, r, buy) =~= new_makers(st0, prev, buy) + new_makers(prev, r, buy));
            lemma_embeds_concat(f0, new_makers(st0, prev, buy), q0, g, new_makers(prev, r, buy), qi);
            assert forall|j: int| unvisited(buy, len, n, j) implies #[trigger] r.levels[j] == lv0[j] by {
                assert(unvisited(buy, len, (n - 1) as nat, j));
                assert(j != idx);
                assert(r.levels[j] == prev.levels[j]);
            }
            f0 + g.map_values(|x: int| x + q0.len())
        } else {
            lemma_embeds_extend(f0, new_makers(st0, r, buy), q0, qi);
            assert forall|j: int| unvisited(buy, len, n, j) implies #[trigger] r.levels[j] == lv0[j] by {
                assert(unvisited(buy, len, (n - 1) as nat, j));
            }
            f0
        }
    }
}

/// Price-time priority: the resting orders that a successful match trades
/// with, in trade order, are the opposite side's orders in priority order
/// with some left out (levels in the order the match meets them, which is
/// best price first on a sorted book, and each level oldest first); in
/// particular no resting order is met twice in one match.
pub proof fn law_price_time_priority(book: BookView, incoming: Order, now: i64)
    requires
        match_outcome(book, incoming, now).result is Ok,
    ensures
        is_subsequence(
            makers(match_outcome(book, incoming, now).result->Ok_0.0, incoming.side == OrderSide::Buy),
            priority_order(book, incoming.side == OrderSide::Buy),
        ),
{
    let buy = incoming.side == OrderSide::Buy;
    let trades = match_outcome(book, incoming, now).result->Ok_0.0;
    let target = priority_order(book, buy);
    if incoming.quantity.value() > 0 && !incoming.spec_is_expired(now) && !(incoming.post_only
        && would_match(book, incoming)) {
        let levels = if buy {
            book.asks
        } else {
            book.bids
        };
        let st0 = side_start(levels, book.orders, incoming);
        let f = lemma_levels_run_order(book.symbol, incoming.price, buy, st0, levels.len(), book.orders);
        let st = side_run(book.symbol, incoming.price, buy, levels, book.orders, incoming);
        assert(st.trades.subrange(0, st.trades.len() as int) =~= st.trades);
        assert(trades == st.trades);
        assert(embeds(f, makers(trades, buy), target));
    } else {
        let f = Seq::<int>::empty();
        assert(makers(trades, buy) =~= Seq::<u128>::empty());
        assert(embeds(f, makers(trades, buy), target));
    }
}

} // verus!
