//! The book's invariant, proved over `match_outcome`: on a book whose
//! levels are not empty, whose listed orders are held at their level's
//! price, whose level totals are the sums of the remaining quantities of
//! the orders on them, and where no order is listed on two levels, a
//! successful match leaves a book of which the same holds.
use vstd::prelude::*;

use crate::decimal::Dec;
use crate::engine::matching::{
    cleanup_run, id_visit, ids_run, in_range, keep_levels, level_cleanup, level_index,
    level_visit, levels_run, match_outcome, remaining_sum, resting_outcome, side_run,
    side_start, would_match, MatchRun,
};
use crate::engine::matching_laws::unvisited;
use crate::engine::types::{without_ids, BookView, LevelView, Order, OrderSide};

verus! {

/// The two maps agree on `k`: both hold it, with the same order, or neither does.
pub open spec fn same_at(m1: Map<u128, Order>, m2: Map<u128, Order>, k: u128) -> bool {
    &&& m1.contains_key(k) == m2.contains_key(k)
    &&& m1.contains_key(k) ==> m1[k] == m2[k]
}

/// A level's total is the sum of the remaining quantities of its orders.
pub open spec fn level_total_ok(l: LevelView, orders: Map<u128, Order>) -> bool {
    remaining_sum(l.1, orders, l.1.len()) == Some(l.2)
}

/// Every level's total is the sum of the remaining quantities of its orders.
pub open spec fn totals_ok(levels: Seq<LevelView>, orders: Map<u128, Order>) -> bool {
    forall|j: int| 0 <= j < levels.len() ==> level_total_ok(#[trigger] levels[j], orders)
}

/// No order is listed on two different levels.
pub open spec fn lists_disjoint(levels: Seq<LevelView>) -> bool {
    forall|i: int, j: int, k: u128|
        #![trigger levels[i].1.contains(k), levels[j].1.contains(k)]
        0 <= i < levels.len() && 0 <= j < levels.len() && i != j && levels[i].1.contains(k)
            ==> !levels[j].1.contains(k)
}

/// No order is listed on both sides.
pub open spec fn sides_disjoint(bids: Seq<LevelView>, asks: Seq<LevelView>) -> bool {
    forall|i: int, j: int, k: u128|
        #![trigger bids[i].1.contains(k), asks[j].1.contains(k)]
        0 <= i < bids.len() && 0 <= j < asks.len() && bids[i].1.contains(k) ==> !asks[j].1.contains(k)
}

/// No level is empty.
pub open spec fn levels_nonempty(levels: Seq<LevelView>) -> bool {
    forall|j: int| 0 <= j < levels.len() ==> (#[trigger] levels[j]).1.len() > 0
}

/// Every order listed on a level is held by the book, at that level's price.
pub open spec fn ids_placed(levels: Seq<LevelView>, orders: Map<u128, Order>) -> bool {
    forall|j: int, k: u128|
        0 <= j < levels.len() && #[trigger] levels[j].1.contains(k) ==> orders.contains_key(k)
            && orders[k].price == Some(levels[j].0)
}

/// The book's levels are not empty, every order listed on a level is held
/// at that level's price, level totals are the remaining quantities of the
/// orders on them, and no order is listed twice over the levels of both
/// sides.
pub open spec fn book_consistent(bids: Seq<LevelView>, asks: Seq<LevelView>, orders: Map<u128, Order>) -> bool {
    &&& levels_nonempty(bids)
    &&& levels_nonempty(asks)
    &&& ids_placed(bids, orders)
    &&& ids_placed(asks, orders)
    &&& totals_ok(bids, orders)
    &&& totals_ok(asks, orders)
    &&& lists_disjoint(bids)
    &&& lists_disjoint(asks)
    &&& sides_disjoint(bids, asks)
}

/// The remaining sum of a list depends only on the orders it lists.
proof fn lemma_remaining_sum_frame(ids: Seq<u128>, m1: Map<u128, Order>, m2: Map<u128, Order>, n: nat)
    requires
        n <= ids.len(),
        forall|a: int| 0 <= a < n ==> same_at(m1, m2, #[trigger] ids[a]),
    ensures
        remaining_sum(ids, m1, n) == remaining_sum(ids, m2, n),
    decreases n,
{
    if n > 0 {
        lemma_remaining_sum_frame(ids, m1, m2, (n - 1) as nat);
        assert(same_at(m1, m2, ids[n - 1]));
    }
}

/// A level whose orders are untouched keeps a right total.
proof fn lemma_total_frame(l: LevelView, m1: Map<u128, Order>, m2: Map<u128, Order>)
    requires
        level_total_ok(l, m1),
        forall|k: u128| l.1.contains(k) ==> same_at(m1, m2, k),
    ensures
        level_total_ok(l, m2),
{
    assert forall|a: int| 0 <= a < l.1.len() implies same_at(m1, m2, #[trigger] l.1[a]) by {
        assert(l.1.contains(l.1[a]));
    }
    lemma_remaining_sum_frame(l.1, m1, m2, l.1.len());
}

/// Meeting `rid` changes the book's orders at `rid` alone and lists no other
/// id to remove.
proof fn lemma_id_visit_frame(symbol: Seq<char>, price: Dec, st: MatchRun, rid: u128)
    ensures
        ({
            let r = id_visit(symbol, price, st, rid);
            &&& forall|k: u128| k != rid ==> #[trigger] same_at(st.orders, r.orders, k)
            &&& forall|k: u128| #[trigger] r.to_remove.contains(k) ==> st.to_remove.contains(k) || k == rid
            &&& r.levels == st.levels
        }),
{
    let r = id_visit(symbol, price, st, rid);
    if st.orders.contains_key(rid) {
        match resting_outcome(symbol, price, st.incoming, st.orders[rid], rid) {
            Some(t) => {
                assert forall|k: u128| #[trigger] r.to_remove.contains(k) implies st.to_remove.contains(
                    k,
                ) || k == rid by {
                    if t.remove {
                        let i = choose|i: int| 0 <= i < r.to_remove.len() && r.to_remove[i] == k;
                        if i < st.to_remove.len() {
                            assert(st.to_remove[i] == k);
                        }
                    }
                }
            },
            None => {},
        }
    }
}

/// A run over a level's orders changes the book's orders only at ids of
/// that level, and lists only ids of that level to remove.
proof fn lemma_ids_run_frame(symbol: Seq<char>, price: Dec, ids: Seq<u128>, st: MatchRun, n: nat)
    requires
        n <= ids.len(),
    ensures
        ({
            let r = ids_run(symbol, price, ids, st, n);
            &&& forall|k: u128| !ids.contains(k) ==> #[trigger] same_at(st.orders, r.orders, k)
            &&& forall|k: u128| #[trigger] r.to_remove.contains(k) ==> st.to_remove.contains(k) || ids.contains(k)
            &&& r.levels == st.levels
        }),
    decreases n,
{
    if n > 0 {
        let prev = ids_run(symbol, price, ids, st, (n - 1) as nat);
        lemma_ids_run_frame(symbol, price, ids, st, (n - 1) as nat);
        if prev.flow is Running && !prev.incoming.spec_is_filled() {
            let rid = ids[n - 1];
            lemma_id_visit_frame(symbol, price, prev, rid);
            assert(ids.contains(rid));
            let r = ids_run(symbol, price, ids, st, n);
            assert forall|k: u128| !ids.contains(k) implies #[trigger] same_at(st.orders, r.orders, k) by {
                assert(same_at(st.orders, prev.orders, k));
                assert(same_at(prev.orders, r.orders, k));
            }
        }
    }
}

/// Taking ids off the book changes it only at those ids.
proof fn lemma_cleanup_frame(orders: Map<u128, Order>, rm: Seq<u128>, n: nat)
    requires
        n <= rm.len(),
    ensures
        forall|k: u128| !rm.contains(k) ==> #[trigger] same_at(orders, cleanup_run(orders, rm, n), k),
    decreases n,
{
    if n > 0 {
        lemma_cleanup_frame(orders, rm, (n - 1) as nat);
        assert(rm.contains(rm[n - 1]));
        let prev = cleanup_run(orders, rm, (n - 1) as nat);
        assert forall|k: u128| !rm.contains(k) implies #[trigger] same_at(
            orders,
            cleanup_run(orders, rm, n),
            k,
        ) by {
            assert(same_at(orders, prev, k));
            assert(k != rm[n - 1]);
        }
    }
}

/// What is left of a list is part of it.
proof fn lemma_without_ids_sub(s: Seq<u128>, rm: Seq<u128>)
    ensures
        forall|k: u128| #[trigger] without_ids(s, rm).contains(k) ==> s.contains(k),
    decreases s.len(),
{
    if s.len() > 0 {
        lemma_without_ids_sub(s.drop_last(), rm);
        let w = without_ids(s, rm);
        let w0 = without_ids(s.drop_last(), rm);
        assert forall|k: u128| #[trigger] w.contains(k) implies s.contains(k) by {
            let i = choose|i: int| 0 <= i < w.len() && w[i] == k;
            if i < w0.len() {
                assert(w0[i] == k);
                assert(w0.contains(k));
                let j = choose|j: int| 0 <= j < s.drop_last().len() && s.drop_last()[j] == k;
                assert(s[j] == k);
            } else {
                assert(s[s.len() - 1] == k);
            }
        }
    }
}

/// Matching at level `idx`, unless it fails, changes no other level, keeps
/// only ids of that level on it with a right total, and changes the book's
/// orders only at ids of that level.
proof fn lemma_level_visit_totals(symbol: Seq<char>, st: MatchRun, idx: int)
    requires
        0 <= idx < st.levels.len(),
    ensures
        ({
            let r = level_visit(symbol, st, idx);
            let lv = st.levels[idx];
            !(r.flow is Failed) ==> {
                &&& r.levels.len() == st.levels.len()
                &&& forall|j: int| 0 <= j < st.levels.len() && j != idx ==> #[trigger] r.levels[j] == st.levels[j]
                &&& forall|k: u128| #[trigger] r.levels[idx].1.contains(k) ==> lv.1.contains(k)
                &&& level_total_ok(r.levels[idx], r.orders)
                &&& forall|k: u128| !lv.1.contains(k) ==> #[trigger] same_at(st.orders, r.orders, k)
            }
        }),
{
    let lv = st.levels[idx];
    let st0 = MatchRun { to_remove: Seq::empty(), ..st };
    let st1 = ids_run(symbol, lv.0, lv.1, st0, lv.1.len());
    lemma_ids_run_frame(symbol, lv.0, lv.1, st0, lv.1.len());
    let r = level_visit(symbol, st, idx);
    if !(st1.flow is Failed) && !(r.flow is Failed) {
        assert(r == level_cleanup(st1, idx));
        let m = cleanup_run(st1.orders, st1.to_remove, st1.to_remove.len());
        lemma_cleanup_frame(st1.orders, st1.to_remove, st1.to_remove.len());
        lemma_without_ids_sub(lv.1, st1.to_remove);
        assert forall|k: u128| !lv.1.contains(k) implies #[trigger] same_at(st.orders, r.orders, k) by {
            assert(same_at(st0.orders, st1.orders, k));
            if st1.to_remove.contains(k) {
                assert(st0.to_remove.contains(k) || lv.1.contains(k));
                assert(false);
            }
            assert(same_at(st1.orders, m, k));
        }
    }
}

/// What holds after `n` steps of a run over the levels `lv0`, while it has
/// not failed: the levels not yet met are as they were, every level lists
/// only ids it listed before, and the totals of these levels and of the
/// other side's levels `other` are right.
pub open spec fn run_totals_ok(
    lv0: Seq<LevelView>,
    other: Seq<LevelView>,
    r: MatchRun,
    buy: bool,
    n: nat,
) -> bool {
    !(r.flow is Failed) ==> {
        &&& r.levels.len() == lv0.len()
        &&& forall|j: int| 0 <= j < lv0.len() && unvisited(buy, lv0.len(), n, j) ==> #[trigger] r.levels[j] == lv0[j]
        &&& forall|j: int, k: u128| 0 <= j < lv0.len() && #[trigger] r.levels[j].1.contains(k) ==> lv0[j].1.contains(k)
        &&& totals_ok(r.levels, r.orders)
        &&& totals_ok(other, r.orders)
    }
}

proof fn lemma_levels_run_totals(
    symbol: Seq<char>,
    limit: Option<Dec>,
    buy: bool,
    st0: MatchRun,
    other: Seq<LevelView>,
    n: nat,
)
    requires
        n <= st0.levels.len(),
        !(st0.flow is Failed),
        totals_ok(st0.levels, st0.orders),
        totals_ok(other, st0.orders),
        lists_disjoint(st0.levels),
        sides_disjoint(st0.levels, other),
    ensures
        run_totals_ok(st0.levels, other, levels_run(symbol, limit, buy, st0.levels.len(), st0, n), buy, n),
    decreases n,
{
    let len = st0.levels.len();
    let lv0 = st0.levels;
    if n > 0 {
        let prev = levels_run(symbol, limit, buy, len, st0, (n - 1) as nat);
        let r = levels_run(symbol, limit, buy, len, st0, n);
        lemma_levels_run_totals(symbol, limit, buy, st0, other, (n - 1) as nat);
        let idx = level_index(buy, len, (n - 1) as nat);
        assert(unvisited(buy, len, (n - 1) as nat, idx));
        if !(prev.flow is Failed) {
            if prev.flow is Running && !prev.incoming.spec_is_filled() && in_range(
                prev.levels[idx].0,
                limit,
                buy,
            ) {
                lemma_level_visit_totals(symbol, prev, idx);
                if !(r.flow is Failed) {
                    assert(prev.levels[idx] == lv0[idx]);
                    assert forall|j: int| 0 <= j < len && unvisited(buy, len, n, j) implies #[trigger] r.levels[j] == lv0[j] by {
                        assert(unvisited(buy, len, (n - 1) as nat, j));
                        assert(j != idx);
                        assert(r.levels[j] == prev.levels[j]);
                    }
                    assert forall|j: int, k: u128| 0 <= j < len && #[trigger] r.levels[j].1.contains(k) implies lv0[j].1.contains(k) by {
                        if j != idx {
                            assert(r.levels[j] == prev.levels[j]);
                        }
                    }
                    assert forall|j: int| 0 <= j < r.levels.len() implies level_total_ok(#[trigger] r.levels[j], r.orders) by {
                        if j != idx {
                            assert(r.levels[j] == prev.levels[j]);
                            assert(level_total_ok(prev.levels[j], prev.orders));
                            assert forall|k: u128| prev.levels[j].1.contains(k) implies same_at(prev.orders, r.orders, k) by {
                                assert(lv0[j].1.contains(k));
                                assert(!lv0[idx].1.contains(k));
                                assert(same_at(prev.orders, r.orders, k));
                            }
                            lemma_total_frame(prev.levels[j], prev.orders, r.orders);
                        }
                    }
                    assert forall|j: int| 0 <= j < other.len() implies level_total_ok(#[trigger] other[j], r.orders) by {
                        assert(level_total_ok(other[j], prev.orders));
                        assert forall|k: u128| other[j].1.contains(k) implies same_at(prev.orders, r.orders, k) by {
                            if lv0[idx].1.contains(k) {
                                assert(!other[j].1.contains(k));
                            }
                        }
                        lemma_total_frame(other[j], prev.orders, r.orders);
                    }
                }
            } else {
                assert forall|j: int| 0 <= j < len && unvisited(buy, len, n, j) implies #[trigger] r.levels[j] == lv0[j] by {
                    assert(unvisited(buy, len, (n - 1) as nat, j));
                }
            }
        }
    }
}

proof fn lemma_sides_flip(a: Seq<LevelView>, b: Seq<LevelView>)
    requires
        sides_disjoint(a, b),
    ensures
        sides_disjoint(b, a),
{
    assert forall|i: int, j: int, k: u128|
        #![trigger b[i].1.contains(k), a[j].1.contains(k)]
        0 <= i < b.len() && 0 <= j < a.len() && b[i].1.contains(k) implies !a[j].1.contains(k) by {
        if a[j].1.contains(k) {
            assert(!b[i].1.contains(k));
        }
    }
}

/// The levels kept are some of the levels, in order.
proof fn lemma_keep_levels_from(levels: Seq<LevelView>, emptied: Seq<usize>, n: nat) -> (f: Seq<int>)
    requires
        n <= levels.len(),
    ensures
        f.len() == keep_levels(levels, emptied, n).len(),
        forall|i: int| 0 <= i < f.len() ==> 0 <= #[trigger] f[i] < n && keep_levels(levels, emptied, n)[i] == levels[f[i]]
            && !emptied.contains(f[i] as usize),
        forall|i: int, j: int| 0 <= i < j < f.len() ==> #[trigger] f[i] < #[trigger] f[j],
    decreases n,
{
    if n == 0 {
        Seq::empty()
    } else {
        let f0 = lemma_keep_levels_from(levels, emptied, (n - 1) as nat);
        if emptied.contains((n - 1) as usize) {
            f0
        } else {
            let f = f0.push(n - 1);
            let kept = keep_levels(levels, emptied, n);
            assert forall|i: int| 0 <= i < f.len() implies 0 <= #[trigger] f[i] < n && kept[i] == levels[f[i]]
                && !emptied.contains(f[i] as usize) by {
                if i < f0.len() {
                    assert(f[i] == f0[i]);
                }
            }
            assert forall|i: int, j: int| 0 <= i < j < f.len() implies #[trigger] f[i] < #[trigger] f[j] by {
                assert(f[i] == f0[i]);
                if j < f0.len() {
                    assert(f[j] == f0[j]);
                }
            }
            f
        }
    }
}

/// Dropping levels keeps right totals and lists apart.
proof fn lemma_keep_levels_consistent(
    levels: Seq<LevelView>,
    emptied: Seq<usize>,
    other: Seq<LevelView>,
    orders: Map<u128, Order>,
)
    requires
        totals_ok(levels, orders),
        lists_disjoint(levels),
        sides_disjoint(levels, other),
    ensures
        totals_ok(keep_levels(levels, emptied, levels.len()), orders),
        lists_disjoint(keep_levels(levels, emptied, levels.len())),
        sides_disjoint(keep_levels(levels, emptied, levels.len()), other),
{
    let kept = keep_levels(levels, emptied, levels.len());
    let f = lemma_keep_levels_from(levels, emptied, levels.len());
    assert forall|j: int| 0 <= j < kept.len() implies level_total_ok(#[trigger] kept[j], orders) by {
        assert(kept[j] == levels[f[j]]);
    }
    assert forall|i: int, j: int, k: u128|
        #![trigger kept[i].1.contains(k), kept[j].1.contains(k)]
        0 <= i < kept.len() && 0 <= j < kept.len() && i != j && kept[i].1.contains(k) implies !kept[j].1.contains(k) by {
        assert(kept[i] == levels[f[i]]);
        assert(kept[j] == levels[f[j]]);
        if i < j {
            assert(f[i] < f[j]);
        } else {
            assert(f[j] < f[i]);
        }
        assert(levels[f[i]].1.contains(k));
    }
    assert forall|i: int, j: int, k: u128|
        #![trigger kept[i].1.contains(k), other[j].1.contains(k)]
        0 <= i < kept.len() && 0 <= j < other.len() && kept[i].1.contains(k) implies !other[j].1.contains(k) by {
        assert(kept[i] == levels[f[i]]);
        assert(levels[f[i]].1.contains(k));
    }
}

/// The book's invariant after a match: on a book whose levels are not
/// empty, whose listed orders are held at their level's price, whose level
/// totals are the sums of the remaining quantities of the orders on them,
/// and where no order is listed twice, a successful match leaves a book of
/// which the same holds (a partial fill lowers its level's total, an order
/// taken off leaves its level and the book with what was left of it, and
/// emptied levels are gone).
pub proof fn law_match_keeps_level_totals(book: BookView, incoming: Order, now: i64)
    requires
        book_consistent(book.bids, book.asks, book.orders),
        match_outcome(book, incoming, now).result is Ok,
    ensures
        book_consistent(
            match_outcome(book, incoming, now).bids,
            match_outcome(book, incoming, now).asks,
            match_outcome(book, incoming, now).orders,
        ),
{
    if incoming.quantity.value() > 0 && !incoming.spec_is_expired(now) && !(incoming.post_only
        && would_match(book, incoming)) {
        let buy = incoming.side == OrderSide::Buy;
        let levels = if buy {
            book.asks
        } else {
            book.bids
        };
        let other = if buy {
            book.bids
        } else {
            book.asks
        };
        if buy {
            lemma_sides_flip(book.bids, book.asks);
        }
        let st0 = side_start(levels, book.orders, incoming);
        lemma_levels_run_totals(book.symbol, incoming.price, buy, st0, other, levels.len());
        let st = side_run(book.symbol, incoming.price, buy, levels, book.orders, incoming);
        assert(!(st.flow is Failed));
        let len = levels.len();
        assert forall|i: int, j: int, k: u128|
            #![trigger st.levels[i].1.contains(k), st.levels[j].1.contains(k)]
            0 <= i < len && 0 <= j < len && i != j && st.levels[i].1.contains(k) implies !st.levels[j].1.contains(k) by {
            assert(levels[i].1.contains(k));
            if st.levels[j].1.contains(k) {
                assert(levels[j].1.contains(k));
            }
        }
        assert forall|i: int, j: int, k: u128|
            #![trigger st.levels[i].1.contains(k), other[j].1.contains(k)]
            0 <= i < len && 0 <= j < other.len() && st.levels[i].1.contains(k) implies !other[j].1.contains(k) by {
            assert(levels[i].1.contains(k));
        }
        lemma_keep_levels_consistent(st.levels, st.emptied, other, st.orders);
        lemma_levels_run_placed(book.symbol, incoming.price, buy, st0, other, levels.len());
        let side = keep_levels(st.levels, st.emptied, st.levels.len());
        let f = lemma_keep_levels_from(st.levels, st.emptied, st.levels.len());
        assert forall|j: int| 0 <= j < side.len() implies (#[trigger] side[j]).1.len() > 0 by {
            assert(side[j] == st.levels[f[j]]);
        }
        assert forall|j: int, k: u128|
            0 <= j < side.len() && #[trigger] side[j].1.contains(k) implies st.orders.contains_key(k)
                && st.orders[k].price == Some(side[j].0) by {
            assert(side[j] == st.levels[f[j]]);
        }
        if !buy {
            lemma_sides_flip(side, other);
        } else {
            lemma_sides_flip(side, other);
            lemma_sides_flip(other, side);
        }
    }
}

/// What a list without some ids holds is not among those ids.
proof fn lemma_without_ids_out(s: Seq<u128>, rm: Seq<u128>)
    ensures
        forall|k: u128| #[trigger] without_ids(s, rm).contains(k) ==> !rm.contains(k),
    decreases s.len(),
{
    if s.len() > 0 {
        lemma_without_ids_out(s.drop_last(), rm);
        let w = without_ids(s, rm);
        let w0 = without_ids(s.drop_last(), rm);
        assert forall|k: u128| #[trigger] w.contains(k) implies !rm.contains(k) by {
            let i = choose|i: int| 0 <= i < w.len() && w[i] == k;
            if i < w0.len() {
                assert(w0[i] == k);
                assert(w0.contains(k));
            }
        }
    }
}

/// Meeting an order keeps every order of the book held, at its price.
proof fn lemma_id_visit_keeps(symbol: Seq<char>, price: Dec, st: MatchRun, rid: u128)
    ensures
        forall|k: u128|
            st.orders.contains_key(k) ==> #[trigger] id_visit(symbol, price, st, rid).orders.contains_key(k)
                && id_visit(symbol, price, st, rid).orders[k].price == st.orders[k].price,
{
}

proof fn lemma_ids_run_keeps(symbol: Seq<char>, price: Dec, ids: Seq<u128>, st: MatchRun, n: nat)
    ensures
        forall|k: u128|
            st.orders.contains_key(k) ==> #[trigger] ids_run(symbol, price, ids, st, n).orders.contains_key(k)
                && ids_run(symbol, price, ids, st, n).orders[k].price == st.orders[k].price,
    decreases n,
{
    if n > 0 {
        lemma_ids_run_keeps(symbol, price, ids, st, (n - 1) as nat);
        let prev = ids_run(symbol, price, ids, st, (n - 1) as nat);
        let r = ids_run(symbol, price, ids, st, n);
        if prev.flow is Running && !prev.incoming.spec_is_filled() {
            lemma_id_visit_keeps(symbol, price, prev, ids[n - 1]);
            assert forall|k: u128| st.orders.contains_key(k) implies #[trigger] r.orders.contains_key(k)
                && r.orders[k].price == st.orders[k].price by {
                assert(prev.orders.contains_key(k));
                assert(id_visit(symbol, price, prev, ids[n - 1]).orders.contains_key(k));
            }
        } else {
            assert forall|k: u128| st.orders.contains_key(k) implies #[trigger] r.orders.contains_key(k)
                && r.orders[k].price == st.orders[k].price by {
                assert(prev.orders.contains_key(k));
            }
        }
    }
}

/// Matching at level `idx`, unless it fails, keeps the level's price, keeps
/// every order left on it held at that price, notes it when it is left
/// empty, and forgets no level noted before.
proof fn lemma_level_visit_placed(symbol: Seq<char>, st: MatchRun, idx: int)
    requires
        0 <= idx < st.levels.len(),
        forall|k: u128|
            #[trigger] st.levels[idx].1.contains(k) ==> st.orders.contains_key(k) && st.orders[k].price
                == Some(st.levels[idx].0),
    ensures
        ({
            let r = level_visit(symbol, st, idx);
            let lv = st.levels[idx];
            !(r.flow is Failed) ==> {
                &&& r.levels[idx].0 == lv.0
                &&& forall|k: u128| #[trigger] r.levels[idx].1.contains(k) ==> r.orders.contains_key(k)
                    && r.orders[k].price == Some(lv.0)
                &&& r.levels[idx].1.len() == 0 ==> r.emptied.contains(idx as usize)
                &&& forall|x: usize| #[trigger] st.emptied.contains(x) ==> r.emptied.contains(x)
            }
        }),
{
    let lv = st.levels[idx];
    let st0 = MatchRun { to_remove: Seq::empty(), ..st };
    let st1 = ids_run(symbol, lv.0, lv.1, st0, lv.1.len());
    crate::engine::matching::lemma_ids_run_frame(symbol, lv.0, lv.1, st0, lv.1.len());
    lemma_ids_run_keeps(symbol, lv.0, lv.1, st0, lv.1.len());
    let r = level_visit(symbol, st, idx);
    if !(st1.flow is Failed) && !(r.flow is Failed) {
        assert(r == level_cleanup(st1, idx));
        let m = cleanup_run(st1.orders, st1.to_remove, st1.to_remove.len());
        lemma_cleanup_frame(st1.orders, st1.to_remove, st1.to_remove.len());
        lemma_without_ids_sub(lv.1, st1.to_remove);
        lemma_without_ids_out(lv.1, st1.to_remove);
        assert forall|k: u128| #[trigger] r.levels[idx].1.contains(k) implies r.orders.contains_key(k)
            && r.orders[k].price == Some(lv.0) by {
            assert(lv.1.contains(k));
            assert(!st1.to_remove.contains(k));
            assert(same_at(st1.orders, m, k));
        }
        assert forall|x: usize| #[trigger] st.emptied.contains(x) implies r.emptied.contains(x) by {
            if r.levels[idx].1.len() == 0 {
                let i = choose|i: int| 0 <= i < st.emptied.len() && st.emptied[i] == x;
                assert(r.emptied[i] == x);
            }
        }
        if r.levels[idx].1.len() == 0 {
            assert(r.emptied[r.emptied.len() - 1] == idx as usize);
        }
    }
}

/// What holds after `n` steps of a run over the levels `lv0`, while it has
/// not failed: the levels keep their prices, every order listed on them or
/// on the other side's levels `other` is held at its level's price, and
/// every level left empty is noted.
pub open spec fn run_placed_ok(
    lv0: Seq<LevelView>,
    other: Seq<LevelView>,
    r: MatchRun,
    buy: bool,
    n: nat,
) -> bool {
    !(r.flow is Failed) ==> {
        &&& forall|j: int| 0 <= j < lv0.len() ==> (#[trigger] r.levels[j]).0 == lv0[j].0
        &&& ids_placed(r.levels, r.orders)
        &&& ids_placed(other, r.orders)
        &&& forall|j: int| 0 <= j < lv0.len() && (#[trigger] r.levels[j]).1.len() == 0 ==> r.emptied.contains(j as usize)
    }
}

proof fn lemma_levels_run_placed(
    symbol: Seq<char>,
    limit: Option<Dec>,
    buy: bool,
    st0: MatchRun,
    other: Seq<LevelView>,
    n: nat,
)
    requires
        n <= st0.levels.len(),
        !(st0.flow is Failed),
        totals_ok(st0.levels, st0.orders),
        totals_ok(other, st0.orders),
        lists_disjoint(st0.levels),
        sides_disjoint(st0.levels, other),
        levels_nonempty(st0.levels),
        ids_placed(st0.levels, st0.orders),
        ids_placed(other, st0.orders),
    ensures
        run_placed_ok(st0.levels, other, levels_run(symbol, limit, buy, st0.levels.len(), st0, n), buy, n),
    decreases n,
{
    let len = st0.levels.len();
    let lv0 = st0.levels;
    if n > 0 {
        let prev = levels_run(symbol, limit, buy, len, st0, (n - 1) as nat);
        let r = levels_run(symbol, limit, buy, len, st0, n);
        lemma_levels_run_placed(symbol, limit, buy, st0, other, (n - 1) as nat);
        lemma_levels_run_totals(symbol, limit, buy, st0, other, (n - 1) as nat);
        let idx = level_index(buy, len, (n - 1) as nat);
        assert(unvisited(buy, len, (n - 1) as nat, idx));
        if !(prev.flow is Failed) {
            if prev.flow is Running && !prev.incoming.spec_is_filled() && in_range(
                prev.levels[idx].0,
                limit,
                buy,
            ) {
                assert(prev.levels[idx] == lv0[idx]);
                assert forall|k: u128| #[trigger] prev.levels[idx].1.contains(k) implies prev.orders.contains_key(k)
                    && prev.orders[k].price == Some(prev.levels[idx].0) by {
                    assert(prev.levels[idx].1.contains(k));
                }
                lemma_level_visit_totals(symbol, prev, idx);
                lemma_level_visit_placed(symbol, prev, idx);
                if !(r.flow is Failed) {
                    assert forall|j: int| 0 <= j < len implies (#[trigger] r.levels[j]).0 == lv0[j].0 by {
                        if j != idx {
                            assert(r.levels[j] == prev.levels[j]);
                        }
                    }
                    assert forall|j: int, k: u128|
                        0 <= j < r.levels.len() && #[trigger] r.levels[j].1.contains(k) implies r.orders.contains_key(k)
                            && r.orders[k].price == Some(r.levels[j].0) by {
                        if j != idx {
                            assert(r.levels[j] == prev.levels[j]);
                            assert(lv0[j].1.contains(k));
                            assert(!lv0[idx].1.contains(k));
                            assert(same_at(prev.orders, r.orders, k));
                        }
                    }
                    assert forall|j: int, k: u128|
                        0 <= j < other.len() && #[trigger] other[j].1.contains(k) implies r.orders.contains_key(k)
                            && r.orders[k].price == Some(other[j].0) by {
                        if lv0[idx].1.contains(k) {
                            assert(!other[j].1.contains(k));
                        }
                        assert(same_at(prev.orders, r.orders, k));
                    }
                    assert forall|j: int| 0 <= j < len && (#[trigger] r.levels[j]).1.len() == 0 implies r.emptied.contains(j as usize) by {
                        if j != idx {
                            assert(r.levels[j] == prev.levels[j]);
                            assert(prev.emptied.contains(j as usize));
                        }
                    }
                }
            }
        }
    } else {
        assert forall|j: int| 0 <= j < len && (#[trigger] st0.levels[j]).1.len() == 0 implies st0.emptied.contains(j as usize) by {
            assert(st0.levels[j].1.len() > 0);
        }
    }
}

} // verus!
