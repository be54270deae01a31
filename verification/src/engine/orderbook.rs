//! The order book engine: one book per symbol, order submission with
//! matching, cancellation, queries, and the stop orders that trades fire.
use vstd::prelude::*;

use crate::decimal::{dec_add, dec_sub, Dec};
use crate::engine::errors::OrderBookError;
use crate::engine::matching::{match_order_at, match_outcome, MatchingError};
use crate::engine::stop_order::StopOrder;
use crate::engine::trigger::{
    add_stop_view, cancel_stop_view, capped, lemma_on_trade_count, levels_for, on_trade_view,
    stop_of, stop_total, TriggerEngine, TriggerView,
};
use crate::engine::types::{
    levels_view, trades_content, without_ids, BookView, LevelView, Order, OrderBook, OrderSide,
    OrderStatus, OrderType, PriceLevel, Trade, TradeContent,
};
use crate::engine::validation::{order_is_valid, validate_order, validation_error};

verus! {

broadcast use {vstd::std_specs::hash::group_hash_axioms, crate::decimal::group_dec_parts};

/// Index of the first of the first `n` levels priced `price` (by value).
pub open spec fn find_price(levels: Seq<LevelView>, price: Dec, n: nat) -> Option<int>
    decreases n,
{
    if n == 0 {
        None
    } else {
        match find_price(levels, price, (n - 1) as nat) {
            Some(i) => Some(i),
            None => if levels[n - 1].0.value() == price.value() {
                Some(n - 1)
            } else {
                None
            },
        }
    }
}

/// Number of the first `n` levels priced below `price`.
pub open spec fn below_count(levels: Seq<LevelView>, price: Dec, n: nat) -> nat
    decreases n,
{
    if n == 0 {
        0
    } else {
        below_count(levels, price, (n - 1) as nat) + if levels[n - 1].0.value() < price.value() {
            1nat
        } else {
            0nat
        }
    }
}

/// Taking order `id` with quantity `qty` off the level priced `price`: the
/// id leaves the level, the quantity leaves its total, and an emptied level
/// goes (`None` on decimal overflow; no change when there is no such level).
pub open spec fn side_without(levels: Seq<LevelView>, id: u128, price: Dec, qty: Dec) -> Option<
    Seq<LevelView>,
> {
    match find_price(levels, price, levels.len()) {
        None => Some(levels),
        Some(i) => match dec_sub(levels[i].2, qty) {
            None => None,
            Some(t) => {
                let lv = (levels[i].0, without_ids(levels[i].1, seq![id]), t);
                if lv.1.len() == 0 {
                    Some(levels.remove(i))
                } else {
                    Some(levels.update(i, lv))
                }
            },
        },
    }
}

/// Queuing order `id` with quantity `qty` at price `price`: at the back of
/// that level, or in a new level placed after the lower-priced levels
/// (`None` on decimal overflow).
pub open spec fn side_with(levels: Seq<LevelView>, id: u128, price: Dec, qty: Dec) -> Option<
    Seq<LevelView>,
> {
    match find_price(levels, price, levels.len()) {
        Some(i) => match dec_add(levels[i].2, qty) {
            Some(t) => Some(levels.update(i, (levels[i].0, levels[i].1.push(id), t))),
            None => None,
        },
        None => match dec_add(Dec::spec_zero(), qty) {
            Some(t) => Some(
                levels.insert(below_count(levels, price, levels.len()) as int, (price, seq![id], t)),
            ),
            None => None,
        },
    }
}

proof fn lemma_find_price_mono(levels: Seq<LevelView>, price: Dec, m: nat, n: nat)
    requires
        m <= n,
        find_price(levels, price, m) is Some,
    ensures
        find_price(levels, price, n) == find_price(levels, price, m),
    decreases n - m,
{
    if m < n {
        lemma_find_price_mono(levels, price, m, (n - 1) as nat);
    }
}

proof fn lemma_find_price_bounds(levels: Seq<LevelView>, price: Dec, n: nat)
    requires
        n <= levels.len(),
    ensures
        find_price(levels, price, n) matches Some(i) ==> 0 <= i < n && levels[i].0.value()
            == price.value(),
        find_price(levels, price, n) is None ==> forall|k: int|
            0 <= k < n ==> (#[trigger] levels[k]).0.value() != price.value(),
    decreases n,
{
    if n > 0 {
        lemma_find_price_bounds(levels, price, (n - 1) as nat);
    }
}

/// Index of the level priced `price`, if any.
fn price_position(levels: &Vec<PriceLevel>, price: Dec) -> (r: Option<usize>)
    ensures
        r matches Some(i) ==> find_price(levels_view(levels@), price, levels@.len()) == Some(
            i as int,
        ) && i < levels@.len(),
        r is None ==> find_price(levels_view(levels@), price, levels@.len()) is None,
{
    let ghost v = levels_view(levels@);
    proof {
        lemma_find_price_bounds(v, price, v.len());
    }
    let mut i: usize = 0;
    while i < levels.len()
        invariant
            i <= levels@.len(),
            v == levels_view(levels@),
            find_price(v, price, i as nat) is None,
        decreases levels.len() - i,
    {
        if levels[i].price.eq_value(&price) {
            proof {
                lemma_find_price_mono(v, price, (i + 1) as nat, levels@.len());
            }
            return Some(i);
        }
        i = i + 1;
    }
    None
}

/// Take an order off its price level on one side (`false` on decimal overflow,
/// and then nothing changes).
fn remove_from_side(levels: &mut Vec<PriceLevel>, order_id: u128, price: Dec, remaining_qty: Dec) -> (ok: bool)
    ensures
        match side_without(levels_view(old(levels)@), order_id, price, remaining_qty) {
            None => !ok && final(levels)@ == old(levels)@,
            Some(l) => ok && levels_view(final(levels)@) == l,
        },
{
    let ghost v = levels_view(levels@);
    proof {
        lemma_find_price_bounds(v, price, v.len());
    }
    match price_position(levels, price) {
        None => true,
        Some(i) => {
            let mut level = levels[i].duplicate();
            if !level.remove_order(order_id, remaining_qty) {
                return false;
            }
            if level.is_empty() {
                levels.remove(i);
                proof {
                    assert(levels_view(levels@) =~= v.remove(i as int));
                }
            } else {
                levels.set(i, level);
                proof {
                    assert(levels_view(levels@) =~= v.update(i as int, level.view_level()));
                }
            }
            true
        },
    }
}

/// Queue an order at its price level on one side (`false` on decimal
/// overflow, and then nothing changes).
fn add_to_side(levels: &mut Vec<PriceLevel>, order_id: u128, price: Dec, quantity: Dec) -> (ok: bool)
    ensures
        match side_with(levels_view(old(levels)@), order_id, price, quantity) {
            None => !ok && final(levels)@ == old(levels)@,
            Some(l) => ok && levels_view(final(levels)@) == l,
        },
{
    let ghost v = levels_view(levels@);
    proof {
        lemma_find_price_bounds(v, price, v.len());
    }
    match price_position(levels, price) {
        Some(i) => {
            let mut level = levels[i].duplicate();
            if !level.add_order(order_id, quantity) {
                return false;
            }
            levels.set(i, level);
            proof {
                assert(levels_view(levels@) =~= v.update(i as int, level.view_level()));
            }
            true
        },
        None => {
            let mut level = PriceLevel::new(price);
            if !level.add_order(order_id, quantity) {
                return false;
            }
            let mut c: usize = 0;
            let mut i: usize = 0;
            while i < levels.len()
                invariant
                    i <= levels@.len(),
                    v == levels_view(levels@),
                    c as nat == below_count(v, price, i as nat),
                    c <= i,
                decreases levels.len() - i,
            {
                if levels[i].price.lt(&price) {
                    c = c + 1;
                }
                i = i + 1;
            }
            levels.insert(c, level);
            proof {
                assert(level.view_level().1 =~= seq![order_id]);
                assert(levels_view(levels@) =~= v.insert(c as int, level.view_level()));
            }
            true
        },
    }
}

/// Remove an order from its price level in the order book (`false` on
/// decimal overflow, and then nothing changes).
fn remove_order_from_price_level(
    book: &mut OrderBook,
    order_id: u128,
    price: Dec,
    side: &OrderSide,
    remaining_qty: Dec,
) -> (ok: bool)
    ensures
        ({
            let old_side = if *side == OrderSide::Buy {
                old(book)@.bids
            } else {
                old(book)@.asks
            };
            match side_without(old_side, order_id, price, remaining_qty) {
                None => !ok && final(book)@ == old(book)@,
                Some(l) => ok && final(book)@ == (if *side == OrderSide::Buy {
                    BookView { bids: l, ..old(book)@ }
                } else {
                    BookView { asks: l, ..old(book)@ }
                }),
            }
        }),
{
    match side {
        OrderSide::Buy => remove_from_side(&mut book.bids, order_id, price, remaining_qty),
        OrderSide::Sell => remove_from_side(&mut book.asks, order_id, price, remaining_qty),
    }
}

/// Add an order to its price level in the order book (`false` on decimal
/// overflow, and then nothing changes).
fn add_order_to_price_level(
    book: &mut OrderBook,
    order_id: u128,
    price: Dec,
    side: &OrderSide,
    quantity: Dec,
) -> (ok: bool)
    ensures
        ({
            let old_side = if *side == OrderSide::Buy {
                old(book)@.bids
            } else {
                old(book)@.asks
            };
            match side_with(old_side, order_id, price, quantity) {
                None => !ok && final(book)@ == old(book)@,
                Some(l) => ok && final(book)@ == (if *side == OrderSide::Buy {
                    BookView { bids: l, ..old(book)@ }
                } else {
                    BookView { asks: l, ..old(book)@ }
                }),
            }
        }),
{
    match side {
        OrderSide::Buy => add_to_side(&mut book.bids, order_id, price, quantity),
        OrderSide::Sell => add_to_side(&mut book.asks, order_id, price, quantity),
    }
}

/// The engine by value: its books, in the order they were opened, and its
/// stop orders.
#[verifier::ext_equal]
pub struct EngineView {
    pub books: Seq<BookView>,
    pub trigger: TriggerView,
}

/// An empty book for `symbol`.
pub open spec fn empty_book(symbol: Seq<char>) -> BookView {
    BookView {
        symbol,
        bids: Seq::empty(),
        asks: Seq::empty(),
        orders: Map::empty(),
        trades: Seq::empty(),
    }
}

/// Index of the first of the first `n` books of `symbol`.
pub open spec fn find_book(books: Seq<BookView>, symbol: Seq<char>, n: nat) -> Option<int>
    decreases n,
{
    if n == 0 {
        None
    } else {
        match find_book(books, symbol, (n - 1) as nat) {
            Some(i) => Some(i),
            None => if books[n - 1].symbol == symbol {
                Some(n - 1)
            } else {
                None
            },
        }
    }
}

/// The books with one for `symbol` (an empty one appended when there was
/// none), and its index.
pub open spec fn with_book(books: Seq<BookView>, symbol: Seq<char>) -> (Seq<BookView>, int) {
    match find_book(books, symbol, books.len()) {
        Some(i) => (books, i),
        None => (books.push(empty_book(symbol)), books.len() as int),
    }
}

proof fn lemma_find_book_mono(books: Seq<BookView>, symbol: Seq<char>, m: nat, n: nat)
    requires
        m <= n,
        find_book(books, symbol, m) is Some,
    ensures
        find_book(books, symbol, n) == find_book(books, symbol, m),
    decreases n - m,
{
    if m < n {
        lemma_find_book_mono(books, symbol, m, (n - 1) as nat);
    }
}

proof fn lemma_find_book_bounds(books: Seq<BookView>, symbol: Seq<char>, n: nat)
    requires
        n <= books.len(),
    ensures
        find_book(books, symbol, n) matches Some(i) ==> 0 <= i < n && books[i].symbol == symbol,
    decreases n,
{
    if n > 0 {
        lemma_find_book_bounds(books, symbol, (n - 1) as nat);
    }
}

/// One side of a book.
pub open spec fn side_of(b: BookView, side: OrderSide) -> Seq<LevelView> {
    if side == OrderSide::Buy {
        b.bids
    } else {
        b.asks
    }
}

/// The book with one side replaced.
pub open spec fn with_side(b: BookView, side: OrderSide, l: Seq<LevelView>) -> BookView {
    if side == OrderSide::Buy {
        BookView { bids: l, ..b }
    } else {
        BookView { asks: l, ..b }
    }
}

/// Cancelling order `id` in the book of `symbol`: the books afterwards and
/// the cancelled order or the error.  An unknown order, or one already
/// filled or cancelled, leaves the book as it was.
pub open spec fn cancel_outcome(books: Seq<BookView>, symbol: Seq<char>, id: u128) -> (
    Seq<BookView>,
    Result<Order, OrderBookError>,
) {
    let (bs, i) = with_book(books, symbol);
    let b = bs[i];
    if !b.orders.contains_key(id) {
        (bs, Err(OrderBookError::OrderNotFound(id)))
    } else {
        let o = b.orders[id];
        let cancelled = Order { status: OrderStatus::Cancelled, ..o };
        if o.status == OrderStatus::Filled || o.status == OrderStatus::Cancelled {
            (bs, Err(OrderBookError::OrderNotActive(id)))
        } else {
            let b1 = BookView { orders: b.orders.remove(id), ..b };
            match o.price {
                None => (bs.update(i, b1), Ok(cancelled)),
                Some(p) => match o.spec_remaining() {
                    None => (bs, Err(OrderBookError::MatchingError(MatchingError::ArithmeticOverflow))),
                    Some(rq) => match side_without(side_of(b1, o.side), id, p, rq) {
                        None => (
                            bs,
                            Err(OrderBookError::MatchingError(MatchingError::ArithmeticOverflow)),
                        ),
                        Some(l) => (bs.update(i, with_side(b1, o.side, l)), Ok(cancelled)),
                    },
                },
            }
        }
    }
}

/// What is noted of each cancelled order the book still holds: id, price,
/// side and remaining quantity (`None` on decimal overflow).
pub open spec fn cancel_data(b: BookView, ids: Seq<u128>) -> Seq<(u128, Option<Dec>, OrderSide, Option<Dec>)>
    decreases ids.len(),
{
    if ids.len() == 0 {
        Seq::empty()
    } else {
        let prev = cancel_data(b, ids.drop_last());
        let id = ids.last();
        if b.orders.contains_key(id) {
            let o = b.orders[id];
            prev.push((id, o.price, o.side, o.spec_remaining()))
        } else {
            prev
        }
    }
}

/// Taking the noted orders off their levels and out of the book, in order
/// (`None` on decimal overflow).
pub open spec fn apply_cancels(b: BookView, data: Seq<(u128, Option<Dec>, OrderSide, Option<Dec>)>) -> Option<
    BookView,
>
    decreases data.len(),
{
    if data.len() == 0 {
        Some(b)
    } else {
        match apply_cancels(b, data.drop_last()) {
            None => None,
            Some(b1) => {
                let (id, price, side, rq) = data.last();
                match rq {
                    None => None,
                    Some(q) => {
                        let b2 = match price {
                            None => Some(b1),
                            Some(p) => match side_without(side_of(b1, side), id, p, q) {
                                None => None,
                                Some(l) => Some(with_side(b1, side, l)),
                            },
                        };
                        match b2 {
                            None => None,
                            Some(b3) => Some(BookView { orders: b3.orders.remove(id), ..b3 }),
                        }
                    },
                }
            },
        }
    }
}

/// An order that should rest (unfilled, live, neither immediate-or-cancel
/// nor fill-or-kill) and is a limit order joins its price level and the
/// book's orders (`None` on decimal overflow).
pub open spec fn rest_order(b: BookView, o: Order) -> Option<BookView> {
    if o.spec_should_rest() && o.order_type == OrderType::Limit {
        match o.price {
            None => Some(b),
            Some(p) => match o.spec_remaining() {
                None => None,
                Some(rq) => match side_with(side_of(b, o.side), o.id, p, rq) {
                    None => None,
                    Some(l) => {
                        let b2 = with_side(b, o.side, l);
                        Some(BookView { orders: b2.orders.insert(o.id, o), ..b2 })
                    },
                },
            },
        }
    } else {
        Some(b)
    }
}

/// After a match: the cancelled orders leave the book, then the order rests
/// if it should (`None` on decimal overflow).
pub open spec fn settle(b: BookView, o: Order, cancelled: Seq<u128>) -> Option<BookView> {
    match apply_cancels(b, cancel_data(b, cancelled)) {
        None => None,
        Some(b2) => rest_order(b2, o),
    }
}

/// Submitting a valid order at time `now`: the books afterwards (not yet
/// holding the new trades in their history), the index of the order's book,
/// and the result: the order after matching with the trades' contents, or
/// the error.  A duplicate id, a failed match or an overflow leaves the book
/// as it was (an empty book for a new symbol stays opened).
pub struct Submitted {
    pub books: Seq<BookView>,
    pub index: int,
    pub result: Result<(Order, Seq<TradeContent>), OrderBookError>,
}

pub open spec fn submitted(books: Seq<BookView>, order: Order, now: i64) -> Submitted {
    let (bs, i) = with_book(books, order.symbol@);
    let b = bs[i];
    let overflow = Err(OrderBookError::MatchingError(MatchingError::ArithmeticOverflow));
    if b.orders.contains_key(order.id) {
        Submitted { books: bs, index: i, result: Err(OrderBookError::DuplicateOrder(order.id)) }
    } else {
        let out = match_outcome(b, order, now);
        match out.result {
            Err(e) => Submitted { books: bs, index: i, result: Err(OrderBookError::MatchingError(e)) },
            Ok((trades, cancelled)) => {
                let b1 = BookView { bids: out.bids, asks: out.asks, orders: out.orders, ..b };
                match settle(b1, out.incoming, cancelled) {
                    None => Submitted { books: bs, index: i, result: overflow },
                    Some(b3) => Submitted {
                        books: bs.update(i, b3),
                        index: i,
                        result: Ok((out.incoming, trades)),
                    },
                }
            },
        }
    }
}

/// The exec result of a submission agrees with `s`.
pub open spec fn submit_result_is(
    s: Submitted,
    r: Result<(Order, Vec<Trade>), OrderBookError>,
) -> bool {
    &&& (r is Ok <==> s.result is Ok)
    &&& (r matches Err(e) ==> s.result == Err::<(Order, Seq<TradeContent>), OrderBookError>(e))
    &&& (r matches Ok((o, ts)) ==> s.result == Ok::<(Order, Seq<TradeContent>), OrderBookError>(
        (o, trades_content(ts@)),
    ))
}

/// Order book engine: one book per symbol, and the stop orders.
pub struct OrderBookEngine {
    books: Vec<OrderBook>,
    trigger_engine: TriggerEngine,
}

impl View for OrderBookEngine {
    type V = EngineView;

    closed spec fn view(&self) -> EngineView {
        EngineView { books: self.books@.map_values(|b: OrderBook| b@), trigger: self.trigger_engine@ }
    }
}

/// Number of resting orders of the books.
pub open spec fn orders_total(books: Seq<BookView>) -> nat
    decreases books.len(),
{
    if books.len() == 0 {
        0
    } else {
        orders_total(books.drop_last()) + books.last().orders.len()
    }
}

/// Number of trades of the books.
pub open spec fn trades_total(books: Seq<BookView>) -> nat
    decreases books.len(),
{
    if books.len() == 0 {
        0
    } else {
        trades_total(books.drop_last()) + books.last().trades.len()
    }
}

/// The symbols of the books.
pub open spec fn symbols_of(books: Seq<BookView>) -> Seq<Seq<char>> {
    books.map_values(|b: BookView| b.symbol)
}

impl OrderBookEngine {
    /// An engine with no books and no stop orders.
    pub fn new() -> (e: OrderBookEngine)
        ensures
            e@.books.len() == 0,
            e@.trigger.buys.len() == 0,
            e@.trigger.sells.len() == 0,
            e@.trigger.index == Map::<u128, (Dec, bool)>::empty(),
            e@.trigger.last is None,
    {
        OrderBookEngine { books: Vec::new(), trigger_engine: TriggerEngine::new() }
    }

    /// Index of the book of `symbol`, opened empty when there is none.
    fn get_or_create_book(&mut self, symbol: &str) -> (i: usize)
        ensures
            final(self)@.books == with_book(old(self)@.books, symbol@).0,
            i as int == with_book(old(self)@.books, symbol@).1,
            i < final(self)@.books.len(),
            final(self)@.trigger == old(self)@.trigger,
    {
        let ghost bs = self@.books;
        let sym = String::from_str(symbol);
        let mut i: usize = 0;
        while i < self.books.len()
            invariant
                i <= self.books@.len(),
                bs == self@.books,
                sym@ == symbol@,
                find_book(bs, symbol@, i as nat) is None,
            decreases self.books.len() - i,
        {
            if self.books[i].symbol == sym {
                proof {
                    lemma_find_book_mono(bs, symbol@, (i + 1) as nat, bs.len());
                }
                return i;
            }
            i = i + 1;
        }
        let book = OrderBook::new(sym);
        self.books.push(book);
        proof {
            assert(book@ =~= empty_book(symbol@));
            assert(self@.books =~= bs.push(empty_book(symbol@)));
        }
        i
    }

    /// Cancel an order of a symbol's book.
    pub fn cancel_order(&mut self, symbol: &str, order_id: u128) -> (r: Result<Order, OrderBookError>)
        ensures
            (final(self)@.books, r) == cancel_outcome(old(self)@.books, symbol@, order_id),
            final(self)@.trigger == old(self)@.trigger,
    {
        let i = self.get_or_create_book(symbol);
        let ghost bs = self@.books;
        proof {
            lemma_find_book_bounds(old(self)@.books, symbol@, old(self)@.books.len());
        }
        let mut book = self.books[i].duplicate();
        proof {
            assert(book@ =~= bs[i as int]);
        }
        let mut order = match book.orders.remove(&order_id) {
            Some(o) => o,
            None => {
                return Err(OrderBookError::OrderNotFound(order_id));
            },
        };
        if order.status == OrderStatus::Filled || order.status == OrderStatus::Cancelled {
            return Err(OrderBookError::OrderNotActive(order_id));
        }
        if let Some(price) = order.price {
            let remaining = match order.remaining_quantity() {
                Some(q) => q,
                None => {
                    return Err(OrderBookError::MatchingError(MatchingError::ArithmeticOverflow));
                },
            };
            if !remove_order_from_price_level(&mut book, order_id, price, &order.side, remaining) {
                return Err(OrderBookError::MatchingError(MatchingError::ArithmeticOverflow));
            }
        }
        order.status = OrderStatus::Cancelled;
        self.books.set(i, book);
        proof {
            assert(self@.books =~= cancel_outcome(old(self)@.books, symbol@, order_id).0);
        }
        Ok(order)
    }

    /// The order with this id in a symbol's book.
    pub fn get_order(&mut self, symbol: &str, order_id: u128) -> (r: Result<Order, OrderBookError>)
        ensures
            final(self)@ == (EngineView {
                books: with_book(old(self)@.books, symbol@).0,
                ..old(self)@
            }),
            ({
                let (bs, i) = with_book(old(self)@.books, symbol@);
                r == (if bs[i].orders.contains_key(order_id) {
                    Ok::<Order, OrderBookError>(bs[i].orders[order_id])
                } else {
                    Err::<Order, OrderBookError>(OrderBookError::OrderNotFound(order_id))
                })
            }),
    {
        let i = self.get_or_create_book(symbol);
        match self.books[i].orders.get(&order_id) {
            Some(o) => Ok(o.duplicate()),
            None => Err(OrderBookError::OrderNotFound(order_id)),
        }
    }

    /// A copy of a symbol's book.
    pub fn get_order_book(&mut self, symbol: &str) -> (b: OrderBook)
        ensures
            final(self)@ == (EngineView {
                books: with_book(old(self)@.books, symbol@).0,
                ..old(self)@
            }),
            b@ == with_book(old(self)@.books, symbol@).0[with_book(old(self)@.books, symbol@).1],
    {
        let i = self.get_or_create_book(symbol);
        let b = self.books[i].duplicate();
        proof {
            assert(b@ =~= self@.books[i as int]);
        }
        b
    }

    /// The last `limit` trades of a symbol, oldest first.
    pub fn get_recent_trades(&mut self, symbol: &str, limit: usize) -> (r: Vec<Trade>)
        ensures
            final(self)@ == (EngineView {
                books: with_book(old(self)@.books, symbol@).0,
                ..old(self)@
            }),
            ({
                let t = with_book(old(self)@.books, symbol@).0[with_book(
                    old(self)@.books,
                    symbol@,
                ).1].trades;
                r@ == (if limit >= t.len() {
                    t
                } else {
                    t.skip(t.len() - limit)
                })
            }),
    {
        let i = self.get_or_create_book(symbol);
        self.books[i].get_recent_trades(limit)
    }

    /// The symbols that have a book, in the order the books were opened.
    pub fn get_symbols(&self) -> (r: Vec<String>)
        ensures
            r@.map_values(|s: String| s@) == symbols_of(self@.books),
    {
        let mut r: Vec<String> = Vec::new();
        let mut i: usize = 0;
        while i < self.books.len()
            invariant
                i <= self.books@.len(),
                r@.map_values(|s: String| s@) == symbols_of(self@.books).take(i as int),
            decreases self.books.len() - i,
        {
            let s = self.books[i].symbol.clone();
            let ghost r0 = r@;
            r.push(s);
            i = i + 1;
            proof {
                assert(r@.map_values(|s: String| s@) =~= r0.map_values(|s: String| s@).push(s@));
                assert(symbols_of(self@.books).take(i as int) =~= symbols_of(self@.books).take(
                    i - 1,
                ).push(self@.books[i - 1].symbol));
            }
        }
        proof {
            assert(symbols_of(self@.books).take(i as int) =~= symbols_of(self@.books));
        }
        r
    }

    /// Number of resting orders over all books (capped at `usize::MAX`).
    pub fn get_total_active_orders(&self) -> (n: usize)
        ensures
            n == capped(orders_total(self@.books)),
    {
        let mut n: usize = 0;
        let mut i: usize = 0;
        while i < self.books.len()
            invariant
                i <= self.books@.len(),
                n == capped(orders_total(self@.books.take(i as int))),
            decreases self.books.len() - i,
        {
            proof {
                assert(self@.books.take(i + 1).drop_last() =~= self@.books.take(i as int));
            }
            n = n.saturating_add(self.books[i].orders.len());
            i = i + 1;
        }
        proof {
            assert(self@.books.take(i as int) =~= self@.books);
        }
        n
    }

    /// Number of trades over all books (capped at `usize::MAX`).
    pub fn get_total_trades(&self) -> (n: usize)
        ensures
            n == capped(trades_total(self@.books)),
    {
        let mut n: usize = 0;
        let mut i: usize = 0;
        while i < self.books.len()
            invariant
                i <= self.books@.len(),
                n == capped(trades_total(self@.books.take(i as int))),
            decreases self.books.len() - i,
        {
            proof {
                assert(self@.books.take(i + 1).drop_last() =~= self@.books.take(i as int));
            }
            n = n.saturating_add(self.books[i].trades.len());
            i = i + 1;
        }
        proof {
            assert(self@.books.take(i as int) =~= self@.books);
        }
        n
    }

    /// Add a stop order.
    pub fn add_stop_order(&mut self, stop: StopOrder) -> (r: Result<(), OrderBookError>)
        ensures
            r is Ok,
            final(self)@ == (EngineView {
                trigger: add_stop_view(old(self)@.trigger, stop),
                ..old(self)@
            }),
    {
        self.trigger_engine.add_stop_order(stop);
        Ok(())
    }

    /// Cancel a stop order.
    pub fn cancel_stop_order(&mut self, order_id: u128) -> (r: Result<StopOrder, OrderBookError>)
        ensures
            final(self)@ == (EngineView {
                trigger: cancel_stop_view(old(self)@.trigger, order_id).0,
                ..old(self)@
            }),
            r == (match cancel_stop_view(old(self)@.trigger, order_id).1 {
                Some(s) => Ok::<StopOrder, OrderBookError>(s),
                None => Err::<StopOrder, OrderBookError>(OrderBookError::OrderNotFound(order_id)),
            }),
    {
        match self.trigger_engine.cancel_stop_order(order_id) {
            Some(s) => Ok(s),
            None => Err(OrderBookError::OrderNotFound(order_id)),
        }
    }

    /// The stop order with this id.
    pub fn get_stop_order(&self, order_id: u128) -> (r: Option<StopOrder>)
        ensures
            r == stop_of(self@.trigger, order_id),
    {
        self.trigger_engine.get_stop_order(order_id)
    }

    /// All pending stop orders of a symbol.
    pub fn get_stop_orders_by_symbol(&self, symbol: &str) -> (r: Vec<StopOrder>)
        ensures
            r@ == levels_for(self@.trigger.buys, symbol@, self@.trigger.buys.len()) + levels_for(
                self@.trigger.sells,
                symbol@,
                self@.trigger.sells.len(),
            ),
    {
        self.trigger_engine.get_stop_orders_by_symbol(symbol)
    }

    /// Number of stop orders (capped at `usize::MAX`).
    pub fn get_total_stop_orders(&self) -> (n: usize)
        ensures
            n == capped(stop_total(self@.trigger)),
    {
        self.trigger_engine.get_total_stop_orders()
    }
}

/// Note id, price, side and remaining quantity of each listed order the
/// book holds.
fn collect_cancellation_data(book: &OrderBook, ids: &Vec<u128>) -> (r: Vec<
    (u128, Option<Dec>, OrderSide, Option<Dec>),
>)
    ensures
        r@ == cancel_data(book@, ids@),
{
    let mut r: Vec<(u128, Option<Dec>, OrderSide, Option<Dec>)> = Vec::new();
    let mut i: usize = 0;
    while i < ids.len()
        invariant
            i <= ids@.len(),
            r@ == cancel_data(book@, ids@.take(i as int)),
        decreases ids.len() - i,
    {
        proof {
            assert(ids@.take(i + 1).drop_last() =~= ids@.take(i as int));
        }
        let id = ids[i];
        match book.orders.get(&id) {
            Some(o) => {
                r.push((id, o.price, o.side, o.remaining_quantity()));
            },
            None => {},
        }
        i = i + 1;
    }
    proof {
        assert(ids@.take(i as int) =~= ids@);
    }
    r
}

/// Take the noted orders off their levels and out of the book (`false` on
/// decimal overflow).
fn apply_cancellations(book: &mut OrderBook, data: &Vec<(u128, Option<Dec>, OrderSide, Option<Dec>)>) -> (ok: bool)
    ensures
        match apply_cancels(old(book)@, data@) {
            None => !ok,
            Some(b) => ok && final(book)@ == b,
        },
{
    let ghost b0 = book@;
    let mut i: usize = 0;
    while i < data.len()
        invariant
            i <= data@.len(),
            b0 == old(book)@,
            apply_cancels(b0, data@.take(i as int)) == Some(book@),
        decreases data.len() - i,
    {
        proof {
            assert(data@.take(i + 1).drop_last() =~= data@.take(i as int));
        }
        let (id, price, side, rq) = data[i];
        proof {
            assert(data@.take(i + 1).last() == data@[i as int]);
        }
        let q = match rq {
            Some(q) => q,
            None => {
                proof {
                    assert(apply_cancels(b0, data@.take(i + 1)) is None);
                    lemma_apply_cancels_none(b0, data@, (i + 1) as nat);
                }
                return false;
            },
        };
        if let Some(p) = price {
            if !remove_order_from_price_level(book, id, p, &side, q) {
                proof {
                    assert(apply_cancels(b0, data@.take(i + 1)) is None);
                    lemma_apply_cancels_none(b0, data@, (i + 1) as nat);
                }
                return false;
            }
        }
        book.orders.remove(&id);
        i = i + 1;
    }
    proof {
        assert(data@.take(i as int) =~= data@);
    }
    true
}

proof fn lemma_apply_cancels_none(
    b: BookView,
    data: Seq<(u128, Option<Dec>, OrderSide, Option<Dec>)>,
    n: nat,
)
    requires
        n <= data.len(),
        apply_cancels(b, data.take(n as int)) is None,
    ensures
        apply_cancels(b, data) is None,
    decreases data.len() - n,
{
    if n < data.len() {
        assert(data.take((n + 1) as int).drop_last() =~= data.take(n as int));
        lemma_apply_cancels_none(b, data, n + 1);
    } else {
        assert(data.take(n as int) =~= data);
    }
}

/// Rest the order in the book when it should rest (`false` on decimal overflow).
fn rest_in_book(book: &mut OrderBook, order: &Order) -> (ok: bool)
    ensures
        match rest_order(old(book)@, *order) {
            None => !ok,
            Some(b) => ok && final(book)@ == b,
        },
{
    if order.should_rest_in_book() && order.order_type == OrderType::Limit {
        match order.price {
            None => true,
            Some(price) => {
                let remaining = match order.remaining_quantity() {
                    Some(q) => q,
                    None => {
                        return false;
                    },
                };
                if !add_order_to_price_level(book, order.id, price, &order.side, remaining) {
                    return false;
                }
                book.orders.insert(order.id, order.duplicate());
                true
            },
        }
    } else {
        true
    }
}

/// Value of all trades of the books, book by book, oldest first (`None` on
/// decimal overflow).
pub open spec fn volume_sum(books: Seq<BookView>) -> Option<Dec>
    decreases books.len(),
{
    if books.len() == 0 {
        Some(Dec::spec_zero())
    } else {
        match volume_sum(books.drop_last()) {
            Some(acc) => trades_value_from(acc, books.last().trades),
            None => None,
        }
    }
}

/// `acc` plus the value (`price * quantity`) of each trade, oldest first.
pub open spec fn trades_value_from(acc: Dec, trades: Seq<Trade>) -> Option<Dec>
    decreases trades.len(),
{
    if trades.len() == 0 {
        Some(acc)
    } else {
        match trades_value_from(acc, trades.drop_last()) {
            Some(a) => match crate::decimal::dec_mul(trades.last().price, trades.last().quantity) {
                Some(v) => dec_add(a, v),
                None => None,
            },
            None => None,
        }
    }
}

/// All fees of the books' trades, book by book, oldest first (`None` on
/// decimal overflow).
pub open spec fn fees_total(books: Seq<BookView>) -> Option<Dec>
    decreases books.len(),
{
    if books.len() == 0 {
        Some(Dec::spec_zero())
    } else {
        match fees_total(books.drop_last()) {
            Some(acc) => trades_fees_from(acc, books.last().trades),
            None => None,
        }
    }
}

/// `acc` plus the maker and taker fees of each trade, oldest first.
pub open spec fn trades_fees_from(acc: Dec, trades: Seq<Trade>) -> Option<Dec>
    decreases trades.len(),
{
    if trades.len() == 0 {
        Some(acc)
    } else {
        match trades_fees_from(acc, trades.drop_last()) {
            Some(a) => match dec_add(trades.last().maker_fee, trades.last().taker_fee) {
                Some(f) => dec_add(a, f),
                None => None,
            },
            None => None,
        }
    }
}

proof fn lemma_trades_value_none(acc: Dec, trades: Seq<Trade>, n: nat)
    requires
        n <= trades.len(),
        trades_value_from(acc, trades.take(n as int)) is None,
    ensures
        trades_value_from(acc, trades) is None,
    decreases trades.len() - n,
{
    if n < trades.len() {
        assert(trades.take((n + 1) as int).drop_last() =~= trades.take(n as int));
        lemma_trades_value_none(acc, trades, n + 1);
    } else {
        assert(trades.take(n as int) =~= trades);
    }
}

proof fn lemma_trades_fees_none(acc: Dec, trades: Seq<Trade>, n: nat)
    requires
        n <= trades.len(),
        trades_fees_from(acc, trades.take(n as int)) is None,
    ensures
        trades_fees_from(acc, trades) is None,
    decreases trades.len() - n,
{
    if n < trades.len() {
        assert(trades.take((n + 1) as int).drop_last() =~= trades.take(n as int));
        lemma_trades_fees_none(acc, trades, n + 1);
    } else {
        assert(trades.take(n as int) =~= trades);
    }
}

proof fn lemma_volume_none(books: Seq<BookView>, n: nat)
    requires
        n <= books.len(),
        volume_sum(books.take(n as int)) is None,
    ensures
        volume_sum(books) is None,
    decreases books.len() - n,
{
    if n < books.len() {
        assert(books.take((n + 1) as int).drop_last() =~= books.take(n as int));
        lemma_volume_none(books, n + 1);
    } else {
        assert(books.take(n as int) =~= books);
    }
}

proof fn lemma_fees_total_none(books: Seq<BookView>, n: nat)
    requires
        n <= books.len(),
        fees_total(books.take(n as int)) is None,
    ensures
        fees_total(books) is None,
    decreases books.len() - n,
{
    if n < books.len() {
        assert(books.take((n + 1) as int).drop_last() =~= books.take(n as int));
        lemma_fees_total_none(books, n + 1);
    } else {
        assert(books.take(n as int) =~= books);
    }
}

/// Taking cancelled orders off keeps the book's symbol and trades.
proof fn lemma_apply_cancels_keeps(b: BookView, data: Seq<(u128, Option<Dec>, OrderSide, Option<Dec>)>)
    ensures
        apply_cancels(b, data) matches Some(b2) ==> b2.symbol == b.symbol && b2.trades == b.trades,
    decreases data.len(),
{
    if data.len() > 0 {
        lemma_apply_cancels_keeps(b, data.drop_last());
    }
}

/// Settling keeps the book's symbol and trades.
proof fn lemma_settle_keeps(b: BookView, o: Order, cancelled: Seq<u128>)
    ensures
        settle(b, o, cancelled) matches Some(b2) ==> b2.symbol == b.symbol && b2.trades == b.trades,
{
    lemma_apply_cancels_keeps(b, cancel_data(b, cancelled));
}

/// Take the cancelled orders off the book and rest the order if it should
/// rest (`false` on decimal overflow).
fn settle_book(book: &mut OrderBook, order: &Order, cancelled: &Vec<u128>) -> (ok: bool)
    ensures
        match settle(old(book)@, *order, cancelled@) {
            None => !ok,
            Some(b) => ok && final(book)@ == b,
        },
{
    let data = collect_cancellation_data(book, cancelled);
    if !apply_cancellations(book, &data) {
        return false;
    }
    rest_in_book(book, order)
}

/// Append copies of the trades to the book's history.
fn record_trades(book: &mut OrderBook, trades: &Vec<Trade>)
    ensures
        final(book)@ == (BookView { trades: old(book)@.trades + trades@, ..old(book)@ }),
{
    let mut k: usize = 0;
    while k < trades.len()
        invariant
            k <= trades@.len(),
            book@ == (BookView { trades: old(book)@.trades + trades@.take(k as int), ..old(book)@ }),
        decreases trades.len() - k,
    {
        book.add_trade(trades[k].duplicate());
        k = k + 1;
        proof {
            assert(old(book)@.trades + trades@.take(k as int) =~= (old(book)@.trades + trades@.take(
                k - 1,
            )).push(trades@[k - 1]));
        }
    }
    proof {
        assert(trades@.take(k as int) =~= trades@);
    }
}

/// The engine after submitting `order` at time `now` with result `r`,
/// before any stop order fires: an invalid order changes nothing; otherwise
/// the books are those of `submitted`, and on success the order's book also
/// records the trades made; the stop orders are as they were.
pub open spec fn submit_state(
    v: EngineView,
    order: Order,
    now: i64,
    r: Result<(Order, Vec<Trade>), OrderBookError>,
) -> EngineView {
    if !order_is_valid(order) {
        v
    } else {
        let s = submitted(v.books, order, now);
        EngineView {
            books: match r {
                Ok((o, ts)) => s.books.update(
                    s.index,
                    BookView { trades: s.books[s.index].trades + ts@, ..s.books[s.index] },
                ),
                Err(_) => s.books,
            },
            trigger: v.trigger,
        }
    }
}

/// The stop orders that the last trade price `price` fires at time `now2`
/// in the engine `v`, submitted in turn: the stop engine sees the price
/// (`on_trade_view`), `orders` are what the fired stops become, and each is
/// added in order, through `states`, which ends in `v1`, with the answers
/// `results`; each addition starts from an engine holding fewer stop
/// orders than `total`.
pub open spec fn cascade(
    v: EngineView,
    price: Dec,
    now2: i64,
    orders: Seq<Order>,
    states: Seq<EngineView>,
    results: Seq<Result<(Order, Vec<Trade>), OrderBookError>>,
    v1: EngineView,
    total: nat,
) -> bool {
    &&& crate::engine::trigger::converted_all(orders, on_trade_view(v.trigger, price, now2).1)
    &&& states.len() == orders.len() + 1
    &&& results.len() == orders.len()
    &&& states[0] == EngineView { trigger: on_trade_view(v.trigger, price, now2).0, ..v }
    &&& states.last() == v1
    &&& forall|k: int| 0 <= k < orders.len() ==> stop_total((#[trigger] states[k]).trigger) < total
}

/// Adding `order` to an engine in state `v0` may answer `r` and leave the
/// engine in state `v1`: an invalid order is refused and changes nothing;
/// otherwise the order is submitted at some time `now` (`submitted`,
/// `submit_state`); when that made trades, the stop engine sees the last
/// trade price at some time `now2` (`on_trade_view`), and the orders the
/// fired stops become are added in turn, each as this relation says.
#[verifier::opaque]
pub open spec fn order_added(
    v0: EngineView,
    order: Order,
    r: Result<(Order, Vec<Trade>), OrderBookError>,
    v1: EngineView,
) -> bool
    decreases stop_total(v0.trigger),
{
    if !order_is_valid(order) {
        r matches Err(e) && validation_error(order, e) && v1 == v0
    } else {
        exists|now: i64|
            {
                &&& submit_result_is(#[trigger] submitted(v0.books, order, now), r)
                &&& if r is Ok && r->Ok_0.1@.len() > 0 {
                    exists|
                        now2: i64,
                        orders: Seq<Order>,
                        states: Seq<EngineView>,
                        results: Seq<Result<(Order, Vec<Trade>), OrderBookError>>,
                    |
                        {
                            &&& #[trigger] cascade(
                                submit_state(v0, order, now, r),
                                r->Ok_0.1@.last().price,
                                now2,
                                orders,
                                states,
                                results,
                                v1,
                                stop_total(v0.trigger),
                            )
                            &&& forall|k: int|
                                0 <= k < orders.len() ==> stop_total(states[k].trigger) < stop_total(
                                    v0.trigger,
                                ) && order_added(states[k], orders[k], #[trigger] results[k], states[k + 1])
                        }
                } else {
                    v1 == submit_state(v0, order, now, r)
                }
            }
    }
}

proof fn lemma_added_invalid(
    v0: EngineView,
    order: Order,
    r: Result<(Order, Vec<Trade>), OrderBookError>,
)
    requires
        !order_is_valid(order),
        r matches Err(e) && validation_error(order, e),
    ensures
        order_added(v0, order, r, v0),
{
    reveal(order_added);
}

proof fn lemma_added_plain(
    v0: EngineView,
    order: Order,
    now: i64,
    r: Result<(Order, Vec<Trade>), OrderBookError>,
)
    requires
        order_is_valid(order),
        submit_result_is(submitted(v0.books, order, now), r),
        !(r is Ok && r->Ok_0.1@.len() > 0),
    ensures
        order_added(v0, order, r, submit_state(v0, order, now, r)),
{
    reveal(order_added);
}

proof fn lemma_added_cascade(
    v0: EngineView,
    order: Order,
    now: i64,
    r: Result<(Order, Vec<Trade>), OrderBookError>,
    now2: i64,
    orders: Seq<Order>,
    states: Seq<EngineView>,
    results: Seq<Result<(Order, Vec<Trade>), OrderBookError>>,
    v1: EngineView,
)
    requires
        order_is_valid(order),
        submit_result_is(submitted(v0.books, order, now), r),
        r is Ok && r->Ok_0.1@.len() > 0,
        cascade(
            submit_state(v0, order, now, r),
            r->Ok_0.1@.last().price,
            now2,
            orders,
            states,
            results,
            v1,
            stop_total(v0.trigger),
        ),
        forall|k: int|
            0 <= k < orders.len() ==> order_added(states[k], orders[k], #[trigger] results[k], states[k + 1]),
    ensures
        order_added(v0, order, r, v1),
{
    reveal(order_added);
    let total = stop_total(v0.trigger);
    let price = r->Ok_0.1@.last().price;
    assert(cascade(submit_state(v0, order, now, r), price, now2, orders, states, results, v1, total));
    assert forall|k: int|
        0 <= k < orders.len() implies stop_total(states[k].trigger) < total && order_added(
            states[k],
            orders[k],
            #[trigger] results[k],
            states[k + 1],
        ) by {
        assert(stop_total(states[k].trigger) < total);
    }
    assert(submit_result_is(submitted(v0.books, order, now), r));
}

impl OrderBookEngine {
    /// Submit an order at time `now`, without firing stop orders: validate
    /// it, match it against its symbol's book, take the orders that
    /// self-trade prevention cancelled off the book, rest what should rest,
    /// and record the trades.  On any error the book is left as it was.
    pub fn submit_order_at(&mut self, order: Order, now: i64) -> (r: Result<
        (Order, Vec<Trade>),
        OrderBookError,
    >)
        ensures
            !order_is_valid(order) ==> (r matches Err(e) && validation_error(order, e)
                && final(self)@ == old(self)@),
            order_is_valid(order) ==> ({
                let s = submitted(old(self)@.books, order, now);
                &&& submit_result_is(s, r)
                &&& final(self)@.trigger == old(self)@.trigger
                &&& r is Err ==> final(self)@.books == s.books
                &&& r matches Ok((o, ts)) ==> final(self)@.books == s.books.update(
                    s.index,
                    BookView { trades: s.books[s.index].trades + ts@, ..s.books[s.index] },
                )
            }),
            final(self)@ == submit_state(old(self)@, order, now, r),
    {
        match validate_order(&order) {
            Err(e) => {
                return Err(e);
            },
            Ok(()) => {},
        }
        let i = self.get_or_create_book(order.symbol.as_str());
        let ghost bs = self@.books;
        proof {
            lemma_find_book_bounds(old(self)@.books, order.symbol@, old(self)@.books.len());
        }
        if self.books[i].orders.contains_key(&order.id) {
            return Err(OrderBookError::DuplicateOrder(order.id));
        }
        let mut book = self.books[i].duplicate();
        proof {
            assert(book@ =~= bs[i as int]);
        }
        let ghost order0 = order;
        let mut order = order;
        let (trades, cancelled) = match match_order_at(&mut book, &mut order, now) {
            Ok(p) => p,
            Err(e) => {
                return Err(OrderBookError::MatchingError(e));
            },
        };
        let ghost out = match_outcome(bs[i as int], order0, now);
        let ghost b1 = BookView { bids: out.bids, asks: out.asks, orders: out.orders, ..bs[i as int] };
        proof {
            assert(book@ =~= b1);
            assert(out.result == Ok::<(Seq<TradeContent>, Seq<u128>), MatchingError>(
                (trades_content(trades@), cancelled@),
            ));
            assert(out.incoming == order);
        }
        if !settle_book(&mut book, &order, &cancelled) {
            return Err(OrderBookError::MatchingError(MatchingError::ArithmeticOverflow));
        }
        let ghost b3 = book@;
        record_trades(&mut book, &trades);
        let ghost b4 = book@;
        self.books.set(i, book);
        proof {
            let s = submitted(old(self)@.books, order0, now);
            assert(s.index == i as int);
            assert(s.books == bs.update(i as int, b3));
            lemma_settle_keeps(b1, order, cancelled@);
            assert(b3.trades == bs[i as int].trades);
            assert(self@.books =~= bs.update(i as int, b4));
            assert(self@.books =~= s.books.update(
                s.index,
                BookView { trades: s.books[s.index].trades + trades@, ..s.books[s.index] },
            ));
        }
        Ok((order, trades))
    }

    /// Add an order to its book and match it; when it traded, the stop
    /// orders the last trade price fires are submitted in turn (their own
    /// results are dropped, and the trades they make fire further stops).
    /// The result is that of the order itself, submitted at the current
    /// time; what the engine becomes is stated by `order_added`.
    pub fn add_order(&mut self, order: Order) -> (r: Result<(Order, Vec<Trade>), OrderBookError>)
        ensures
            order_added(old(self)@, order, r, final(self)@),
            !order_is_valid(order) ==> (r matches Err(e) && validation_error(order, e)
                && final(self)@ == old(self)@),
            order_is_valid(order) ==> exists|now: i64|
                submit_result_is(#[trigger] submitted(old(self)@.books, order, now), r) && ((r matches Ok(
                    (_, ts),
                ) && ts@.len() > 0) || final(self)@ == submit_state(old(self)@, order, now, r)),
            stop_total(final(self)@.trigger) <= stop_total(old(self)@.trigger),
        decreases stop_total(old(self)@.trigger),
    {
        let now = crate::clock::now_millis();
        let r = self.submit_order_at(order, now);
        let ghost total = stop_total(self@.trigger);
        let ghost v0 = old(self)@;
        if let Ok((_, trades)) = &r {
            if trades.len() > 0 {
                let last_trade_price = trades[trades.len() - 1].price;
                let ghost v = self.trigger_engine@;
                let ghost w0 = self@;
                let triggered = self.trigger_engine.on_trade(last_trade_price);
                let ghost now2 = choose|now2: i64|
                    self.trigger_engine@ == (#[trigger] on_trade_view(
                        v,
                        last_trade_price,
                        now2,
                    )).0 && crate::engine::trigger::converted_all(
                        triggered@,
                        on_trade_view(v, last_trade_price, now2).1,
                    );
                proof {
                    lemma_on_trade_count(v, last_trade_price, now2);
                    assert(w0 == submit_state(v0, order, now, r));
                    assert(self@ == EngineView { trigger: on_trade_view(v, last_trade_price, now2).0, ..w0 });
                }
                let ghost mut states: Seq<EngineView> = seq![self@];
                let ghost mut results: Seq<Result<(Order, Vec<Trade>), OrderBookError>> = Seq::empty();
                let mut i: usize = 0;
                while i < triggered.len()
                    invariant
                        i <= triggered@.len(),
                        stop_total(self@.trigger) + triggered@.len() <= total,
                        total <= stop_total(old(self)@.trigger),
                        total == stop_total(v0.trigger),
                        states.len() == i + 1,
                        results.len() == i,
                        states[0] == (EngineView { trigger: on_trade_view(v, last_trade_price, now2).0, ..w0 }),
                        states[i as int] == self@,
                        forall|k: int|
                            0 <= k < i ==> stop_total((#[trigger] states[k]).trigger) < total,
                        forall|k: int|
                            0 <= k < i ==> order_added(states[k], triggered@[k], #[trigger] results[k], states[k + 1]),
                    decreases triggered.len() - i,
                {
                    let o = triggered[i].duplicate();
                    let ghost before = self@;
                    let ri = self.add_order(o);
                    proof {
                        states = states.push(self@);
                        results = results.push(ri);
                    }
                    i = i + 1;
                }
                proof {
                    let orders = triggered@;
                    assert(r->Ok_0.1@.last().price == last_trade_price);
                    assert(cascade(w0, last_trade_price, now2, orders, states, results, self@, stop_total(v0.trigger)));
                    assert forall|k: int| 0 <= k < orders.len() implies order_added(
                        states[k],
                        orders[k],
                        #[trigger] results[k],
                        states[k + 1],
                    ) by {}
                    lemma_added_cascade(v0, order, now, r, now2, orders, states, results, self@);
                }
                return r;
            }
        }
        proof {
            if order_is_valid(order) {
                lemma_added_plain(v0, order, now, r);
            } else {
                lemma_added_invalid(v0, order, r);
            }
        }
        r
    }
}

impl OrderBookEngine {
    /// Total value (`price * quantity`) of all trades over all books (`None`
    /// on decimal overflow).
    pub fn get_total_volume(&self) -> (v: Option<Dec>)
        ensures
            v == volume_sum(self@.books),
    {
        let ghost books = self@.books;
        let mut acc = Dec::zero();
        let mut i: usize = 0;
        while i < self.books.len()
            invariant
                i <= self.books@.len(),
                books == self@.books,
                volume_sum(books.take(i as int)) == Some(acc),
            decreases self.books.len() - i,
        {
            proof {
                assert(books.take(i + 1).drop_last() =~= books.take(i as int));
            }
            let ghost start = acc;
            let trades = &self.books[i].trades;
            let mut k: usize = 0;
            while k < trades.len()
                invariant
                    i < self.books@.len(),
                    books == self@.books,
                    trades@ == books[i as int].trades,
                    k <= trades@.len(),
                    trades_value_from(start, trades@.take(k as int)) == Some(acc),
                    volume_sum(books.take(i as int)) == Some(start),
                decreases trades.len() - k,
            {
                proof {
                    assert(trades@.take(k + 1).drop_last() =~= trades@.take(k as int));
                }
                let next = match trades[k].value() {
                    Some(v) => acc.add(v),
                    None => None,
                };
                match next {
                    Some(a) => {
                        acc = a;
                    },
                    None => {
                        proof {
                            lemma_trades_value_none(start, trades@, (k + 1) as nat);
                            assert(trades@.take(trades@.len() as int) =~= trades@);
                            assert(books.take(i + 1).last() == books[i as int]);
                            assert(books.take(i + 1).drop_last() =~= books.take(i as int));
                            lemma_volume_none(books, (i + 1) as nat);
                        }
                        return None;
                    },
                }
                k = k + 1;
            }
            proof {
                assert(trades@.take(k as int) =~= trades@);
                assert(books.take(i + 1).last() == books[i as int]);
                assert(books.take(i + 1).drop_last() =~= books.take(i as int));
            }
            i = i + 1;
        }
        proof {
            assert(books.take(i as int) =~= books);
        }
        Some(acc)
    }

    /// Total fees over all trades of all books (`None` on decimal overflow).
    pub fn get_total_fees(&self) -> (v: Option<Dec>)
        ensures
            v == fees_total(self@.books),
    {
        let ghost books = self@.books;
        let mut acc = Dec::zero();
        let mut i: usize = 0;
        while i < self.books.len()
            invariant
                i <= self.books@.len(),
                books == self@.books,
                fees_total(books.take(i as int)) == Some(acc),
            decreases self.books.len() - i,
        {
            proof {
                assert(books.take(i + 1).drop_last() =~= books.take(i as int));
            }
            let ghost start = acc;
            let trades = &self.books[i].trades;
            let mut k: usize = 0;
            while k < trades.len()
                invariant
                    i < self.books@.len(),
                    books == self@.books,
                    trades@ == books[i as int].trades,
                    k <= trades@.len(),
                    trades_fees_from(start, trades@.take(k as int)) == Some(acc),
                    fees_total(books.take(i as int)) == Some(start),
                decreases trades.len() - k,
            {
                proof {
                    assert(trades@.take(k + 1).drop_last() =~= trades@.take(k as int));
                }
                let next = match trades[k].total_fees() {
                    Some(f) => acc.add(f),
                    None => None,
                };
                match next {
                    Some(a) => {
                        acc = a;
                    },
                    None => {
                        proof {
                            lemma_trades_fees_none(start, trades@, (k + 1) as nat);
                            assert(trades@.take(trades@.len() as int) =~= trades@);
                            assert(books.take(i + 1).last() == books[i as int]);
                            assert(books.take(i + 1).drop_last() =~= books.take(i as int));
                            lemma_fees_total_none(books, (i + 1) as nat);
                        }
                        return None;
                    },
                }
                k = k + 1;
            }
            proof {
                assert(trades@.take(k as int) =~= trades@);
                assert(books.take(i + 1).last() == books[i as int]);
                assert(books.take(i + 1).drop_last() =~= books.take(i as int));
            }
            i = i + 1;
        }
        proof {
            assert(books.take(i as int) =~= books);
        }
        Some(acc)
    }
}

impl Default for OrderBookEngine {
    fn default() -> (e: OrderBookEngine)
        ensures
            e@.books.len() == 0,
            e@.trigger.buys.len() == 0,
            e@.trigger.sells.len() == 0,
            e@.trigger.index == Map::<u128, (Dec, bool)>::empty(),
            e@.trigger.last is None,
    {
        OrderBookEngine::new()
    }
}

} // verus!
