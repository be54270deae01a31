//! Orders, trades, price levels and the per-symbol order book.
use std::collections::HashMap;
use vstd::prelude::*;

use crate::decimal::{dec_add, dec_div, dec_mul, dec_sub, Dec};

verus! {

broadcast use {vstd::std_specs::hash::group_hash_axioms, crate::decimal::group_dec_parts};

#[derive(Debug, Clone, Copy, PartialEq, Eq, Structural)]
pub enum OrderSide {
    Buy,
    Sell,
}

#[derive(Debug, Clone, Copy, PartialEq, Eq, Structural)]
pub enum OrderType {
    Limit,
    Market,
}

#[derive(Debug, Clone, Copy, PartialEq, Eq, Structural)]
pub enum OrderStatus {
    New,
    PartiallyFilled,
    Filled,
    Cancelled,
    Rejected,
    Expired,
}

/// How long an order stays active.
#[derive(Debug, Clone, Copy, PartialEq, Eq, Structural)]
pub enum TimeInForce {
    /// Good till cancelled
    GTC,
    /// Immediate or cancel
    IOC,
    /// Fill or kill
    FOK,
    /// Good for the day
    DAY,
    /// Good till date (needs an expire time)
    GTD,
}

/// What happens when an order would trade against an order of the same user.
#[derive(Debug, Clone, Copy, PartialEq, Eq, Structural)]
pub enum SelfTradePreventionMode {
    NoPrevention,
    CancelResting,
    CancelIncoming,
    CancelBoth,
    CancelSmallest,
    DecrementBoth,
}

/// An order.  Identifiers are UUIDs as 128-bit integers and times are
/// milliseconds since the Unix epoch.
#[derive(Debug, Clone)]
pub struct Order {
    pub id: u128,
    pub symbol: String,
    pub side: OrderSide,
    pub order_type: OrderType,
    pub price: Option<Dec>,
    pub quantity: Dec,
    pub filled_quantity: Dec,
    pub status: OrderStatus,
    pub user_id: String,
    pub timestamp: i64,
    pub time_in_force: TimeInForce,
    pub stp_mode: SelfTradePreventionMode,
    pub post_only: bool,
    pub expire_time: Option<i64>,
}

impl Order {
    /// `quantity - filled_quantity` (`None` on decimal overflow).
    pub open spec fn spec_remaining(self) -> Option<Dec> {
        dec_sub(self.quantity, self.filled_quantity)
    }

    /// Filled quantity has reached the order quantity.
    pub open spec fn spec_is_filled(self) -> bool {
        self.filled_quantity.value() >= self.quantity.value()
    }

    /// The order after filling `q` more (`None` on decimal overflow): the
    /// status becomes `Filled` or `PartiallyFilled`.
    pub open spec fn spec_fill(self, q: Dec) -> Option<Order> {
        match dec_add(self.filled_quantity, q) {
            Some(f) => Some(
                Order {
                    filled_quantity: f,
                    status: if f.value() >= self.quantity.value() {
                        OrderStatus::Filled
                    } else {
                        OrderStatus::PartiallyFilled
                    },
                    ..self
                },
            ),
            None => None,
        }
    }

    /// The expire time, if any, is before `now`.
    pub open spec fn spec_is_expired(self, now: i64) -> bool {
        match self.expire_time {
            Some(t) => now > t,
            None => false,
        }
    }

    /// The order stays on the book after matching: not filled, still live,
    /// and neither immediate-or-cancel nor fill-or-kill.
    pub open spec fn spec_should_rest(self) -> bool {
        &&& !self.spec_is_filled()
        &&& (self.status == OrderStatus::New || self.status == OrderStatus::PartiallyFilled)
        &&& self.time_in_force != TimeInForce::IOC
        &&& self.time_in_force != TimeInForce::FOK
    }

    /// A new GTC order without self-trade prevention, stamped now with a fresh id.
    pub fn new(
        symbol: String,
        side: OrderSide,
        order_type: OrderType,
        price: Option<Dec>,
        quantity: Dec,
        user_id: String,
    ) -> (o: Order)
        ensures
            o.symbol@ == symbol@,
            o.side == side,
            o.order_type == order_type,
            o.price == price,
            o.quantity == quantity,
            o.filled_quantity == Dec::spec_zero(),
            o.status == OrderStatus::New,
            o.user_id@ == user_id@,
            o.time_in_force == TimeInForce::GTC,
            o.stp_mode == SelfTradePreventionMode::NoPrevention,
            !o.post_only,
            o.expire_time is None,
    {
        Self::new_with_options(
            symbol,
            side,
            order_type,
            price,
            quantity,
            user_id,
            TimeInForce::GTC,
            SelfTradePreventionMode::NoPrevention,
            false,
            None,
        )
    }

    /// A new order with every option given, stamped now with a fresh id.
    pub fn new_with_options(
        symbol: String,
        side: OrderSide,
        order_type: OrderType,
        price: Option<Dec>,
        quantity: Dec,
        user_id: String,
        time_in_force: TimeInForce,
        stp_mode: SelfTradePreventionMode,
        post_only: bool,
        expire_time: Option<i64>,
    ) -> (o: Order)
        ensures
            o.symbol@ == symbol@,
            o.side == side,
            o.order_type == order_type,
            o.price == price,
            o.quantity == quantity,
            o.filled_quantity == Dec::spec_zero(),
            o.status == OrderStatus::New,
            o.user_id@ == user_id@,
            o.time_in_force == time_in_force,
            o.stp_mode == stp_mode,
            o.post_only == post_only,
            o.expire_time == expire_time,
    {
        let id = crate::ids::fresh_id();
        let timestamp = crate::clock::now_millis();
        Order {
            id,
            symbol,
            side,
            order_type,
            price,
            quantity,
            filled_quantity: Dec::zero(),
            status: OrderStatus::New,
            user_id,
            timestamp,
            time_in_force,
            stp_mode,
            post_only,
            expire_time,
        }
    }

    /// An identical copy.
    pub fn duplicate(&self) -> (o: Order)
        ensures
            o == *self,
    {
        Order {
            id: self.id,
            symbol: self.symbol.clone(),
            side: self.side,
            order_type: self.order_type,
            price: self.price,
            quantity: self.quantity,
            filled_quantity: self.filled_quantity,
            status: self.status,
            user_id: self.user_id.clone(),
            timestamp: self.timestamp,
            time_in_force: self.time_in_force,
            stp_mode: self.stp_mode,
            post_only: self.post_only,
            expire_time: self.expire_time,
        }
    }

    /// Quantity still open (`None` on decimal overflow).
    pub fn remaining_quantity(&self) -> (r: Option<Dec>)
        ensures
            r == self.spec_remaining(),
    {
        self.quantity.sub(self.filled_quantity)
    }

    pub fn is_filled(&self) -> (b: bool)
        ensures
            b == self.spec_is_filled(),
    {
        self.quantity.le(&self.filled_quantity)
    }

    /// Fill `q` more; `false` (and no change) on decimal overflow.
    pub fn fill(&mut self, q: Dec) -> (ok: bool)
        ensures
            ok == old(self).spec_fill(q) is Some,
            ok ==> *final(self) == old(self).spec_fill(q).unwrap(),
            !ok ==> *final(self) == *old(self),
    {
        match self.filled_quantity.add(q) {
            Some(f) => {
                self.filled_quantity = f;
                if self.quantity.le(&f) {
                    self.status = OrderStatus::Filled;
                } else {
                    self.status = OrderStatus::PartiallyFilled;
                }
                true
            },
            None => false,
        }
    }

    /// Whether the order has expired at time `now`.
    pub fn is_expired_at(&self, now: i64) -> (b: bool)
        ensures
            b == self.spec_is_expired(now),
    {
        match self.expire_time {
            Some(t) => now > t,
            None => false,
        }
    }

    /// Whether the order has expired now: its expiry test at the time read
    /// from the clock (nothing is promised of that reading).
    pub fn is_expired(&self) -> (b: bool)
        ensures
            exists|now: i64| b == #[trigger] self.spec_is_expired(now),
            self.expire_time is None ==> !b,
    {
        let now = crate::clock::now_millis();
        self.is_expired_at(now)
    }

    pub fn should_rest_in_book(&self) -> (b: bool)
        ensures
            b == self.spec_should_rest(),
    {
        !self.is_filled() && (self.status == OrderStatus::New || self.status
            == OrderStatus::PartiallyFilled) && self.time_in_force != TimeInForce::IOC
            && self.time_in_force != TimeInForce::FOK
    }
}

/// An executed trade.
#[derive(Debug, Clone)]
pub struct Trade {
    pub id: u128,
    pub symbol: String,
    pub price: Dec,
    pub quantity: Dec,
    pub buyer_order_id: u128,
    pub seller_order_id: u128,
    pub buyer_user_id: String,
    pub seller_user_id: String,
    pub maker_fee: Dec,
    pub taker_fee: Dec,
    pub timestamp: i64,
}

/// What a trade says apart from its id and time stamp: symbol, price,
/// quantity, buyer order, seller order, buyer user, seller user, maker fee,
/// taker fee.
pub type TradeContent = (Seq<char>, Dec, Dec, u128, u128, Seq<char>, Seq<char>, Dec, Dec);

impl Trade {
    pub open spec fn content(self) -> TradeContent {
        (
            self.symbol@,
            self.price,
            self.quantity,
            self.buyer_order_id,
            self.seller_order_id,
            self.buyer_user_id@,
            self.seller_user_id@,
            self.maker_fee,
            self.taker_fee,
        )
    }

    /// A trade stamped now with a fresh id.
    pub fn new(
        symbol: String,
        price: Dec,
        quantity: Dec,
        buyer_order_id: u128,
        seller_order_id: u128,
        buyer_user_id: String,
        seller_user_id: String,
        maker_fee: Dec,
        taker_fee: Dec,
    ) -> (t: Trade)
        ensures
            t.content() == (
                symbol@,
                price,
                quantity,
                buyer_order_id,
                seller_order_id,
                buyer_user_id@,
                seller_user_id@,
                maker_fee,
                taker_fee,
            ),
    {
        let id = crate::ids::fresh_id();
        let timestamp = crate::clock::now_millis();
        Trade {
            id,
            symbol,
            price,
            quantity,
            buyer_order_id,
            seller_order_id,
            buyer_user_id,
            seller_user_id,
            maker_fee,
            taker_fee,
            timestamp,
        }
    }

    /// An identical copy.
    pub fn duplicate(&self) -> (t: Trade)
        ensures
            t == *self,
    {
        Trade {
            id: self.id,
            symbol: self.symbol.clone(),
            price: self.price,
            quantity: self.quantity,
            buyer_order_id: self.buyer_order_id,
            seller_order_id: self.seller_order_id,
            buyer_user_id: self.buyer_user_id.clone(),
            seller_user_id: self.seller_user_id.clone(),
            maker_fee: self.maker_fee,
            taker_fee: self.taker_fee,
            timestamp: self.timestamp,
        }
    }

    /// `price * quantity` (`None` on decimal overflow).
    pub fn value(&self) -> (v: Option<Dec>)
        ensures
            v == dec_mul(self.price, self.quantity),
    {
        self.price.mul(self.quantity)
    }

    /// `maker_fee + taker_fee` (`None` on decimal overflow).
    pub fn total_fees(&self) -> (v: Option<Dec>)
        ensures
            v == dec_add(self.maker_fee, self.taker_fee),
    {
        self.maker_fee.add(self.taker_fee)
    }
}

/// All orders resting at one price, oldest first.
#[derive(Debug, Clone)]
pub struct PriceLevel {
    pub price: Dec,
    pub orders: Vec<u128>,
    pub total_quantity: Dec,
}

/// A price level by value: price, order ids oldest first, total quantity.
pub type LevelView = (Dec, Seq<u128>, Dec);

/// `s` without the ids listed in `rm`.
pub open spec fn without_ids(s: Seq<u128>, rm: Seq<u128>) -> Seq<u128>
    decreases s.len(),
{
    if s.len() == 0 {
        s
    } else if rm.contains(s.last()) {
        without_ids(s.drop_last(), rm)
    } else {
        without_ids(s.drop_last(), rm).push(s.last())
    }
}

impl PriceLevel {
    pub open spec fn view_level(self) -> LevelView {
        (self.price, self.orders@, self.total_quantity)
    }

    /// An empty level at `price`.
    pub fn new(price: Dec) -> (l: PriceLevel)
        ensures
            l.view_level() == (price, Seq::<u128>::empty(), Dec::spec_zero()),
    {
        PriceLevel { price, orders: Vec::new(), total_quantity: Dec::zero() }
    }

    /// An identical copy.
    pub fn duplicate(&self) -> (l: PriceLevel)
        ensures
            l.view_level() == self.view_level(),
    {
        let mut orders: Vec<u128> = Vec::new();
        let mut i: usize = 0;
        while i < self.orders.len()
            invariant
                i <= self.orders@.len(),
                orders@ == self.orders@.take(i as int),
            decreases self.orders.len() - i,
        {
            orders.push(self.orders[i]);
            i = i + 1;
            assert(orders@ =~= self.orders@.take(i as int));
        }
        assert(orders@ =~= self.orders@);
        PriceLevel { price: self.price, orders, total_quantity: self.total_quantity }
    }

    /// Queue an order at the back; `false` (and no change) when the total overflows.
    pub fn add_order(&mut self, order_id: u128, quantity: Dec) -> (ok: bool)
        ensures
            ok == (dec_add(old(self).total_quantity, quantity) is Some),
            ok ==> final(self).view_level() == (
                old(self).price,
                old(self).orders@.push(order_id),
                dec_add(old(self).total_quantity, quantity).unwrap(),
            ),
            !ok ==> final(self).view_level() == old(self).view_level(),
    {
        match self.total_quantity.add(quantity) {
            Some(t) => {
                self.orders.push(order_id);
                self.total_quantity = t;
                true
            },
            None => false,
        }
    }

    /// Remove an order, taking its quantity off the total; `false` (and no
    /// change) when the total overflows.
    pub fn remove_order(&mut self, order_id: u128, quantity: Dec) -> (ok: bool)
        ensures
            ok == (dec_sub(old(self).total_quantity, quantity) is Some),
            ok ==> final(self).view_level() == (
                old(self).price,
                without_ids(old(self).orders@, seq![order_id]),
                dec_sub(old(self).total_quantity, quantity).unwrap(),
            ),
            !ok ==> final(self).view_level() == old(self).view_level(),
    {
        match self.total_quantity.sub(quantity) {
            Some(t) => {
                let rm = vec![order_id];
                assert(rm@ =~= seq![order_id]);
                let kept = remove_ids(&self.orders, &rm);
                self.orders = kept;
                self.total_quantity = t;
                true
            },
            None => false,
        }
    }

    pub fn is_empty(&self) -> (b: bool)
        ensures
            b == (self.orders@.len() == 0),
    {
        self.orders.len() == 0
    }
}

/// Whether `id` is listed in `ids`.
pub fn contains_id(ids: &Vec<u128>, id: u128) -> (b: bool)
    ensures
        b == ids@.contains(id),
{
    let mut i: usize = 0;
    while i < ids.len()
        invariant
            i <= ids@.len(),
            forall|k: int| 0 <= k < i ==> ids@[k] != id,
        decreases ids.len() - i,
    {
        if ids[i] == id {
            return true;
        }
        i = i + 1;
    }
    false
}

/// `ids` without those listed in `rm`, in order.
pub fn remove_ids(ids: &Vec<u128>, rm: &Vec<u128>) -> (r: Vec<u128>)
    ensures
        r@ == without_ids(ids@, rm@),
{
    let mut r: Vec<u128> = Vec::new();
    let mut i: usize = 0;
    while i < ids.len()
        invariant
            i <= ids@.len(),
            r@ == without_ids(ids@.take(i as int), rm@),
        decreases ids.len() - i,
    {
        assert(ids@.take(i + 1).drop_last() =~= ids@.take(i as int));
        if !contains_id(rm, ids[i]) {
            r.push(ids[i]);
        }
        i = i + 1;
    }
    assert(ids@.take(i as int) =~= ids@);
    r
}

/// Order book of one symbol.  Bid and ask levels are kept in increasing
/// price order (distinct prices); `orders` holds the resting orders by id.
pub struct OrderBook {
    pub symbol: String,
    pub bids: Vec<PriceLevel>,
    pub asks: Vec<PriceLevel>,
    pub orders: HashMap<u128, Order>,
    pub trades: Vec<Trade>,
}

pub open spec fn levels_view(v: Seq<PriceLevel>) -> Seq<LevelView> {
    v.map_values(|l: PriceLevel| l.view_level())
}

/// Levels in strictly increasing price order.
pub open spec fn levels_sorted(levels: Seq<LevelView>) -> bool {
    forall|i: int, j: int|
        0 <= i < j < levels.len() ==> (#[trigger] levels[i]).0.value() < (#[trigger] levels[j]).0.value()
}

pub open spec fn trades_content(v: Seq<Trade>) -> Seq<TradeContent> {
    v.map_values(|t: Trade| t.content())
}

/// An order book by value.
#[verifier::ext_equal]
pub struct BookView {
    pub symbol: Seq<char>,
    pub bids: Seq<LevelView>,
    pub asks: Seq<LevelView>,
    pub orders: Map<u128, Order>,
    pub trades: Seq<Trade>,
}

impl BookView {
    /// Price levels of both sides are sorted by price.
    pub open spec fn wf(self) -> bool {
        levels_sorted(self.bids) && levels_sorted(self.asks)
    }

    /// Highest bid price (the last bid level).
    pub open spec fn best_bid(self) -> Option<Dec> {
        if self.bids.len() == 0 {
            None
        } else {
            Some(self.bids.last().0)
        }
    }

    /// Lowest ask price (the first ask level).
    pub open spec fn best_ask(self) -> Option<Dec> {
        if self.asks.len() == 0 {
            None
        } else {
            Some(self.asks[0].0)
        }
    }
}

impl View for OrderBook {
    type V = BookView;

    open spec fn view(&self) -> BookView {
        BookView {
            symbol: self.symbol@,
            bids: levels_view(self.bids@),
            asks: levels_view(self.asks@),
            orders: self.orders@,
            trades: self.trades@,
        }
    }
}

impl OrderBook {
    pub open spec fn bid_levels(&self) -> Seq<LevelView> {
        levels_view(self.bids@)
    }

    pub open spec fn ask_levels(&self) -> Seq<LevelView> {
        levels_view(self.asks@)
    }

    /// Price levels of both sides are sorted by price.
    pub open spec fn wf(&self) -> bool {
        self@.wf()
    }

    /// Highest bid price.
    pub open spec fn spec_best_bid(&self) -> Option<Dec> {
        self@.best_bid()
    }

    /// Lowest ask price.
    pub open spec fn spec_best_ask(&self) -> Option<Dec> {
        self@.best_ask()
    }

    /// An empty book for `symbol`.
    pub fn new(symbol: String) -> (b: OrderBook)
        ensures
            b.symbol@ == symbol@,
            b.bids@.len() == 0,
            b.asks@.len() == 0,
            b.orders@ == Map::<u128, Order>::empty(),
            b.trades@.len() == 0,
            b.wf(),
    {
        OrderBook {
            symbol,
            bids: Vec::new(),
            asks: Vec::new(),
            orders: HashMap::new(),
            trades: Vec::new(),
        }
    }

    pub fn get_best_bid(&self) -> (p: Option<Dec>)
        ensures
            p == self.spec_best_bid(),
    {
        if self.bids.len() == 0 {
            None
        } else {
            Some(self.bids[self.bids.len() - 1].price)
        }
    }

    pub fn get_best_ask(&self) -> (p: Option<Dec>)
        ensures
            p == self.spec_best_ask(),
    {
        if self.asks.len() == 0 {
            None
        } else {
            Some(self.asks[0].price)
        }
    }

    /// `best_ask - best_bid` when both sides are quoted.
    pub fn get_spread(&self) -> (s: Option<Dec>)
        ensures
            s == (match (self.spec_best_bid(), self.spec_best_ask()) {
                (Some(b), Some(a)) => dec_sub(a, b),
                _ => None,
            }),
    {
        match (self.get_best_bid(), self.get_best_ask()) {
            (Some(b), Some(a)) => a.sub(b),
            _ => None,
        }
    }

    /// `(best_bid + best_ask) / 2` when both sides are quoted.
    pub fn get_mid_price(&self) -> (m: Option<Dec>)
        ensures
            m == (match (self.spec_best_bid(), self.spec_best_ask()) {
                (Some(b), Some(a)) => match dec_add(b, a) {
                    Some(s) => dec_div(s, Dec::spec_from_u64(2)),
                    None => None,
                },
                _ => None,
            }),
    {
        match (self.get_best_bid(), self.get_best_ask()) {
            (Some(b), Some(a)) => match b.add(a) {
                Some(s) => s.div(Dec::from_u64(2)),
                None => None,
            },
            _ => None,
        }
    }

    /// Spread in basis points of the mid price: `spread / mid * 10000`.
    pub fn get_spread_bps(&self) -> (r: Option<Dec>)
        ensures
            r == (match (self.get_spread_spec(), self.get_mid_spec()) {
                (Some(s), Some(m)) => match dec_div(s, m) {
                    Some(q) => dec_mul(q, Dec::spec_from_u64(10000)),
                    None => None,
                },
                _ => None,
            }),
    {
        match (self.get_spread(), self.get_mid_price()) {
            (Some(s), Some(m)) => match s.div(m) {
                Some(q) => q.mul(Dec::from_u64(10000)),
                None => None,
            },
            _ => None,
        }
    }

    pub open spec fn get_spread_spec(&self) -> Option<Dec> {
        match (self.spec_best_bid(), self.spec_best_ask()) {
            (Some(b), Some(a)) => dec_sub(a, b),
            _ => None,
        }
    }

    pub open spec fn get_mid_spec(&self) -> Option<Dec> {
        match (self.spec_best_bid(), self.spec_best_ask()) {
            (Some(b), Some(a)) => match dec_add(b, a) {
                Some(s) => dec_div(s, Dec::spec_from_u64(2)),
                None => None,
            },
            _ => None,
        }
    }

    /// Record an executed trade.
    pub fn add_trade(&mut self, trade: Trade)
        ensures
            final(self).trades@ == old(self).trades@.push(trade),
            final(self).symbol == old(self).symbol,
            final(self).bids@ == old(self).bids@,
            final(self).asks@ == old(self).asks@,
            final(self).orders@ == old(self).orders@,
    {
        self.trades.push(trade);
    }

    /// The last `limit` trades, oldest first.
    pub fn get_recent_trades(&self, limit: usize) -> (r: Vec<Trade>)
        ensures
            r@ == (if limit >= self.trades@.len() {
                self.trades@
            } else {
                self.trades@.skip(self.trades@.len() - limit)
            }),
    {
        let n = self.trades.len();
        let start = if limit >= n {
            0
        } else {
            n - limit
        };
        let mut r: Vec<Trade> = Vec::new();
        let mut i = start;
        while i < n
            invariant
                start <= i <= n == self.trades@.len(),
                r@ == self.trades@.subrange(start as int, i as int),
            decreases n - i,
        {
            r.push(self.trades[i].duplicate());
            i = i + 1;
            assert(r@ =~= self.trades@.subrange(start as int, i as int));
        }
        assert(r@ =~= (if limit >= self.trades@.len() {
            self.trades@
        } else {
            self.trades@.skip(self.trades@.len() - limit)
        }));
        r
    }

    /// An identical copy.
    pub fn duplicate(&self) -> (b: OrderBook)
        ensures
            b.symbol == self.symbol,
            b.bid_levels() == self.bid_levels(),
            b.ask_levels() == self.ask_levels(),
            b.orders@ == self.orders@,
            b.trades@ == self.trades@,
    {
        let bids = duplicate_levels(&self.bids);
        let asks = duplicate_levels(&self.asks);
        let mut trades: Vec<Trade> = Vec::new();
        let mut i: usize = 0;
        while i < self.trades.len()
            invariant
                i <= self.trades@.len(),
                trades@ == self.trades@.take(i as int),
            decreases self.trades.len() - i,
        {
            trades.push(self.trades[i].duplicate());
            i = i + 1;
            assert(trades@ =~= self.trades@.take(i as int));
        }
        assert(trades@ =~= self.trades@);
        OrderBook {
            symbol: self.symbol.clone(),
            bids,
            asks,
            orders: self.orders.clone(),
            trades,
        }
    }
}

fn duplicate_levels(v: &Vec<PriceLevel>) -> (r: Vec<PriceLevel>)
    ensures
        levels_view(r@) == levels_view(v@),
{
    let mut r: Vec<PriceLevel> = Vec::new();
    let mut i: usize = 0;
    while i < v.len()
        invariant
            i <= v@.len(),
            r@.len() == i,
            forall|k: int| 0 <= k < i ==> #[trigger] r@[k].view_level() == v@[k].view_level(),
        decreases v.len() - i,
    {
        r.push(v[i].duplicate());
        i = i + 1;
    }
    assert(levels_view(r@) =~= levels_view(v@));
    r
}

} // verus!
