//! Best bid / best ask snapshot of one instrument.
use vstd::prelude::*;

use crate::decimal::{decimal_checked_add, decimal_checked_div, decimal_checked_sub, opt_parts, Dec};

verus! {

/// `(bid + ask) / 2`, by the decimal operations; `None` when one of them overflows.
pub open spec fn mid_of(bid: Dec, ask: Dec) -> Option<(i128, u32)> {
    match decimal_checked_add(bid@, ask@) {
        Some(sum) => decimal_checked_div(sum, (2i128, 0u32)),
        None => None,
    }
}

/// Market tick: prices as last seen in a market-data message.
#[derive(Debug, Clone)]
pub struct MarketTick {
    /// Symbol identifier (cTrader symbol id)
    pub symbol_id: String,
    /// When the tick was received, in milliseconds since the Unix epoch
    pub timestamp_millis: i64,
    pub bid_price: Option<Dec>,
    pub ask_price: Option<Dec>,
}

impl MarketTick {
    /// An empty tick stamped with the current time.
    pub fn new(symbol_id: String) -> (t: MarketTick)
        ensures
            t.symbol_id@ == symbol_id@,
            t.bid_price is None,
            t.ask_price is None,
    {
        let now = crate::clock::now_millis();
        Self::new_at(symbol_id, now)
    }

    /// An empty tick stamped with `timestamp_millis`.
    pub fn new_at(symbol_id: String, timestamp_millis: i64) -> (t: MarketTick)
        ensures
            t.symbol_id@ == symbol_id@,
            t.timestamp_millis == timestamp_millis,
            t.bid_price is None,
            t.ask_price is None,
    {
        MarketTick { symbol_id, timestamp_millis, bid_price: None, ask_price: None }
    }

    /// Mid price `(bid + ask) / 2` when both sides are known.
    pub fn mid_price(&self) -> (r: Option<Dec>)
        ensures
            opt_parts(r) == (match (self.bid_price, self.ask_price) {
                (Some(b), Some(a)) => mid_of(b, a),
                _ => None,
            }),
    {
        match (self.bid_price, self.ask_price) {
            (Some(bid), Some(ask)) => match bid.checked_add(ask) {
                Some(sum) => sum.checked_div(Dec::new(2, 0)),
                None => None,
            },
            _ => None,
        }
    }

    /// Spread `ask - bid` when both sides are known.
    pub fn spread(&self) -> (r: Option<Dec>)
        ensures
            opt_parts(r) == (match (self.bid_price, self.ask_price) {
                (Some(b), Some(a)) => decimal_checked_sub(a@, b@),
                _ => None,
            }),
    {
        match (self.bid_price, self.ask_price) {
            (Some(bid), Some(ask)) => ask.checked_sub(bid),
            _ => None,
        }
    }

    /// Both sides are known.
    pub fn is_complete(&self) -> (b: bool)
        ensures
            b == (self.bid_price is Some && self.ask_price is Some),
    {
        self.bid_price.is_some() && self.ask_price.is_some()
    }
}

} // verus!
