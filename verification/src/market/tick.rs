//! Ticks as stored: bid and ask with their volumes.
use vstd::prelude::*;

use crate::decimal::{dec_add, dec_div, dec_sub, Dec};

verus! {

/// A tick to be stored.  `tick_time` is in milliseconds since the Unix epoch.
#[derive(Debug, Clone)]
pub struct NewTick {
    pub symbol_id: i64,
    pub symbol_name: String,
    pub tick_time: i64,
    pub bid_price: Dec,
    pub ask_price: Dec,
    pub bid_volume: Dec,
    pub ask_volume: Dec,
}

impl NewTick {
    pub fn new(
        symbol_id: i64,
        symbol_name: String,
        tick_time: i64,
        bid_price: Dec,
        ask_price: Dec,
        bid_volume: Dec,
        ask_volume: Dec,
    ) -> (t: NewTick)
        ensures
            t.symbol_id == symbol_id,
            t.symbol_name == symbol_name,
            t.tick_time == tick_time,
            t.bid_price == bid_price,
            t.ask_price == ask_price,
            t.bid_volume == bid_volume,
            t.ask_volume == ask_volume,
    {
        NewTick { symbol_id, symbol_name, tick_time, bid_price, ask_price, bid_volume, ask_volume }
    }

    /// Spread `ask - bid` (`None` on decimal overflow).
    pub fn spread(&self) -> (r: Option<Dec>)
        ensures
            r == dec_sub(self.ask_price, self.bid_price),
    {
        self.ask_price.sub(self.bid_price)
    }

    /// Mid price `(ask + bid) / 2` (`None` on decimal overflow).
    pub fn mid_price(&self) -> (r: Option<Dec>)
        ensures
            r == (match dec_add(self.ask_price, self.bid_price) {
                Some(s) => dec_div(s, Dec::spec_from_u64(2)),
                None => None,
            }),
    {
        match self.ask_price.add(self.bid_price) {
            Some(s) => s.div(Dec::from_u64(2)),
            None => None,
        }
    }
}

} // verus!
