//! The order book as answered to clients: the best levels of each side,
//! each with its price, total quantity and number of orders.
use vstd::prelude::*;

use crate::decimal::Dec;
use crate::engine::types::{LevelView, OrderBook};

verus! {

/// A price level as answered: price, total quantity, number of orders.
pub struct PriceLevelResponse {
    pub price: Dec,
    pub quantity: Dec,
    pub orders: usize,
}

/// The answer for a level.
pub open spec fn level_answer(l: LevelView) -> (Dec, Dec, nat) {
    (l.0, l.2, l.1.len())
}

/// The answered form of a level.
pub open spec fn response_view(r: PriceLevelResponse) -> (Dec, Dec, nat) {
    (r.price, r.quantity, r.orders as nat)
}

/// The number of levels answered for a side of `n` levels.
pub open spec fn shown(n: nat, depth: usize) -> nat {
    if n < depth {
        n
    } else {
        depth as nat
    }
}

/// The best `depth` levels of each side: bids from the highest price down,
/// asks from the lowest price up (levels are kept in increasing price order).
pub fn book_depth(book: &OrderBook, depth: usize) -> (r: (Vec<PriceLevelResponse>, Vec<PriceLevelResponse>))
    ensures
        r.0@.len() == shown(book.bid_levels().len(), depth),
        forall|i: int|
            0 <= i < r.0@.len() ==> response_view(#[trigger] r.0@[i]) == level_answer(
                book.bid_levels()[book.bid_levels().len() - 1 - i],
            ),
        r.1@.len() == shown(book.ask_levels().len(), depth),
        forall|i: int|
            0 <= i < r.1@.len() ==> response_view(#[trigger] r.1@[i]) == level_answer(
                book.ask_levels()[i],
            ),
{
    let mut bids: Vec<PriceLevelResponse> = Vec::new();
    let nb = book.bids.len();
    let mut i: usize = 0;
    while i < nb && i < depth
        invariant
            nb == book.bids@.len(),
            i <= nb,
            i <= depth,
            bids@.len() == i,
            forall|k: int|
                0 <= k < i ==> response_view(#[trigger] bids@[k]) == level_answer(
                    book.bid_levels()[nb - 1 - k],
                ),
        decreases nb - i,
    {
        let level = &book.bids[nb - 1 - i];
        bids.push(
            PriceLevelResponse {
                price: level.price,
                quantity: level.total_quantity,
                orders: level.orders.len(),
            },
        );
        i = i + 1;
    }
    let mut asks: Vec<PriceLevelResponse> = Vec::new();
    let na = book.asks.len();
    let mut j: usize = 0;
    while j < na && j < depth
        invariant
            na == book.asks@.len(),
            j <= na,
            j <= depth,
            asks@.len() == j,
            forall|k: int|
                0 <= k < j ==> response_view(#[trigger] asks@[k]) == level_answer(
                    book.ask_levels()[k],
                ),
        decreases na - j,
    {
        let level = &book.asks[j];
        asks.push(
            PriceLevelResponse {
                price: level.price,
                quantity: level.total_quantity,
                orders: level.orders.len(),
            },
        );
        j = j + 1;
    }
    (bids, asks)
}

} // verus!
