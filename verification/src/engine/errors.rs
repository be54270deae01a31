//! Errors of order book operations, and their messages.
use vstd::prelude::*;

use crate::engine::matching::{matching_error_text, MatchingError};
use crate::ids::{id_text, uuid_text};

verus! {

/// Errors that can occur during order book operations.
///
/// Categories: validation errors (`InvalidPrice`, `InvalidQuantity`,
/// `InvalidExpireTime`, `InvalidSymbol`), state errors (`OrderNotFound`,
/// `OrderNotActive`, `DuplicateOrder`), trading errors
/// (`InsufficientLiquidity`, `SelfTrade`) and matching errors.
#[derive(Debug, Clone)]
pub enum OrderBookError {
    /// No order with this id is in the book.
    OrderNotFound(u128),
    /// Price validation failed (not positive, or missing on a limit order).
    InvalidPrice(String),
    /// Quantity validation failed (not positive).
    InvalidQuantity(String),
    /// Expire time validation failed (missing on a good-till-date order).
    InvalidExpireTime(String),
    /// Not enough liquidity to fill the order.
    InsufficientLiquidity,
    /// A self-trade was detected and prevented.
    SelfTrade,
    /// An order with the same id already exists.
    DuplicateOrder(u128),
    /// The trading symbol is invalid or not supported.
    InvalidSymbol(String),
    /// The order is already filled or cancelled.
    OrderNotActive(u128),
    /// Matching the order failed.
    MatchingError(MatchingError),
    /// A lock could not be taken.
    LockError(String),
}

/// The message of an error (what its `Display` writes).
pub open spec fn order_book_error_text(e: OrderBookError) -> Seq<char> {
    match e {
        OrderBookError::OrderNotFound(id) => "Order not found: "@ + uuid_text(id),
        OrderBookError::InvalidPrice(s) => "Invalid price: "@ + s@,
        OrderBookError::InvalidQuantity(s) => "Invalid quantity: "@ + s@,
        OrderBookError::InvalidExpireTime(s) => "Invalid expire time: "@ + s@,
        OrderBookError::InsufficientLiquidity => "Insufficient liquidity"@,
        OrderBookError::SelfTrade => "Self-trade detected"@,
        OrderBookError::DuplicateOrder(id) => "Duplicate order: "@ + uuid_text(id),
        OrderBookError::InvalidSymbol(s) => "Invalid symbol: "@ + s@,
        OrderBookError::OrderNotActive(id) => "Order already filled or cancelled: "@ + uuid_text(id),
        OrderBookError::MatchingError(m) => "Matching error: "@ + matching_error_text(m),
        OrderBookError::LockError(s) => "Lock error: "@ + s@,
    }
}

impl OrderBookError {
    /// Whether this is a validation error.
    pub fn is_validation_error(&self) -> (b: bool)
        ensures
            b == (self is InvalidPrice || self is InvalidQuantity || self is InvalidExpireTime
                || self is InvalidSymbol),
    {
        match self {
            OrderBookError::InvalidPrice(_) => true,
            OrderBookError::InvalidQuantity(_) => true,
            OrderBookError::InvalidExpireTime(_) => true,
            OrderBookError::InvalidSymbol(_) => true,
            _ => false,
        }
    }

    /// Whether this is a state error (the order does not exist or is in the wrong state).
    pub fn is_state_error(&self) -> (b: bool)
        ensures
            b == (self is OrderNotFound || self is OrderNotActive || self is DuplicateOrder),
    {
        match self {
            OrderBookError::OrderNotFound(_) => true,
            OrderBookError::OrderNotActive(_) => true,
            OrderBookError::DuplicateOrder(_) => true,
            _ => false,
        }
    }

    /// Whether this is a trading error.
    pub fn is_trading_error(&self) -> (b: bool)
        ensures
            b == (self is InsufficientLiquidity || self is SelfTrade),
    {
        match self {
            OrderBookError::InsufficientLiquidity => true,
            OrderBookError::SelfTrade => true,
            _ => false,
        }
    }

    /// The error message.
    pub fn to_text(&self) -> (s: String)
        ensures
            s@ == order_book_error_text(*self),
    {
        match self {
            OrderBookError::OrderNotFound(id) => prefixed("Order not found: ", &id_text(*id)),
            OrderBookError::InvalidPrice(s) => prefixed("Invalid price: ", s),
            OrderBookError::InvalidQuantity(s) => prefixed("Invalid quantity: ", s),
            OrderBookError::InvalidExpireTime(s) => prefixed("Invalid expire time: ", s),
            OrderBookError::InsufficientLiquidity => String::from_str("Insufficient liquidity"),
            OrderBookError::SelfTrade => String::from_str("Self-trade detected"),
            OrderBookError::DuplicateOrder(id) => prefixed("Duplicate order: ", &id_text(*id)),
            OrderBookError::InvalidSymbol(s) => prefixed("Invalid symbol: ", s),
            OrderBookError::OrderNotActive(id) => prefixed(
                "Order already filled or cancelled: ",
                &id_text(*id),
            ),
            OrderBookError::MatchingError(m) => prefixed("Matching error: ", &m.to_text()),
            OrderBookError::LockError(s) => prefixed("Lock error: ", s),
        }
    }
}

/// `head` followed by `tail`.
pub fn prefixed(head: &str, tail: &String) -> (s: String)
    ensures
        s@ == head@ + tail@,
{
    let mut s = String::from_str(head);
    s.append(tail.as_str());
    s
}

} // verus!
