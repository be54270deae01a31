//! Checks an order must pass before it is matched.
use vstd::prelude::*;

use crate::decimal::{decimal_to_string, Dec};
use crate::engine::errors::{prefixed, OrderBookError};
use crate::engine::types::{Order, OrderType, TimeInForce};

verus! {

/// Message of a quantity that is not positive.
pub open spec fn quantity_message(quantity: Dec) -> Seq<char> {
    "Quantity must be positive, got: "@ + decimal_to_string(quantity@)
}

/// Message of a price that is not positive.
pub open spec fn price_message(price: Dec) -> Seq<char> {
    "Price must be positive, got: "@ + decimal_to_string(price@)
}

/// Whether a price is acceptable for the order type: positive when given,
/// and given on a limit order.
pub open spec fn price_ok(price: Option<Dec>, order_type: OrderType) -> bool {
    match price {
        Some(p) => p.value() > 0,
        None => order_type != OrderType::Limit,
    }
}

/// Whether an expire time is acceptable: good-till-date orders need one.
pub open spec fn expire_time_ok(time_in_force: TimeInForce, expire_time: Option<i64>) -> bool {
    !(time_in_force == TimeInForce::GTD && expire_time is None)
}

/// The quantity must be positive.
pub fn validate_quantity(quantity: Dec) -> (r: Result<(), OrderBookError>)
    ensures
        r is Ok <==> quantity.value() > 0,
        r matches Err(e) ==> (e matches OrderBookError::InvalidQuantity(s) && s@ == quantity_message(
            quantity,
        )),
{
    if quantity.le(&Dec::zero()) {
        return Err(
            OrderBookError::InvalidQuantity(
                prefixed("Quantity must be positive, got: ", &quantity.to_text()),
            ),
        );
    }
    Ok(())
}

/// A given price must be positive, and a limit order must have one.
pub fn validate_price(price: Option<Dec>, order_type: &OrderType) -> (r: Result<
    (),
    OrderBookError,
>)
    ensures
        r is Ok <==> price_ok(price, *order_type),
        r matches Err(e) ==> (e matches OrderBookError::InvalidPrice(s) && match price {
            Some(p) => s@ == price_message(p),
            None => s@ == "Limit orders must have a price"@,
        }),
{
    match price {
        Some(p) => {
            if p.le(&Dec::zero()) {
                return Err(
                    OrderBookError::InvalidPrice(
                        prefixed("Price must be positive, got: ", &p.to_text()),
                    ),
                );
            }
            Ok(())
        },
        None => {
            if *order_type == OrderType::Limit {
                return Err(
                    OrderBookError::InvalidPrice(String::from_str("Limit orders must have a price")),
                );
            }
            Ok(())
        },
    }
}

/// Good-till-date orders must carry an expire time.
pub fn validate_expire_time(time_in_force: &TimeInForce, expire_time: Option<i64>) -> (r: Result<
    (),
    OrderBookError,
>)
    ensures
        r is Ok <==> expire_time_ok(*time_in_force, expire_time),
        r matches Err(e) ==> (e matches OrderBookError::InvalidExpireTime(s) && s@
            == "GTD (Good-Till-Date) orders must have an expire_time"@),
{
    if *time_in_force == TimeInForce::GTD && expire_time.is_none() {
        return Err(
            OrderBookError::InvalidExpireTime(
                String::from_str("GTD (Good-Till-Date) orders must have an expire_time"),
            ),
        );
    }
    Ok(())
}

/// The order passes every check.
pub open spec fn order_is_valid(order: Order) -> bool {
    order.quantity.value() > 0 && price_ok(order.price, order.order_type) && expire_time_ok(
        order.time_in_force,
        order.expire_time,
    )
}

/// `e` is the error of the first check that the order fails.
pub open spec fn validation_error(order: Order, e: OrderBookError) -> bool {
    if order.quantity.value() <= 0 {
        e matches OrderBookError::InvalidQuantity(s) && s@ == quantity_message(order.quantity)
    } else if !price_ok(order.price, order.order_type) {
        e matches OrderBookError::InvalidPrice(s) && match order.price {
            Some(p) => s@ == price_message(p),
            None => s@ == "Limit orders must have a price"@,
        }
    } else {
        e matches OrderBookError::InvalidExpireTime(s) && s@
            == "GTD (Good-Till-Date) orders must have an expire_time"@
    }
}

/// All checks of an order, in order: quantity, price, expire time; the first
/// that fails gives the error.
pub fn validate_order(order: &Order) -> (r: Result<(), OrderBookError>)
    ensures
        r is Ok <==> order_is_valid(*order),
        r matches Err(e) ==> validation_error(*order, e),
{
    match validate_quantity(order.quantity) {
        Err(e) => {
            return Err(e);
        },
        Ok(()) => {},
    }
    match validate_price(order.price, &order.order_type) {
        Err(e) => {
            return Err(e);
        },
        Ok(()) => {},
    }
    validate_expire_time(&order.time_in_force, order.expire_time)
}

} // verus!
