//! Error bodies of the HTTP interface and the status each error is answered
//! with.
use vstd::prelude::*;

use crate::engine::errors::{order_book_error_text, OrderBookError};
use crate::text::{contains_chars, contains_seq, chars_of};

verus! {

/// Error body: a short error kind and a message.
pub struct ErrorResponse {
    pub error: String,
    pub message: String,
}

/// HTTP status answered for an order book error: 404 for an unknown order,
/// 409 for a duplicate, 500 for matching and lock failures, 400 otherwise.
pub open spec fn order_error_status_of(e: OrderBookError) -> u16 {
    match e {
        OrderBookError::OrderNotFound(_) => 404,
        OrderBookError::DuplicateOrder(_) => 409,
        OrderBookError::MatchingError(_) => 500,
        OrderBookError::LockError(_) => 500,
        _ => 400,
    }
}

/// The HTTP status for an order book error.
pub fn order_error_status(e: &OrderBookError) -> (s: u16)
    ensures
        s == order_error_status_of(*e),
{
    match e {
        OrderBookError::OrderNotFound(_) => 404,
        OrderBookError::DuplicateOrder(_) => 409,
        OrderBookError::MatchingError(_) => 500,
        OrderBookError::LockError(_) => 500,
        _ => 400,
    }
}

/// The error body for an order book error; `status_text` is the status
/// line's text (such as `"404 Not Found"`).
pub fn order_error_response(e: &OrderBookError, status_text: String) -> (r: ErrorResponse)
    ensures
        r.error@ == status_text@,
        r.message@ == order_book_error_text(*e),
{
    ErrorResponse { error: status_text, message: e.to_text() }
}

/// Errors of starting or stopping the FIX data source, with the message of
/// the failure.
pub enum DatasourceError {
    StartFailed(String),
    StopFailed(String),
}

/// Status, error kind and message answered for a data source error: a start
/// refused because a connection exists, or a stop refused because none
/// exists, is the client's fault (400); any other failure is 500.
pub open spec fn datasource_error_answer(e: DatasourceError) -> (u16, Seq<char>, Seq<char>) {
    match e {
        DatasourceError::StartFailed(m) => if contains_seq(m@, "Already connected"@) {
            (400u16, "already_connected"@, m@)
        } else {
            (500u16, "start_failed"@, m@)
        },
        DatasourceError::StopFailed(m) => if contains_seq(m@, "No active"@) {
            (400u16, "not_connected"@, m@)
        } else {
            (500u16, "stop_failed"@, m@)
        },
    }
}

impl DatasourceError {
    /// The status and error body answered for this error.
    pub fn response(&self) -> (r: (u16, ErrorResponse))
        ensures
            (r.0, r.1.error@, r.1.message@) == datasource_error_answer(*self),
    {
        match self {
            DatasourceError::StartFailed(m) => {
                let cs = chars_of(m.as_str());
                let pat = chars_of("Already connected");
                if contains_chars(&cs, &pat) {
                    (400, ErrorResponse { error: "already_connected".to_owned(), message: m.clone() })
                } else {
                    (500, ErrorResponse { error: "start_failed".to_owned(), message: m.clone() })
                }
            },
            DatasourceError::StopFailed(m) => {
                let cs = chars_of(m.as_str());
                let pat = chars_of("No active");
                if contains_chars(&cs, &pat) {
                    (400, ErrorResponse { error: "not_connected".to_owned(), message: m.clone() })
                } else {
                    (500, ErrorResponse { error: "stop_failed".to_owned(), message: m.clone() })
                }
            },
        }
    }
}

} // verus!
