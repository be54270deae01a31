//! Query parameters of the read endpoints, their defaults, and how a query's
//! optional time bounds and timeframe are resolved before the store is asked.
use vstd::prelude::*;

use crate::market::timeframe::{timeframe_of_text, Timeframe};
use crate::text::push_str;

verus! {

/// Order book depth requested (`?depth=`).
pub struct DepthQuery {
    pub depth: usize,
}

/// Number of trades requested (`?limit=`).
pub struct TradeQuery {
    pub limit: usize,
}

/// Price levels returned per side when no depth is given.
pub fn default_depth() -> (d: usize)
    ensures
        d == 10,
{
    10
}

/// Trades returned when no limit is given.
pub fn default_limit() -> (l: usize)
    ensures
        l == 50,
{
    50
}

/// Levels analysed for microstructure metrics: the default depth of the
/// order book endpoint stands for five levels there.
pub fn microstructure_depth(depth: usize) -> (d: usize)
    ensures
        d == (if depth == 10 { 5 } else { depth }),
{
    if depth == default_depth() {
        5
    } else {
        depth
    }
}

/// Tick query: optional RFC 3339 bounds and a row limit.
pub struct TickQueryParams {
    pub from: Option<String>,
    pub to: Option<String>,
    pub limit: i64,
}

/// Candle query: timeframe text, optional RFC 3339 bounds and a row limit.
pub struct OhlcQueryParams {
    pub timeframe: String,
    pub from: Option<String>,
    pub to: Option<String>,
    pub limit: i64,
}

/// Latest-candle query: the timeframe text.
pub struct LatestOhlcQueryParams {
    pub timeframe: String,
}

/// Ticks returned when no limit is given.
pub fn default_tick_limit() -> (l: i64)
    ensures
        l == 1000,
{
    1000
}

/// Candles returned when no limit is given.
pub fn default_ohlc_limit() -> (l: i64)
    ensures
        l == 500,
{
    500
}

/// One day in milliseconds: how far back a tick query reaches by default.
pub const DAY_MS: i64 = 86_400_000;

/// One week in milliseconds: how far back a candle query reaches by default.
pub const WEEK_MS: i64 = 604_800_000;

/// What `chrono::DateTime::parse_from_rfc3339` gives for this text: the
/// instant in milliseconds since the Unix epoch, or the text of its error.
pub uninterp spec fn rfc3339_millis(text: Seq<char>) -> Result<i64, Seq<char>>;

/// `chrono::DateTime::parse_from_rfc3339(text)`, taken as milliseconds since
/// the Unix epoch (`timestamp_millis`), or the error's text (`to_string`).
#[verifier::external_body]
pub(crate) fn parse_rfc3339(text: &str) -> (r: Result<i64, String>)
    ensures
        match r {
            Ok(ms) => rfc3339_millis(text@) == Ok::<i64, Seq<char>>(ms),
            Err(e) => rfc3339_millis(text@) == Err::<i64, Seq<char>>(e@),
        },
{
    match chrono::DateTime::parse_from_rfc3339(text) {
        Ok(dt) => Ok(dt.timestamp_millis()),
        Err(e) => Err(e.to_string()),
    }
}

/// The text of an optional string.
pub open spec fn opt_text(o: Option<String>) -> Option<Seq<char>> {
    match o {
        Some(s) => Some(s@),
        None => None,
    }
}

/// A time bound: the parsed text where one is given, else the default.
pub open spec fn time_bound(text: Option<Seq<char>>, default: i64) -> Result<i64, Seq<char>> {
    match text {
        Some(t) => rfc3339_millis(t),
        None => Ok(default),
    }
}

/// Resolve an optional time bound.
pub fn resolve_time_bound(text: &Option<String>, default: i64) -> (r: Result<i64, String>)
    ensures
        match r {
            Ok(ms) => time_bound(opt_text(*text), default) == Ok::<i64, Seq<char>>(ms),
            Err(e) => time_bound(opt_text(*text), default) == Err::<i64, Seq<char>>(e@),
        },
{
    match text {
        Some(t) => parse_rfc3339(t.as_str()),
        None => Ok(default),
    }
}

/// Why a query was refused (each is answered with status 400).
pub enum QueryError {
    /// The timeframe text names no timeframe.
    InvalidTimeframe(String),
    /// The `from` bound is not RFC 3339; the parser's message.
    InvalidFrom(String),
    /// The `to` bound is not RFC 3339; the parser's message.
    InvalidTo(String),
}

/// The message of a refused query.
pub open spec fn query_error_text(e: QueryError) -> Seq<char> {
    match e {
        QueryError::InvalidTimeframe(t) => "Invalid timeframe '"@ + t@
            + "'. Valid values: 1m, 5m, 15m, 30m, 1h, 4h, 1d"@,
        QueryError::InvalidFrom(m) => "Invalid 'from' timestamp: "@ + m@,
        QueryError::InvalidTo(m) => "Invalid 'to' timestamp: "@ + m@,
    }
}

impl QueryError {
    /// The message answered to the client.
    pub fn message(&self) -> (s: String)
        ensures
            s@ == query_error_text(*self),
    {
        let mut out: Vec<char> = Vec::new();
        match self {
            QueryError::InvalidTimeframe(t) => {
                push_str(&mut out, "Invalid timeframe '");
                push_str(&mut out, t.as_str());
                push_str(&mut out, "'. Valid values: 1m, 5m, 15m, 30m, 1h, 4h, 1d");
            },
            QueryError::InvalidFrom(m) => {
                push_str(&mut out, "Invalid 'from' timestamp: ");
                push_str(&mut out, m.as_str());
            },
            QueryError::InvalidTo(m) => {
                push_str(&mut out, "Invalid 'to' timestamp: ");
                push_str(&mut out, m.as_str());
            },
        }
        crate::text::string_from_chars(out.as_slice())
    }
}

/// A tick query with its bounds resolved (milliseconds since the epoch).
pub struct TickRange {
    pub from_ms: i64,
    pub to_ms: i64,
    pub limit: i64,
}

/// Whether a tick query resolves, given the time `now`.
pub open spec fn tick_query_ok(from: Option<Seq<char>>, to: Option<Seq<char>>, now: i64) -> bool {
    time_bound(from, (now - DAY_MS) as i64) is Ok && time_bound(to, now) is Ok
}

/// Resolve a tick query at time `now`: `from` defaults to a day before
/// `now`, `to` to `now`; `from` is checked first.
pub fn resolve_tick_query(params: &TickQueryParams, now: i64) -> (r: Result<TickRange, QueryError>)
    requires
        now >= i64::MIN + DAY_MS,
    ensures
        r is Ok <==> tick_query_ok(opt_text(params.from), opt_text(params.to), now),
        match r {
            Ok(q) => {
                &&& time_bound(opt_text(params.from), (now - DAY_MS) as i64) == Ok::<i64, Seq<char>>(q.from_ms)
                &&& time_bound(opt_text(params.to), now) == Ok::<i64, Seq<char>>(q.to_ms)
                &&& q.limit == params.limit
            },
            Err(QueryError::InvalidFrom(m)) => time_bound(opt_text(params.from), (now - DAY_MS) as i64)
                == Err::<i64, Seq<char>>(m@),
            Err(QueryError::InvalidTo(m)) => {
                &&& time_bound(opt_text(params.from), (now - DAY_MS) as i64) is Ok
                &&& time_bound(opt_text(params.to), now) == Err::<i64, Seq<char>>(m@)
            },
            Err(QueryError::InvalidTimeframe(_)) => false,
        },
{
    let from_ms = match resolve_time_bound(&params.from, now - DAY_MS) {
        Ok(ms) => ms,
        Err(e) => {
            return Err(QueryError::InvalidFrom(e));
        },
    };
    let to_ms = match resolve_time_bound(&params.to, now) {
        Ok(ms) => ms,
        Err(e) => {
            return Err(QueryError::InvalidTo(e));
        },
    };
    Ok(TickRange { from_ms, to_ms, limit: params.limit })
}

/// A candle query with its timeframe and bounds resolved.
pub struct OhlcRange {
    pub timeframe: Timeframe,
    pub from_ms: i64,
    pub to_ms: i64,
    pub limit: i64,
}

/// Whether a candle query resolves, given the time `now`.
pub open spec fn ohlc_query_ok(
    timeframe: Seq<char>,
    from: Option<Seq<char>>,
    to: Option<Seq<char>>,
    now: i64,
) -> bool {
    &&& timeframe_of_text(timeframe) is Some
    &&& time_bound(from, (now - WEEK_MS) as i64) is Ok
    &&& time_bound(to, now) is Ok
}

/// Resolve a candle query at time `now`: the timeframe is checked first,
/// then `from` (default a week before `now`), then `to` (default `now`).
pub fn resolve_ohlc_query(params: &OhlcQueryParams, now: i64) -> (r: Result<OhlcRange, QueryError>)
    requires
        now >= i64::MIN + WEEK_MS,
    ensures
        r is Ok <==> ohlc_query_ok(params.timeframe@, opt_text(params.from), opt_text(params.to), now),
        match r {
            Ok(q) => {
                &&& timeframe_of_text(params.timeframe@) == Some(q.timeframe)
                &&& time_bound(opt_text(params.from), (now - WEEK_MS) as i64) == Ok::<i64, Seq<char>>(q.from_ms)
                &&& time_bound(opt_text(params.to), now) == Ok::<i64, Seq<char>>(q.to_ms)
                &&& q.limit == params.limit
            },
            Err(QueryError::InvalidTimeframe(t)) => {
                &&& timeframe_of_text(params.timeframe@) is None
                &&& t@ == params.timeframe@
            },
            Err(QueryError::InvalidFrom(m)) => {
                &&& timeframe_of_text(params.timeframe@) is Some
                &&& time_bound(opt_text(params.from), (now - WEEK_MS) as i64) == Err::<i64, Seq<char>>(m@)
            },
            Err(QueryError::InvalidTo(m)) => {
                &&& timeframe_of_text(params.timeframe@) is Some
                &&& time_bound(opt_text(params.from), (now - WEEK_MS) as i64) is Ok
                &&& time_bound(opt_text(params.to), now) == Err::<i64, Seq<char>>(m@)
            },
        },
{
    let timeframe = match Timeframe::from_str(params.timeframe.as_str()) {
        Some(t) => t,
        None => {
            return Err(QueryError::InvalidTimeframe(params.timeframe.clone()));
        },
    };
    let from_ms = match resolve_time_bound(&params.from, now - WEEK_MS) {
        Ok(ms) => ms,
        Err(e) => {
            return Err(QueryError::InvalidFrom(e));
        },
    };
    let to_ms = match resolve_time_bound(&params.to, now) {
        Ok(ms) => ms,
        Err(e) => {
            return Err(QueryError::InvalidTo(e));
        },
    };
    Ok(OhlcRange { timeframe, from_ms, to_ms, limit: params.limit })
}

/// Resolve the timeframe of a latest-candle query.
pub fn resolve_latest_ohlc_query(params: &LatestOhlcQueryParams) -> (r: Result<
    Timeframe,
    QueryError,
>)
    ensures
        r is Ok <==> timeframe_of_text(params.timeframe@) is Some,
        match r {
            Ok(t) => timeframe_of_text(params.timeframe@) == Some(t),
            Err(QueryError::InvalidTimeframe(t)) => t@ == params.timeframe@,
            Err(_) => false,
        },
{
    match Timeframe::from_str(params.timeframe.as_str()) {
        Some(t) => Ok(t),
        None => Err(QueryError::InvalidTimeframe(params.timeframe.clone())),
    }
}

} // verus!
