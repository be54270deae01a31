//! Candle timeframes and their text form.
use vstd::prelude::*;

use crate::text::{chars_of, text_is};

verus! {

/// Time interval over which ticks are aggregated into OHLC candles.
#[derive(Debug, Clone, Copy, PartialEq, Eq, Hash, Structural)]
pub enum Timeframe {
    OneMinute,
    FiveMinutes,
    FifteenMinutes,
    ThirtyMinutes,
    OneHour,
    FourHours,
    OneDay,
}

/// Text form of a timeframe.
pub open spec fn timeframe_text(t: Timeframe) -> Seq<char> {
    match t {
        Timeframe::OneMinute => "1m"@,
        Timeframe::FiveMinutes => "5m"@,
        Timeframe::FifteenMinutes => "15m"@,
        Timeframe::ThirtyMinutes => "30m"@,
        Timeframe::OneHour => "1h"@,
        Timeframe::FourHours => "4h"@,
        Timeframe::OneDay => "1d"@,
    }
}

/// The timeframe written as this text, if any.
pub open spec fn timeframe_of_text(s: Seq<char>) -> Option<Timeframe> {
    if s == "1m"@ {
        Some(Timeframe::OneMinute)
    } else if s == "5m"@ {
        Some(Timeframe::FiveMinutes)
    } else if s == "15m"@ {
        Some(Timeframe::FifteenMinutes)
    } else if s == "30m"@ {
        Some(Timeframe::ThirtyMinutes)
    } else if s == "1h"@ {
        Some(Timeframe::OneHour)
    } else if s == "4h"@ {
        Some(Timeframe::FourHours)
    } else if s == "1d"@ {
        Some(Timeframe::OneDay)
    } else {
        None
    }
}

/// Length of a timeframe in seconds.
pub open spec fn timeframe_seconds(t: Timeframe) -> i64 {
    match t {
        Timeframe::OneMinute => 60,
        Timeframe::FiveMinutes => 300,
        Timeframe::FifteenMinutes => 900,
        Timeframe::ThirtyMinutes => 1800,
        Timeframe::OneHour => 3600,
        Timeframe::FourHours => 14400,
        Timeframe::OneDay => 86400,
    }
}

/// Every timeframe, shortest first.
pub open spec fn all_timeframes() -> Seq<Timeframe> {
    seq![
        Timeframe::OneMinute,
        Timeframe::FiveMinutes,
        Timeframe::FifteenMinutes,
        Timeframe::ThirtyMinutes,
        Timeframe::OneHour,
        Timeframe::FourHours,
        Timeframe::OneDay,
    ]
}

/// Name of the continuous-aggregate view holding candles of a timeframe.
pub open spec fn view_name_text(t: Timeframe) -> Seq<char> {
    match t {
        Timeframe::OneMinute => "ohlc_1m"@,
        Timeframe::FiveMinutes => "ohlc_5m"@,
        Timeframe::FifteenMinutes => "ohlc_15m"@,
        Timeframe::ThirtyMinutes => "ohlc_30m"@,
        Timeframe::OneHour => "ohlc_1h"@,
        Timeframe::FourHours => "ohlc_4h"@,
        Timeframe::OneDay => "ohlc_1d"@,
    }
}

impl Timeframe {
    /// Text stored in the database (`"1m"`, `"5m"`, …, `"1d"`).
    pub fn as_str(&self) -> (s: &'static str)
        ensures
            s@ == timeframe_text(*self),
    {
        match self {
            Timeframe::OneMinute => "1m",
            Timeframe::FiveMinutes => "5m",
            Timeframe::FifteenMinutes => "15m",
            Timeframe::ThirtyMinutes => "30m",
            Timeframe::OneHour => "1h",
            Timeframe::FourHours => "4h",
            Timeframe::OneDay => "1d",
        }
    }

    /// The timeframe for its text form; `None` for any other text.
    pub fn from_str(s: &str) -> (r: Option<Self>)
        ensures
            r == timeframe_of_text(s@),
    {
        let cs = chars_of(s);
        if text_is(&cs, "1m") {
            Some(Timeframe::OneMinute)
        } else if text_is(&cs, "5m") {
            Some(Timeframe::FiveMinutes)
        } else if text_is(&cs, "15m") {
            Some(Timeframe::FifteenMinutes)
        } else if text_is(&cs, "30m") {
            Some(Timeframe::ThirtyMinutes)
        } else if text_is(&cs, "1h") {
            Some(Timeframe::OneHour)
        } else if text_is(&cs, "4h") {
            Some(Timeframe::FourHours)
        } else if text_is(&cs, "1d") {
            Some(Timeframe::OneDay)
        } else {
            None
        }
    }

    /// All timeframes, shortest first.
    pub fn all() -> (v: Vec<Self>)
        ensures
            v@ == all_timeframes(),
    {
        let v = vec![
            Timeframe::OneMinute,
            Timeframe::FiveMinutes,
            Timeframe::FifteenMinutes,
            Timeframe::ThirtyMinutes,
            Timeframe::OneHour,
            Timeframe::FourHours,
            Timeframe::OneDay,
        ];
        assert(v@ =~= all_timeframes());
        v
    }

    /// Length in seconds.
    pub fn duration_seconds(&self) -> (d: i64)
        ensures
            d == timeframe_seconds(*self),
    {
        match self {
            Timeframe::OneMinute => 60,
            Timeframe::FiveMinutes => 300,
            Timeframe::FifteenMinutes => 900,
            Timeframe::ThirtyMinutes => 1800,
            Timeframe::OneHour => 3600,
            Timeframe::FourHours => 14400,
            Timeframe::OneDay => 86400,
        }
    }

    /// Name of the materialized view that holds candles of this timeframe.
    pub fn view_name(&self) -> (s: &'static str)
        ensures
            s@ == view_name_text(*self),
    {
        match self {
            Timeframe::OneMinute => "ohlc_1m",
            Timeframe::FiveMinutes => "ohlc_5m",
            Timeframe::FifteenMinutes => "ohlc_15m",
            Timeframe::ThirtyMinutes => "ohlc_30m",
            Timeframe::OneHour => "ohlc_1h",
            Timeframe::FourHours => "ohlc_4h",
            Timeframe::OneDay => "ohlc_1d",
        }
    }
}

/// Reading back the text form of a timeframe gives the same timeframe.
pub proof fn law_timeframe_text_round_trip(t: Timeframe)
    ensures
        timeframe_of_text(timeframe_text(t)) == Some(t),
{
    reveal_strlit("1m");
    reveal_strlit("5m");
    reveal_strlit("15m");
    reveal_strlit("30m");
    reveal_strlit("1h");
    reveal_strlit("4h");
    reveal_strlit("1d");
    assert(timeframe_text(t).len() >= 2);
    assert("1m"@[1] == 'm' && "5m"@[1] == 'm' && "1h"@[1] == 'h' && "4h"@[1] == 'h' && "1d"@[1]
        == 'd');
    assert("15m"@.len() == 3 && "30m"@.len() == 3);
    assert("1m"@[0] == '1' && "5m"@[0] == '5' && "1h"@[0] == '1' && "4h"@[0] == '4');
    assert("15m"@[0] == '1' && "30m"@[0] == '3');
}

/// Durations grow strictly along `all()`, and each is a whole number of minutes.
pub proof fn law_timeframe_durations_ordered(i: int, j: int)
    requires
        0 <= i < j < 7,
    ensures
        timeframe_seconds(all_timeframes()[i]) < timeframe_seconds(all_timeframes()[j]),
        timeframe_seconds(all_timeframes()[i]) % 60 == 0,
{
}

} // verus!
