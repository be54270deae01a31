//! OHLC (open-high-low-close) candles and their shape.
use vstd::prelude::*;

use crate::decimal::{dec_div, dec_mul, dec_sub, max_mantissa, pow10, Dec};
use crate::market::timeframe::Timeframe;

verus! {

broadcast use crate::decimal::group_dec_parts;

/// One candle of a symbol over a timeframe.  Times are milliseconds since
/// the Unix epoch.
#[derive(Debug, Clone)]
pub struct OhlcCandle {
    pub id: i64,
    pub symbol_id: i64,
    pub symbol_name: String,
    pub timeframe: Timeframe,
    pub open_time: i64,
    pub close_time: i64,
    pub open_price: Dec,
    pub high_price: Dec,
    pub low_price: Dec,
    pub close_price: Dec,
    pub volume: Dec,
    pub tick_count: i64,
    pub created_at: i64,
}

/// A candle to be stored.
#[derive(Debug, Clone)]
pub struct NewOhlcCandle {
    pub symbol_id: i64,
    pub symbol_name: String,
    pub timeframe: Timeframe,
    pub open_time: i64,
    pub close_time: i64,
    pub open_price: Dec,
    pub high_price: Dec,
    pub low_price: Dec,
    pub close_price: Dec,
    pub volume: Dec,
    pub tick_count: i64,
}

/// `|d|` of an optional decimal, keeping its scale.
pub open spec fn opt_abs(d: Option<Dec>) -> Option<(i128, u32)> {
    match d {
        Some(x) => Some((if x@.0 < 0 { (-x@.0) as i128 } else { x@.0 }, x@.1)),
        None => None,
    }
}

/// `|close - open| / open * 100` (`None` on decimal overflow or a zero open).
pub open spec fn change_percent(c: OhlcCandle) -> Option<Dec> {
    match dec_sub(c.close_price, c.open_price) {
        Some(d) => {
            let a = Dec::spec_new(
                if d@.0 < 0 {
                    (-d@.0) as i128
                } else {
                    d@.0
                },
                d@.1,
            );
            match dec_div(a, c.open_price) {
                Some(q) => dec_mul(q, Dec::spec_from_u64(100)),
                None => None,
            }
        },
        None => None,
    }
}

/// The larger of two decimals (`Ord::max`).
pub open spec fn max_dec(a: Dec, b: Dec) -> Dec {
    if b.value() < a.value() {
        a
    } else {
        b
    }
}

/// The smaller of two decimals (`Ord::min`).
pub open spec fn min_dec(a: Dec, b: Dec) -> Dec {
    if b.value() < a.value() {
        b
    } else {
        a
    }
}

/// The candle's four prices share one scale and are not negative.
pub open spec fn plain_prices(c: OhlcCandle) -> bool {
    let s = c.open_price@.1;
    &&& c.high_price@.1 == s
    &&& c.low_price@.1 == s
    &&& c.close_price@.1 == s
    &&& c.open_price@.0 >= 0
    &&& c.high_price@.0 >= 0
    &&& c.low_price@.0 >= 0
    &&& c.close_price@.0 >= 0
}

/// The larger and the smaller of the open and close mantissas.
pub open spec fn oc_max(c: OhlcCandle) -> int {
    if c.close_price@.0 < c.open_price@.0 {
        c.open_price@.0 as int
    } else {
        c.close_price@.0 as int
    }
}

pub open spec fn oc_min(c: OhlcCandle) -> int {
    if c.close_price@.0 < c.open_price@.0 {
        c.close_price@.0 as int
    } else {
        c.open_price@.0 as int
    }
}

/// At one scale, decimals compare as their mantissas.
proof fn lemma_same_scale_order(a: Dec, b: Dec)
    requires
        a@.1 == b@.1,
        a@.1 <= 28,
    ensures
        (a.value() < b.value()) == (a@.0 < b@.0),
{
    let p = pow10((28 - a@.1) as nat);
    lemma_pow10_pos((28 - a@.1) as nat);
    let x = a@.0 as int;
    let y = b@.0 as int;
    assert((x * p < y * p) == (x < y)) by (nonlinear_arith)
        requires
            p > 0,
    ;
}

proof fn lemma_pow10_pos(n: nat)
    ensures
        pow10(n) > 0,
    decreases n,
{
    if n > 0 {
        lemma_pow10_pos((n - 1) as nat);
    }
}

/// A candle's range splits into its upper shadow, its body and its lower
/// shadow: with plain prices (one scale, none negative), the range
/// `high - low`, the upper shadow `high - max(open, close)`, the body
/// `|close - open|` and the lower shadow `min(open, close) - low` are
/// exact at that scale (see `range`, `upper_shadow`, `body_size` and
/// `lower_shadow`), and their mantissas add up.
pub proof fn law_range_is_shadows_and_body(c: OhlcCandle)
    requires
        plain_prices(c),
    ensures
        c.high_price@.0 - c.low_price@.0 == (c.high_price@.0 - oc_max(c)) + (oc_max(c) - oc_min(c)) + (
        oc_min(c) - c.low_price@.0),
        oc_max(c) - oc_min(c) == (if c.close_price@.0 < c.open_price@.0 {
            c.open_price@.0 - c.close_price@.0
        } else {
            c.close_price@.0 - c.open_price@.0
        }),
{
}

impl OhlcCandle {
    /// Body size `|close - open|` (`None` on decimal overflow); exact with
    /// plain prices.
    pub fn body_size(&self) -> (r: Option<Dec>)
        ensures
            match r {
                Some(d) => Some(d@) == opt_abs(dec_sub(self.close_price, self.open_price)),
                None => dec_sub(self.close_price, self.open_price) is None,
            },
            plain_prices(*self) ==> r == Some(Dec::spec_new((oc_max(*self) - oc_min(*self)) as i128, self.open_price@.1)),
    {
        self.open_price.lemma_wf();
        self.close_price.lemma_wf();
        match self.close_price.sub(self.open_price) {
            Some(d) => Some(d.abs()),
            None => None,
        }
    }

    /// Range `high - low` (`None` on decimal overflow); exact with plain
    /// prices.
    pub fn range(&self) -> (r: Option<Dec>)
        ensures
            r == dec_sub(self.high_price, self.low_price),
            plain_prices(*self) ==> r == Some(
                Dec::spec_new((self.high_price@.0 - self.low_price@.0) as i128, self.open_price@.1),
            ),
    {
        self.high_price.lemma_wf();
        self.low_price.lemma_wf();
        self.high_price.sub(self.low_price)
    }

    /// The candle closed above its open.
    pub fn is_bullish(&self) -> (b: bool)
        ensures
            b == (self.close_price.value() > self.open_price.value()),
    {
        self.open_price.lt(&self.close_price)
    }

    /// The candle closed below its open.
    pub fn is_bearish(&self) -> (b: bool)
        ensures
            b == (self.close_price.value() < self.open_price.value()),
    {
        self.close_price.lt(&self.open_price)
    }

    /// Open and close differ by less than 0.01 % of the open (never for a
    /// zero open); `None` on decimal overflow.
    pub fn is_doji(&self) -> (r: Option<bool>)
        ensures
            self.open_price@.0 == 0 ==> r == Some(false),
            self.open_price@.0 != 0 ==> r == (match change_percent(*self) {
                Some(p) => Some(p.value() < Dec::spec_new(1, 2).value()),
                None => None,
            }),
    {
        if self.open_price.is_zero() {
            return Some(false);
        }
        let diff = match self.close_price.sub(self.open_price) {
            Some(d) => d.abs(),
            None => {
                return None;
            },
        };
        let pct = match diff.div(self.open_price) {
            Some(q) => q.mul(Dec::from_u64(100)),
            None => None,
        };
        match pct {
            Some(p) => Some(p.lt(&Dec::new(1, 2))),
            None => None,
        }
    }

    /// Upper shadow `high - max(open, close)` (`None` on decimal
    /// overflow); exact with plain prices.
    pub fn upper_shadow(&self) -> (r: Option<Dec>)
        ensures
            r == dec_sub(self.high_price, max_dec(self.open_price, self.close_price)),
            plain_prices(*self) ==> r == Some(
                Dec::spec_new((self.high_price@.0 - oc_max(*self)) as i128, self.open_price@.1),
            ),
    {
        self.high_price.lemma_wf();
        self.open_price.lemma_wf();
        self.close_price.lemma_wf();
        proof {
            if plain_prices(*self) {
                lemma_same_scale_order(self.close_price, self.open_price);
            }
        }
        self.high_price.sub(self.open_price.max(self.close_price))
    }

    /// Lower shadow `min(open, close) - low` (`None` on decimal
    /// overflow); exact with plain prices.
    pub fn lower_shadow(&self) -> (r: Option<Dec>)
        ensures
            r == dec_sub(min_dec(self.open_price, self.close_price), self.low_price),
            plain_prices(*self) ==> r == Some(
                Dec::spec_new((oc_min(*self) - self.low_price@.0) as i128, self.open_price@.1),
            ),
    {
        self.low_price.lemma_wf();
        self.open_price.lemma_wf();
        self.close_price.lemma_wf();
        proof {
            if plain_prices(*self) {
                lemma_same_scale_order(self.close_price, self.open_price);
            }
        }
        self.open_price.min(self.close_price).sub(self.low_price)
    }
}

} // verus!
