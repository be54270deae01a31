//! Maker and taker fees, and the exchange's profit from them.
use vstd::prelude::*;

use crate::decimal::{dec_add, dec_mul, max_mantissa, pow10, Dec};
use crate::engine::types::Trade;

verus! {

/// Maker fee rate, 0.10 % (`0.001`).
pub open spec fn maker_fee_rate() -> Dec {
    Dec::spec_new(1, 3)
}

/// Taker fee rate, 0.20 % (`0.002`).
pub open spec fn taker_fee_rate() -> Dec {
    Dec::spec_new(2, 3)
}

/// Maker fee on a trade value (`None` on decimal overflow).
pub open spec fn maker_fee(trade_value: Dec) -> Option<Dec> {
    dec_mul(trade_value, maker_fee_rate())
}

/// Taker fee on a trade value (`None` on decimal overflow).
pub open spec fn taker_fee(trade_value: Dec) -> Option<Dec> {
    dec_mul(trade_value, taker_fee_rate())
}

/// Sum, from zero and oldest first, of every trade's maker plus taker fee
/// (`None` on decimal overflow).
pub open spec fn fees_sum(trades: Seq<Trade>) -> Option<Dec>
    decreases trades.len(),
{
    if trades.len() == 0 {
        Some(Dec::spec_zero())
    } else {
        match fees_sum(trades.drop_last()) {
            Some(acc) => match dec_add(trades.last().maker_fee, trades.last().taker_fee) {
                Some(f) => dec_add(acc, f),
                None => None,
            },
            None => None,
        }
    }
}

/// The maker fee rate as a decimal.
pub fn maker_fee_rate_value() -> (d: Dec)
    ensures
        d == maker_fee_rate(),
{
    Dec::new(1, 3)
}

/// The taker fee rate as a decimal.
pub fn taker_fee_rate_value() -> (d: Dec)
    ensures
        d == taker_fee_rate(),
{
    Dec::new(2, 3)
}

/// `10^(k+3) = 1000 * 10^k`, and scaling a mantissa by it.
proof fn lemma_pow10_plus3(m: int, k: nat)
    ensures
        pow10(k + 3) == 1000 * pow10(k),
        m * pow10(k) * 1000 == m * pow10(k + 3),
{
    assert(pow10(k + 1) == 10 * pow10(k));
    assert(pow10(k + 2) == 10 * pow10(k + 1));
    assert(pow10(k + 3) == 10 * pow10(k + 2));
    let p = pow10(k);
    assert(m * p * 1000 == m * (1000 * p)) by (nonlinear_arith);
}

/// A decimal with a zero mantissa is worth zero.
proof fn lemma_zero_value(d: Dec)
    requires
        d@.0 == 0,
    ensures
        d.value() == 0,
{
    let z = d@.0 as int;
    let p = pow10((28 - d@.1) as nat);
    assert(z * p == 0) by (nonlinear_arith)
        requires
            z == 0,
    ;
}

/// Maker fee for a trade value (`None` on decimal overflow): exactly 0.10 %
/// of it when its scale is at most 25.
pub fn calculate_maker_fee(trade_value: Dec) -> (f: Option<Dec>)
    ensures
        f == maker_fee(trade_value),
        trade_value@.1 <= 25 ==> (f matches Some(x) && x.value() * 1000 == trade_value.value()),
{
    trade_value.lemma_wf();
    let f = trade_value.mul(maker_fee_rate_value());
    proof {
        broadcast use crate::decimal::group_dec_parts;

        if trade_value@.1 <= 25 {
            let m = trade_value@.0 as int;
            let k = (25 - trade_value@.1) as nat;
            lemma_pow10_plus3(m, k);
            assert((28 - (trade_value@.1 + 3)) as nat == k);
            assert((28 - trade_value@.1) as nat == k + 3);
            assert(trade_value.value() == m * pow10(k + 3));
            if m != 0 {
                assert(m * 1 == m);
                let x = f.unwrap();
                assert(x@ == (m as i128, (trade_value@.1 + 3) as u32));
                assert(x.value() == m * pow10(k));
                assert(x.value() * 1000 == trade_value.value());
            } else {
                assert(trade_value.value() == 0);
                lemma_zero_value(f.unwrap());
            }
        }
    }
    f
}

/// Taker fee for a trade value (`None` on decimal overflow): exactly 0.20 %
/// of it when its scale is at most 25 and twice its mantissa fits.
pub fn calculate_taker_fee(trade_value: Dec) -> (f: Option<Dec>)
    ensures
        f == taker_fee(trade_value),
        trade_value@.1 <= 25 && -max_mantissa() <= 2 * trade_value@.0 <= max_mantissa() ==> (f matches Some(
            x,
        ) && x.value() * 500 == trade_value.value()),
{
    trade_value.lemma_wf();
    let f = trade_value.mul(taker_fee_rate_value());
    proof {
        broadcast use crate::decimal::group_dec_parts;

        if trade_value@.1 <= 25 && -max_mantissa() <= 2 * trade_value@.0 <= max_mantissa() {
            let m = trade_value@.0 as int;
            let k = (25 - trade_value@.1) as nat;
            lemma_pow10_plus3(m, k);
            assert((28 - (trade_value@.1 + 3)) as nat == k);
            assert((28 - trade_value@.1) as nat == k + 3);
            assert(trade_value.value() == m * pow10(k + 3));
            if m != 0 {
                assert(m * 2 == 2 * m);
                let x = f.unwrap();
                assert(x@ == ((2 * m) as i128, (trade_value@.1 + 3) as u32));
                assert(x.value() == (2 * m) * pow10(k));
                let p = pow10(k);
                assert((2 * m) * p * 500 == m * p * 1000) by (nonlinear_arith);
                assert(x.value() * 500 == trade_value.value());
            } else {
                lemma_zero_value(f.unwrap());
            }
        }
    }
    f
}

/// Total fees the exchange collected over these trades (`None` on decimal overflow).
pub fn calculate_exchange_profit(trades: &[Trade]) -> (p: Option<Dec>)
    ensures
        p == fees_sum(trades@),
{
    let mut acc = Dec::zero();
    let mut i: usize = 0;
    while i < trades.len()
        invariant
            i <= trades@.len(),
            fees_sum(trades@.take(i as int)) == Some(acc),
        decreases trades.len() - i,
    {
        assert(trades@.take(i + 1).drop_last() =~= trades@.take(i as int));
        match trades[i].total_fees() {
            Some(f) => match acc.add(f) {
                Some(a) => {
                    acc = a;
                },
                None => {
                    proof {
                        lemma_fees_sum_none_stays(trades@, (i + 1) as nat);
                    }
                    return None;
                },
            },
            None => {
                proof {
                    lemma_fees_sum_none_stays(trades@, (i + 1) as nat);
                }
                return None;
            },
        }
        i = i + 1;
    }
    assert(trades@.take(i as int) =~= trades@);
    Some(acc)
}

/// Once the running sum overflows, the whole sum does.
proof fn lemma_fees_sum_none_stays(trades: Seq<Trade>, n: nat)
    requires
        n <= trades.len(),
        fees_sum(trades.take(n as int)) is None,
    ensures
        fees_sum(trades) is None,
    decreases trades.len() - n,
{
    if n < trades.len() {
        assert(trades.take((n + 1) as int).drop_last() =~= trades.take(n as int));
        lemma_fees_sum_none_stays(trades, n + 1);
    } else {
        assert(trades.take(n as int) =~= trades);
    }
}

} // verus!
