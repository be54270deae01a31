//! VWAP: a parent order executed along a historical intraday volume profile.
//!
//! Times of day are milliseconds since midnight UTC; instants are
//! milliseconds since the Unix epoch.
use vstd::prelude::*;

use crate::algorithms::twap::{child_order, is_child_order, AlgorithmStatus};
use crate::decimal::{dec_add, dec_div, dec_mul, dec_sub, Dec};
use crate::engine::matching::min_dec;
use crate::engine::types::{Order, OrderSide};

verus! {

broadcast use crate::decimal::group_dec_parts;

/// Milliseconds since midnight of an instant (UTC).
pub open spec fn time_of_day(t: i64) -> u32 {
    ((t as int) % 86400000) as u32
}

/// `h:m` as milliseconds since midnight.
pub open spec fn minute_ms(h: int, m: int) -> int {
    (h * 60 + m) * 60000
}

/// Length of a bucket, in milliseconds (five minutes).
pub open spec fn bucket_ms() -> int {
    300000
}

/// Bucket `i` of the typical U-shaped US equity profile: heavy at the open
/// (9:30-9:55), 2.5 % per five minutes until noon, 2 % over midday, 2.5 %
/// from 14:00 to 15:30, and heavy again into the close (15:30-15:55).
pub open spec fn profile_entry(i: int) -> (u32, Dec) {
    if i < 6 {
        (
            minute_ms(9, 30 + 5 * i) as u32,
            if i == 0 {
                Dec::spec_new(8, 2)
            } else if i == 1 {
                Dec::spec_new(6, 2)
            } else if i == 2 {
                Dec::spec_new(5, 2)
            } else if i == 5 {
                Dec::spec_new(3, 2)
            } else {
                Dec::spec_new(4, 2)
            },
        )
    } else if i < 30 {
        (minute_ms(10 + (i - 6) / 12, ((i - 6) % 12) * 5) as u32, Dec::spec_new(25, 3))
    } else if i < 54 {
        (minute_ms(12 + (i - 30) / 12, ((i - 30) % 12) * 5) as u32, Dec::spec_new(2, 2))
    } else if i < 72 {
        (minute_ms(14 + (i - 54) / 12, ((i - 54) % 12) * 5) as u32, Dec::spec_new(25, 3))
    } else {
        (minute_ms(15, 30 + 5 * (i - 72)) as u32, Dec::spec_new((5 + (i - 72)) as i128, 2))
    }
}

/// The 78 buckets of the US equity profile, in time order.
pub open spec fn us_equity_profile() -> Seq<(u32, Dec)> {
    Seq::new(78, |i: int| profile_entry(i))
}

/// The share of the last of the first `n` buckets starting at or before `time`.
pub open spec fn share_at(buckets: Seq<(u32, Dec)>, time: u32, n: nat) -> Option<Dec>
    decreases n,
{
    if n == 0 {
        None
    } else if buckets[n - 1].0 <= time {
        Some(buckets[n - 1].1)
    } else {
        share_at(buckets, time, (n - 1) as nat)
    }
}

/// Expected share of the daily volume at `time`: that of the latest bucket
/// starting at or before it, 2 % before the first bucket.
pub open spec fn volume_share(buckets: Seq<(u32, Dec)>, time: u32) -> Dec {
    match share_at(buckets, time, buckets.len()) {
        Some(v) => v,
        None => Dec::spec_new(2, 2),
    }
}

/// A bucket starting at time of day `t` lies in the window from `start` to
/// `end`; a window whose end comes before its start runs past midnight.
pub open spec fn in_window(start: u32, end: u32, t: u32) -> bool {
    if start <= end {
        start <= t <= end
    } else {
        start <= t || t <= end
    }
}

/// Sum, from zero, of the shares of the first `n` buckets starting in the
/// window from `start` to `end` (`None` on decimal overflow).
pub open spec fn shares_between(buckets: Seq<(u32, Dec)>, start: u32, end: u32, n: nat) -> Option<Dec>
    decreases n,
{
    if n == 0 {
        Some(Dec::spec_zero())
    } else {
        match shares_between(buckets, start, end, (n - 1) as nat) {
            Some(acc) => if in_window(start, end, buckets[n - 1].0) {
                dec_add(acc, buckets[n - 1].1)
            } else {
                Some(acc)
            },
            None => None,
        }
    }
}

/// The target curve from `current` on: at each bucket start before `end`,
/// the cumulative normalised share so far (capped at 1) times the total
/// quantity (`None` on decimal overflow).
pub open spec fn curve_from(
    buckets: Seq<(u32, Dec)>,
    current: int,
    end: int,
    total_qty: Dec,
    total_share: Dec,
    cumulative: Dec,
) -> Option<Seq<(i64, Dec)>>
    decreases if end > current {
        end - current
    } else {
        0
    },
{
    if current >= end {
        Some(Seq::empty())
    } else {
        let vol = volume_share(buckets, time_of_day(current as i64));
        match dec_div(vol, total_share) {
            None => None,
            Some(nv) => match dec_add(cumulative, nv) {
                None => None,
                Some(c2) => match dec_mul(total_qty, min_dec(c2, Dec::spec_new(1, 0))) {
                    None => None,
                    Some(tq) => match curve_from(
                        buckets,
                        current + 300000,
                        end,
                        total_qty,
                        total_share,
                        c2,
                    ) {
                        None => None,
                        Some(rest) => Some(seq![(current as i64, tq)] + rest),
                    },
                },
            },
        }
    }
}

/// The target curve of a VWAP over `[start, end)`: empty when the window's
/// buckets carry no volume (`None` on decimal overflow).
pub open spec fn vwap_curve(buckets: Seq<(u32, Dec)>, start: i64, end: i64, total_qty: Dec) -> Option<
    Seq<(i64, Dec)>,
> {
    match shares_between(buckets, time_of_day(start), time_of_day(end), buckets.len()) {
        None => None,
        Some(total_share) => if total_share@.0 == 0 {
            Some(Seq::empty())
        } else {
            curve_from(buckets, start as int, end as int, total_qty, total_share, Dec::spec_zero())
        },
    }
}

/// The running total, from `c`, of the shares of the `k` five-minute
/// buckets starting at `current`, `current + 5 min`, ..., each divided by
/// `total_share` (`None` on decimal overflow).
pub open spec fn normalized_total(
    buckets: Seq<(u32, Dec)>,
    current: int,
    total_share: Dec,
    c: Dec,
    k: nat,
) -> Option<Dec>
    decreases k,
{
    if k == 0 {
        Some(c)
    } else {
        match normalized_total(buckets, current, total_share, c, (k - 1) as nat) {
            None => None,
            Some(acc) => match dec_div(
                volume_share(buckets, time_of_day((current + (k - 1) * 300000) as i64)),
                total_share,
            ) {
                None => None,
                Some(x) => dec_add(acc, x),
            },
        }
    }
}

proof fn lemma_normalized_total_shift(
    buckets: Seq<(u32, Dec)>,
    current: int,
    total_share: Dec,
    c: Dec,
    c2: Dec,
    k: nat,
)
    requires
        normalized_total(buckets, current, total_share, c, 1) == Some(c2),
    ensures
        normalized_total(buckets, current, total_share, c, k + 1) == normalized_total(
            buckets,
            current + 300000,
            total_share,
            c2,
            k,
        ),
    decreases k,
{
    if k > 0 {
        lemma_normalized_total_shift(buckets, current, total_share, c, c2, (k - 1) as nat);
        assert(current + k * 300000 == current + 300000 + (k - 1) * 300000);
    }
}

proof fn lemma_curve_from_points(
    buckets: Seq<(u32, Dec)>,
    current: int,
    end: int,
    total_qty: Dec,
    total_share: Dec,
    c: Dec,
)
    requires
        curve_from(buckets, current, end, total_qty, total_share, c) is Some,
        i64::MIN <= current,
        end <= i64::MAX,
    ensures
        ({
            let rest = curve_from(buckets, current, end, total_qty, total_share, c)->Some_0;
            &&& current + rest.len() * 300000 >= end
            &&& forall|k: int|
                #![trigger rest[k]]
                0 <= k < rest.len() ==> {
                    &&& rest[k].0 == current + k * 300000
                    &&& current + k * 300000 < end
                    &&& normalized_total(buckets, current, total_share, c, (k + 1) as nat) matches Some(
                        ck,
                    ) && Some(rest[k].1) == dec_mul(total_qty, min_dec(ck, Dec::spec_new(1, 0)))
                }
        }),
    decreases if end > current {
        end - current
    } else {
        0
    },
{
    if current < end {
        let vol = volume_share(buckets, time_of_day(current as i64));
        let nv = dec_div(vol, total_share)->Some_0;
        let c2 = dec_add(c, nv)->Some_0;
        let tq = dec_mul(total_qty, min_dec(c2, Dec::spec_new(1, 0)))->Some_0;
        let tail = curve_from(buckets, current + 300000, end, total_qty, total_share, c2)->Some_0;
        let rest = curve_from(buckets, current, end, total_qty, total_share, c)->Some_0;
        assert(rest == seq![(current as i64, tq)] + tail);
        lemma_curve_from_points(buckets, current + 300000, end, total_qty, total_share, c2);
        assert(normalized_total(buckets, current, total_share, c, 1) == Some(c2)) by {
            reveal_with_fuel(normalized_total, 2);
            assert(current + (1 - 1) * 300000 == current);
        }
        assert forall|k: int| 0 <= k < rest.len() implies {
            &&& (#[trigger] rest[k]).0 == current + k * 300000
            &&& current + k * 300000 < end
            &&& normalized_total(buckets, current, total_share, c, (k + 1) as nat) matches Some(ck)
                && Some(rest[k].1) == dec_mul(total_qty, min_dec(ck, Dec::spec_new(1, 0)))
        } by {
            if k > 0 {
                assert(rest[k] == tail[k - 1]);
                lemma_normalized_total_shift(buckets, current, total_share, c, c2, k as nat);
                assert(current + 300000 + (k - 1) * 300000 == current + k * 300000);
            }
        }
    }
}

/// The target curve is the total quantity times the normalised cumulative
/// share: the curve has a point every five minutes from the start until the
/// end, and each point's target is the total quantity times the sum of the
/// shares of the buckets up to and including that point, each divided by the
/// total share of the buckets in the window, capped at one. A window whose
/// buckets carry no volume gives an empty curve.
pub proof fn law_vwap_curve_normalized(
    buckets: Seq<(u32, Dec)>,
    start: i64,
    end: i64,
    total_qty: Dec,
    curve: Seq<(i64, Dec)>,
)
    requires
        vwap_curve(buckets, start, end, total_qty) == Some(curve),
    ensures
        shares_between(buckets, time_of_day(start), time_of_day(end), buckets.len()) matches Some(
            total_share,
        ) && {
            &&& total_share@.0 == 0 ==> curve.len() == 0
            &&& total_share@.0 != 0 ==> start + curve.len() * 300000 >= end
            &&& forall|k: int|
                #![trigger curve[k]]
                0 <= k < curve.len() ==> {
                    &&& curve[k].0 == start + k * 300000
                    &&& curve[k].0 < end
                    &&& normalized_total(
                        buckets,
                        start as int,
                        total_share,
                        Dec::spec_zero(),
                        (k + 1) as nat,
                    ) matches Some(share) && Some(curve[k].1) == dec_mul(
                        total_qty,
                        min_dec(share, Dec::spec_new(1, 0)),
                    )
                }
        },
{
    let total_share = shares_between(
        buckets,
        time_of_day(start),
        time_of_day(end),
        buckets.len(),
    )->Some_0;
    if total_share@.0 != 0 {
        lemma_curve_from_points(
            buckets,
            start as int,
            end as int,
            total_qty,
            total_share,
            Dec::spec_zero(),
        );
    }
}

/// The target of the last of the first `n` curve points at or before `time`.
pub open spec fn target_in(curve: Seq<(i64, Dec)>, time: i64, n: nat) -> Dec
    decreases n,
{
    if n == 0 {
        Dec::spec_zero()
    } else if curve[n - 1].0 <= time {
        curve[n - 1].1
    } else {
        target_in(curve, time, (n - 1) as nat)
    }
}

/// Milliseconds since midnight of an instant.
pub fn time_of_day_of(t: i64) -> (r: u32)
    ensures
        r == time_of_day(t),
{
    let shifted: i128 = t as i128 + 9223372036915200000i128;
    let r = shifted % 86400000i128;
    assert(r == (t as int) % 86400000) by (nonlinear_arith)
        requires
            shifted == t + 106751991168int * 86400000,
            shifted >= 0,
            r == shifted % 86400000,
    ;
    r as u32
}

/// Historical share of the daily volume by five-minute bucket.
#[derive(Debug, Clone)]
pub struct VolumeProfile {
    /// Bucket start (time of day) and its share of the daily volume, in time order.
    buckets: Vec<(u32, Dec)>,
    bucket_duration_minutes: i64,
}

/// Bucket `i` of the US equity profile.
fn profile_entry_at(i: usize) -> (e: (u32, Dec))
    requires
        i < 78,
    ensures
        e == profile_entry(i as int),
{
    if i < 6 {
        let share = if i == 0 {
            Dec::new(8, 2)
        } else if i == 1 {
            Dec::new(6, 2)
        } else if i == 2 {
            Dec::new(5, 2)
        } else if i == 5 {
            Dec::new(3, 2)
        } else {
            Dec::new(4, 2)
        };
        (((9 * 60 + 30 + 5 * i) * 60000) as u32, share)
    } else if i < 30 {
        (((((10 + (i - 6) / 12) * 60) + ((i - 6) % 12) * 5) * 60000) as u32, Dec::new(25, 3))
    } else if i < 54 {
        (((((12 + (i - 30) / 12) * 60) + ((i - 30) % 12) * 5) * 60000) as u32, Dec::new(2, 2))
    } else if i < 72 {
        (((((14 + (i - 54) / 12) * 60) + ((i - 54) % 12) * 5) * 60000) as u32, Dec::new(25, 3))
    } else {
        (((15 * 60 + 30 + 5 * (i - 72)) * 60000) as u32, Dec::new(5 + (i - 72) as i128, 2))
    }
}

impl VolumeProfile {
    pub closed spec fn buckets(&self) -> Seq<(u32, Dec)> {
        self.buckets@
    }

    pub closed spec fn duration_minutes(&self) -> i64 {
        self.bucket_duration_minutes
    }

    /// The typical U-shaped US equity profile, in five-minute buckets.
    pub fn us_equity_default() -> (p: VolumeProfile)
        ensures
            p.buckets() == us_equity_profile(),
            p.duration_minutes() == 5,
    {
        let mut buckets: Vec<(u32, Dec)> = Vec::new();
        let mut i: usize = 0;
        while i < 78
            invariant
                i <= 78,
                buckets@ == Seq::new(i as nat, |k: int| profile_entry(k)),
            decreases 78 - i,
        {
            buckets.push(profile_entry_at(i));
            i = i + 1;
            assert(buckets@ =~= Seq::new(i as nat, |k: int| profile_entry(k)));
        }
        VolumeProfile { buckets, bucket_duration_minutes: 5 }
    }

    /// A copy with the same buckets and bucket duration.
    pub fn duplicate(&self) -> (p: VolumeProfile)
        ensures
            p.buckets() == self.buckets(),
            p.duration_minutes() == self.duration_minutes(),
    {
        let mut buckets: Vec<(u32, Dec)> = Vec::new();
        let mut i: usize = 0;
        while i < self.buckets.len()
            invariant
                i <= self.buckets@.len(),
                buckets@ == self.buckets@.take(i as int),
            decreases self.buckets.len() - i,
        {
            buckets.push(self.buckets[i]);
            i = i + 1;
            assert(buckets@ =~= self.buckets@.take(i as int));
        }
        assert(self.buckets@.take(i as int) =~= self.buckets@);
        VolumeProfile { buckets, bucket_duration_minutes: self.bucket_duration_minutes }
    }

    /// Number of buckets.
    pub fn len(&self) -> (n: usize)
        ensures
            n == self.buckets().len(),
    {
        self.buckets.len()
    }

    /// Expected share of the daily volume at a time of day.
    pub fn volume_at(&self, time: u32) -> (v: Dec)
        ensures
            v == volume_share(self.buckets(), time),
    {
        let mut n = self.buckets.len();
        while n > 0
            invariant
                n <= self.buckets@.len(),
                share_at(self.buckets@, time, self.buckets@.len()) == share_at(
                    self.buckets@,
                    time,
                    n as nat,
                ),
            decreases n,
        {
            if self.buckets[n - 1].0 <= time {
                return self.buckets[n - 1].1;
            }
            n = n - 1;
        }
        Dec::new(2, 2)
    }

    /// Total share of the buckets starting in the window from `start` to
    /// `end`, which runs past midnight when `end` comes before `start`
    /// (`None` on decimal overflow).
    pub fn cumulative_volume(&self, start: u32, end: u32) -> (v: Option<Dec>)
        ensures
            v == shares_between(self.buckets(), start, end, self.buckets().len()),
    {
        let mut acc = Dec::zero();
        let mut i: usize = 0;
        while i < self.buckets.len()
            invariant
                i <= self.buckets@.len(),
                shares_between(self.buckets@, start, end, i as nat) == Some(acc),
            decreases self.buckets.len() - i,
        {
            let (t, v) = self.buckets[i];
            let inside = if start <= end {
                start <= t && t <= end
            } else {
                start <= t || t <= end
            };
            if inside {
                match acc.add(v) {
                    Some(a) => {
                        acc = a;
                    },
                    None => {
                        proof {
                            lemma_shares_none(self.buckets@, start, end, (i + 1) as nat, self.buckets@.len());
                        }
                        return None;
                    },
                }
            }
            i = i + 1;
        }
        Some(acc)
    }
}

proof fn lemma_shares_none(buckets: Seq<(u32, Dec)>, start: u32, end: u32, m: nat, n: nat)
    requires
        m <= n,
        shares_between(buckets, start, end, m) is None,
    ensures
        shares_between(buckets, start, end, n) is None,
    decreases n - m,
{
    if m < n {
        lemma_shares_none(buckets, start, end, m, (n - 1) as nat);
    }
}

/// VWAP execution algorithm.
#[derive(Debug, Clone)]
pub struct VwapAlgorithm {
    pub id: u128,
    pub symbol: String,
    pub side: OrderSide,
    pub user_id: String,
    pub total_quantity: Dec,
    pub executed_quantity: Dec,
    pub start_time: i64,
    pub end_time: i64,
    pub volume_profile: VolumeProfile,
    /// Cumulative target quantity at each bucket start.
    pub target_curve: Vec<(i64, Dec)>,
    pub status: AlgorithmStatus,
    /// Volume-weighted average price achieved so far.
    pub achieved_vwap: Dec,
    pub total_notional: Dec,
}

/// The VWAP after a fill of `quantity` at `price`: executed quantity and
/// notional grow, the achieved VWAP is notional over executed quantity
/// (while that is positive), and the algorithm completes once everything is
/// executed (`None` on decimal overflow).
pub open spec fn after_fill(a: VwapAlgorithm, quantity: Dec, price: Dec) -> Option<VwapAlgorithm> {
    match (dec_add(a.executed_quantity, quantity), dec_mul(quantity, price)) {
        (Some(e), Some(v)) => match dec_add(a.total_notional, v) {
            Some(n) => {
                let vwap = if e.value() > 0 {
                    dec_div(n, e)
                } else {
                    Some(a.achieved_vwap)
                };
                match vwap {
                    Some(w) => Some(
                        VwapAlgorithm {
                            executed_quantity: e,
                            total_notional: n,
                            achieved_vwap: w,
                            status: if e.value() >= a.total_quantity.value() {
                                AlgorithmStatus::Completed
                            } else {
                                a.status
                            },
                            ..a
                        },
                    ),
                    None => None,
                }
            },
            None => None,
        },
        _ => None,
    }
}

impl VwapAlgorithm {
    pub open spec fn profile(&self) -> Seq<(u32, Dec)> {
        self.volume_profile.buckets()
    }

    pub open spec fn curve(&self) -> Seq<(i64, Dec)> {
        self.target_curve@
    }

    pub open spec fn notional(&self) -> Dec {
        self.total_notional
    }

    /// The same algorithm: equal fields, the profile and curve compared by
    /// content.
    pub open spec fn same_as(&self, other: VwapAlgorithm) -> bool {
        &&& self.id == other.id
        &&& self.symbol == other.symbol
        &&& self.side == other.side
        &&& self.user_id == other.user_id
        &&& self.total_quantity == other.total_quantity
        &&& self.executed_quantity == other.executed_quantity
        &&& self.start_time == other.start_time
        &&& self.end_time == other.end_time
        &&& self.profile() == other.profile()
        &&& self.volume_profile.duration_minutes() == other.volume_profile.duration_minutes()
        &&& self.curve() == other.curve()
        &&& self.status == other.status
        &&& self.achieved_vwap == other.achieved_vwap
        &&& self.total_notional == other.total_notional
    }

    /// A copy of the algorithm.
    pub fn duplicate(&self) -> (r: VwapAlgorithm)
        ensures
            r.same_as(*self),
    {
        let mut curve: Vec<(i64, Dec)> = Vec::new();
        let mut i: usize = 0;
        while i < self.target_curve.len()
            invariant
                i <= self.target_curve@.len(),
                curve@ == self.target_curve@.take(i as int),
            decreases self.target_curve.len() - i,
        {
            curve.push(self.target_curve[i]);
            i = i + 1;
            assert(curve@ =~= self.target_curve@.take(i as int));
        }
        assert(self.target_curve@.take(i as int) =~= self.target_curve@);
        VwapAlgorithm {
            id: self.id,
            symbol: self.symbol.clone(),
            side: self.side,
            user_id: self.user_id.clone(),
            total_quantity: self.total_quantity,
            executed_quantity: self.executed_quantity,
            start_time: self.start_time,
            end_time: self.end_time,
            volume_profile: self.volume_profile.duplicate(),
            target_curve: curve,
            status: self.status,
            achieved_vwap: self.achieved_vwap,
            total_notional: self.total_notional,
        }
    }

    /// A pending VWAP over `[start_time, end_time)` along the US equity
    /// profile, with a fresh id and its target curve built (`None` on decimal
    /// overflow).  A window whose end falls at an earlier time of day than
    /// its start runs past midnight and takes the buckets on both sides.
    pub fn new(
        symbol: String,
        side: OrderSide,
        user_id: String,
        total_quantity: Dec,
        start_time: i64,
        end_time: i64,
    ) -> (r: Option<VwapAlgorithm>)
        requires
            end_time <= i64::MAX - 300000,
        ensures
            r is Some <==> vwap_curve(us_equity_profile(), start_time, end_time, total_quantity) is Some,
            r matches Some(a) ==> {
                &&& a.symbol == symbol
                &&& a.side == side
                &&& a.user_id == user_id
                &&& a.total_quantity == total_quantity
                &&& a.executed_quantity == Dec::spec_zero()
                &&& a.start_time == start_time
                &&& a.end_time == end_time
                &&& a.status == AlgorithmStatus::Pending
                &&& a.achieved_vwap == Dec::spec_zero()
                &&& a.notional() == Dec::spec_zero()
                &&& a.profile() == us_equity_profile()
                &&& Some(a.curve()) == vwap_curve(
                    us_equity_profile(),
                    start_time,
                    end_time,
                    total_quantity,
                )
            },
    {
        let volume_profile = VolumeProfile::us_equity_default();
        let mut algo = VwapAlgorithm {
            id: crate::ids::fresh_id(),
            symbol,
            side,
            user_id,
            total_quantity,
            executed_quantity: Dec::zero(),
            start_time,
            end_time,
            volume_profile,
            target_curve: Vec::new(),
            status: AlgorithmStatus::Pending,
            achieved_vwap: Dec::zero(),
            total_notional: Dec::zero(),
        };
        if algo.build_target_curve() {
            Some(algo)
        } else {
            None
        }
    }

    /// Build the target curve from the volume profile (`false` on decimal overflow).
    fn build_target_curve(&mut self) -> (ok: bool)
        requires
            old(self).end_time <= i64::MAX - 300000,
            old(self).target_curve@.len() == 0,
        ensures
            ok == (vwap_curve(old(self).profile(), old(self).start_time, old(self).end_time, old(self).total_quantity) is Some),
            ok ==> Some(final(self).curve()) == vwap_curve(
                old(self).profile(),
                old(self).start_time,
                old(self).end_time,
                old(self).total_quantity,
            ),
            *final(self) == (VwapAlgorithm { target_curve: final(self).target_curve, ..*old(self) }),
    {
        let start_tod = time_of_day_of(self.start_time);
        let end_tod = time_of_day_of(self.end_time);
        let total_vol_pct = match self.volume_profile.cumulative_volume(start_tod, end_tod) {
            Some(v) => v,
            None => {
                return false;
            },
        };
        if total_vol_pct.is_zero() {
            return true;
        }
        let ghost buckets = self.profile();
        let ghost end = self.end_time as int;
        let mut cumulative = Dec::zero();
        let mut current = self.start_time;
        while current < self.end_time
            invariant
                buckets == self.profile(),
                end == self.end_time as int,
                self.end_time <= i64::MAX - 300000,
                vwap_curve(buckets, old(self).start_time, old(self).end_time, old(self).total_quantity) == (
                match curve_from(buckets, current as int, end, self.total_quantity, total_vol_pct, cumulative) {
                    Some(rest) => Some(self.target_curve@ + rest),
                    None => None::<Seq<(i64, Dec)>>,
                }),
                *self == (VwapAlgorithm { target_curve: self.target_curve, ..*old(self) }),
            decreases if current < self.end_time {
                self.end_time - current
            } else {
                0
            },
        {
            let time_of_day = time_of_day_of(current);
            let bucket_vol = self.volume_profile.volume_at(time_of_day);
            let step = match bucket_vol.div(total_vol_pct) {
                Some(normalized) => match cumulative.add(normalized) {
                    Some(c2) => match self.total_quantity.mul(c2.min(Dec::new(1, 0))) {
                        Some(tq) => Some((c2, tq)),
                        None => None,
                    },
                    None => None,
                },
                None => None,
            };
            match step {
                Some((c2, target_qty)) => {
                    let ghost before = self.target_curve@;
                    self.target_curve.push((current, target_qty));
                    proof {
                        let rest = curve_from(buckets, current + 300000, end, self.total_quantity, total_vol_pct, c2);
                        match rest {
                            Some(r) => {
                                assert(before + (seq![(current, target_qty)] + r) =~= self.target_curve@ + r);
                            },
                            None => {},
                        }
                    }
                    cumulative = c2;
                    current = current + 300000;
                },
                None => {
                    return false;
                },
            }
        }
        proof {
            assert(self.target_curve@ + Seq::<(i64, Dec)>::empty() =~= self.target_curve@);
        }
        true
    }

    /// The target quantity to have executed by `time`: that of the latest
    /// curve point at or before it, zero before the first.
    pub fn target_at(&self, time: i64) -> (q: Dec)
        ensures
            q == target_in(self.curve(), time, self.curve().len()),
    {
        let mut n = self.target_curve.len();
        while n > 0
            invariant
                n <= self.target_curve@.len(),
                target_in(self.target_curve@, time, self.target_curve@.len()) == target_in(
                    self.target_curve@,
                    time,
                    n as nat,
                ),
            decreases n,
        {
            let (t, qty) = self.target_curve[n - 1];
            if t <= time {
                return qty;
            }
            n = n - 1;
        }
        Dec::zero()
    }

    /// The next child order at `current_time`: only while running (at or
    /// after the end of the window the algorithm completes instead), for what
    /// it is behind its target, capped at what remains; a market,
    /// immediate-or-cancel order (`None` also on decimal overflow).
    pub fn next_slice(&mut self, current_time: i64) -> (r: Option<Order>)
        ensures
            ({
                let a = *old(self);
                if a.status != AlgorithmStatus::Running {
                    r is None && *final(self) == a
                } else if current_time >= a.end_time {
                    r is None && *final(self) == (VwapAlgorithm { status: AlgorithmStatus::Completed, ..a })
                } else {
                    &&& *final(self) == a
                    &&& match (
                        dec_sub(target_in(a.curve(), current_time, a.curve().len()), a.executed_quantity),
                        dec_sub(a.total_quantity, a.executed_quantity),
                    ) {
                        (Some(behind), Some(remaining)) => {
                            let q = min_dec(behind, remaining);
                            if behind.value() <= 0 || q.value() <= 0 {
                                r is None
                            } else {
                                r matches Some(o) && is_child_order(o, a.symbol@, a.side, a.user_id@, None, q, current_time)
                            }
                        },
                        _ => r is None,
                    }
                }
            }),
    {
        if self.status != AlgorithmStatus::Running {
            return None;
        }
        if current_time >= self.end_time {
            self.status = AlgorithmStatus::Completed;
            return None;
        }
        let target = self.target_at(current_time);
        let behind_by = match target.sub(self.executed_quantity) {
            Some(b) => b,
            None => {
                return None;
            },
        };
        let remaining = match self.total_quantity.sub(self.executed_quantity) {
            Some(r) => r,
            None => {
                return None;
            },
        };
        if behind_by.le(&Dec::zero()) {
            return None;
        }
        let slice_qty = behind_by.min(remaining);
        if slice_qty.le(&Dec::zero()) {
            return None;
        }
        Some(child_order(&self.symbol, self.side, &self.user_id, None, slice_qty, current_time))
    }

    /// Record a fill and update the achieved VWAP (`false`, and no change,
    /// on decimal overflow).
    pub fn record_fill(&mut self, quantity: Dec, price: Dec) -> (ok: bool)
        ensures
            ok == (after_fill(*old(self), quantity, price) is Some),
            ok ==> *final(self) == after_fill(*old(self), quantity, price).unwrap(),
            !ok ==> *final(self) == *old(self),
    {
        let executed = match self.executed_quantity.add(quantity) {
            Some(e) => e,
            None => {
                return false;
            },
        };
        let value = match quantity.mul(price) {
            Some(v) => v,
            None => {
                return false;
            },
        };
        let notional = match self.total_notional.add(value) {
            Some(n) => n,
            None => {
                return false;
            },
        };
        let vwap = if Dec::zero().lt(&executed) {
            notional.div(executed)
        } else {
            Some(self.achieved_vwap)
        };
        let vwap = match vwap {
            Some(w) => w,
            None => {
                return false;
            },
        };
        self.executed_quantity = executed;
        self.total_notional = notional;
        self.achieved_vwap = vwap;
        if self.total_quantity.le(&executed) {
            self.status = AlgorithmStatus::Completed;
        }
        true
    }

    /// Start (or resume) the algorithm.
    pub fn start(&mut self)
        ensures
            *final(self) == (VwapAlgorithm { status: AlgorithmStatus::Running, ..*old(self) }),
    {
        self.status = AlgorithmStatus::Running;
    }

    /// Pause the algorithm.
    pub fn pause(&mut self)
        ensures
            *final(self) == (VwapAlgorithm { status: AlgorithmStatus::Paused, ..*old(self) }),
    {
        self.status = AlgorithmStatus::Paused;
    }

    /// Cancel the algorithm.
    pub fn cancel(&mut self)
        ensures
            *final(self) == (VwapAlgorithm { status: AlgorithmStatus::Cancelled, ..*old(self) }),
    {
        self.status = AlgorithmStatus::Cancelled;
    }
}

} // verus!
