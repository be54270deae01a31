//! TWAP: a parent order executed evenly over a time window.
//!
//! The target of a slice follows a curve in elapsed time whose shape is set
//! by the urgency (a real power); working it out is left to the caller,
//! which hands the target quantity to `slice_for_target`.
use vstd::prelude::*;

use crate::decimal::{dec_add, dec_mul, dec_sub, Dec};
use crate::engine::matching::min_dec;
use crate::engine::types::{Order, OrderSide, OrderStatus, OrderType, SelfTradePreventionMode, TimeInForce};

verus! {

broadcast use crate::decimal::group_dec_parts;

/// Where an execution algorithm stands.
#[derive(Debug, Clone, Copy, PartialEq, Eq, Structural)]
pub enum AlgorithmStatus {
    Pending,
    Running,
    Paused,
    Completed,
    Cancelled,
}

/// TWAP execution algorithm.  Times are milliseconds since the Unix epoch.
#[derive(Debug, Clone)]
pub struct TwapAlgorithm {
    pub id: u128,
    pub symbol: String,
    pub side: OrderSide,
    pub user_id: String,
    /// Total quantity to execute.
    pub total_quantity: Dec,
    /// Quantity already executed.
    pub executed_quantity: Dec,
    /// Start of the execution window.
    pub start_time: i64,
    /// End of the execution window.
    pub end_time: i64,
    /// Interval between slices, in seconds.
    pub slice_interval_seconds: i64,
    /// Number of slices sent.
    pub slices_completed: u32,
    /// Limit price of the slices (market orders when absent).
    pub limit_price: Option<Dec>,
    /// Largest share of market volume to take.
    pub max_participation: Option<Dec>,
    pub status: AlgorithmStatus,
    /// 1 is even, above 1 front-loads, below 1 back-loads.
    pub urgency: Dec,
}

/// The child order of a slice: the algorithm's symbol, side and user, a
/// limit order at its limit price (a market order without one),
/// immediate-or-cancel, without self-trade prevention.
pub open spec fn is_child_order(
    o: Order,
    symbol: Seq<char>,
    side: OrderSide,
    user_id: Seq<char>,
    limit_price: Option<Dec>,
    quantity: Dec,
    time: i64,
) -> bool {
    &&& o.symbol@ == symbol
    &&& o.side == side
    &&& o.order_type == (if limit_price is Some {
        OrderType::Limit
    } else {
        OrderType::Market
    })
    &&& o.price == limit_price
    &&& o.quantity == quantity
    &&& o.filled_quantity == Dec::spec_zero()
    &&& o.status == OrderStatus::New
    &&& o.user_id@ == user_id
    &&& o.timestamp == time
    &&& o.time_in_force == TimeInForce::IOC
    &&& o.stp_mode == SelfTradePreventionMode::NoPrevention
    &&& !o.post_only
    &&& o.expire_time is None
}

/// A child order with a fresh id.
pub fn child_order(
    symbol: &String,
    side: OrderSide,
    user_id: &String,
    limit_price: Option<Dec>,
    quantity: Dec,
    time: i64,
) -> (o: Order)
    ensures
        is_child_order(o, symbol@, side, user_id@, limit_price, quantity, time),
{
    Order {
        id: crate::ids::fresh_id(),
        symbol: symbol.clone(),
        side,
        order_type: if limit_price.is_some() {
            OrderType::Limit
        } else {
            OrderType::Market
        },
        price: limit_price,
        quantity,
        filled_quantity: Dec::zero(),
        status: OrderStatus::New,
        user_id: user_id.clone(),
        timestamp: time,
        time_in_force: TimeInForce::IOC,
        stp_mode: SelfTradePreventionMode::NoPrevention,
        post_only: false,
        expire_time: None,
    }
}

impl TwapAlgorithm {
    /// A pending algorithm with a fresh id, nothing executed, no limit price,
    /// no participation cap and urgency 1.
    pub fn new(
        symbol: String,
        side: OrderSide,
        user_id: String,
        total_quantity: Dec,
        start_time: i64,
        end_time: i64,
        slice_interval_seconds: i64,
    ) -> (a: TwapAlgorithm)
        ensures
            a.symbol == symbol,
            a.side == side,
            a.user_id == user_id,
            a.total_quantity == total_quantity,
            a.executed_quantity == Dec::spec_zero(),
            a.start_time == start_time,
            a.end_time == end_time,
            a.slice_interval_seconds == slice_interval_seconds,
            a.slices_completed == 0,
            a.limit_price is None,
            a.max_participation is None,
            a.status == AlgorithmStatus::Pending,
            a.urgency == Dec::spec_new(1, 0),
    {
        TwapAlgorithm {
            id: crate::ids::fresh_id(),
            symbol,
            side,
            user_id,
            total_quantity,
            executed_quantity: Dec::zero(),
            start_time,
            end_time,
            slice_interval_seconds,
            slices_completed: 0,
            limit_price: None,
            max_participation: None,
            status: AlgorithmStatus::Pending,
            urgency: Dec::new(1, 0),
        }
    }

    /// Whether a slice is to be worked out at `current_time`: only while
    /// running; at or after the end of the window, or once everything is
    /// executed, the algorithm completes instead.
    pub fn slice_due(&mut self, current_time: i64) -> (due: bool)
        ensures
            due == (old(self).status == AlgorithmStatus::Running && current_time < old(self).end_time
                && old(self).executed_quantity.value() < old(self).total_quantity.value()),
            final(self).status == (if old(self).status == AlgorithmStatus::Running && !due {
                AlgorithmStatus::Completed
            } else {
                old(self).status
            }),
            *final(self) == (TwapAlgorithm { status: final(self).status, ..*old(self) }),
    {
        if self.status != AlgorithmStatus::Running {
            return false;
        }
        if current_time >= self.end_time {
            self.status = AlgorithmStatus::Completed;
            return false;
        }
        if self.total_quantity.le(&self.executed_quantity) {
            self.status = AlgorithmStatus::Completed;
            return false;
        }
        true
    }

    /// What should be executed at a point of the window: the total quantity
    /// times `progress_factor`, the progress along the urgency curve (`None`
    /// on decimal overflow).
    pub fn target_quantity(&self, progress_factor: Dec) -> (r: Option<Dec>)
        ensures
            r == dec_mul(self.total_quantity, progress_factor),
    {
        self.total_quantity.mul(progress_factor)
    }

    /// The slice toward `target_quantity` (what should be executed by now):
    /// what the algorithm is behind, capped at what remains; none when it is
    /// not behind (`None` also on decimal overflow).
    pub fn slice_for_target(&mut self, current_time: i64, target_quantity: Dec) -> (r: Option<Order>)
        requires
            old(self).slices_completed < u32::MAX,
        ensures
            ({
                let a = *old(self);
                match (dec_sub(target_quantity, a.executed_quantity), dec_sub(a.total_quantity, a.executed_quantity)) {
                    (Some(behind), Some(remaining)) => {
                        let q = min_dec(behind, remaining);
                        if behind.value() <= 0 || q.value() <= 0 {
                            r is None && *final(self) == a
                        } else {
                            &&& r matches Some(o)
                            &&& is_child_order(o, a.symbol@, a.side, a.user_id@, a.limit_price, q, current_time)
                            &&& *final(self) == (TwapAlgorithm {
                                slices_completed: (a.slices_completed + 1) as u32,
                                ..a
                            })
                        }
                    },
                    _ => r is None && *final(self) == a,
                }
            }),
    {
        let behind_by = match target_quantity.sub(self.executed_quantity) {
            Some(b) => b,
            None => {
                return None;
            },
        };
        let remaining = match self.total_quantity.sub(self.executed_quantity) {
            Some(r) => r,
            None => {
                return None;
            },
        };
        if behind_by.le(&Dec::zero()) {
            return None;
        }
        let slice_quantity = behind_by.min(remaining);
        if slice_quantity.le(&Dec::zero()) {
            return None;
        }
        self.slices_completed = self.slices_completed + 1;
        Some(child_order(&self.symbol, self.side, &self.user_id, self.limit_price, slice_quantity, current_time))
    }

    /// Record the execution of a child order; the algorithm completes once
    /// everything is executed.  `false` (and no change) on decimal overflow.
    pub fn record_fill(&mut self, filled_quantity: Dec, fill_price: Dec) -> (ok: bool)
        ensures
            ok == (dec_add(old(self).executed_quantity, filled_quantity) is Some),
            ok ==> ({
                let e = dec_add(old(self).executed_quantity, filled_quantity).unwrap();
                *final(self) == (TwapAlgorithm {
                    executed_quantity: e,
                    status: if e.value() >= old(self).total_quantity.value() {
                        AlgorithmStatus::Completed
                    } else {
                        old(self).status
                    },
                    ..*old(self)
                })
            }),
            !ok ==> *final(self) == *old(self),
    {
        match self.executed_quantity.add(filled_quantity) {
            Some(e) => {
                self.executed_quantity = e;
                if self.total_quantity.le(&e) {
                    self.status = AlgorithmStatus::Completed;
                }
                true
            },
            None => false,
        }
    }

    /// An identical copy.
    pub fn duplicate(&self) -> (r: TwapAlgorithm)
        ensures
            r == *self,
    {
        TwapAlgorithm {
            id: self.id,
            symbol: self.symbol.clone(),
            side: self.side,
            user_id: self.user_id.clone(),
            total_quantity: self.total_quantity,
            executed_quantity: self.executed_quantity,
            start_time: self.start_time,
            end_time: self.end_time,
            slice_interval_seconds: self.slice_interval_seconds,
            slices_completed: self.slices_completed,
            limit_price: self.limit_price,
            max_participation: self.max_participation,
            status: self.status,
            urgency: self.urgency,
        }
    }

    /// Start (or resume) the algorithm.
    pub fn start(&mut self)
        ensures
            *final(self) == (TwapAlgorithm { status: AlgorithmStatus::Running, ..*old(self) }),
    {
        self.status = AlgorithmStatus::Running;
    }

    /// Pause the algorithm.
    pub fn pause(&mut self)
        ensures
            *final(self) == (TwapAlgorithm { status: AlgorithmStatus::Paused, ..*old(self) }),
    {
        self.status = AlgorithmStatus::Paused;
    }

    /// Cancel the algorithm.
    pub fn cancel(&mut self)
        ensures
            *final(self) == (TwapAlgorithm { status: AlgorithmStatus::Cancelled, ..*old(self) }),
    {
        self.status = AlgorithmStatus::Cancelled;
    }
}

} // verus!
