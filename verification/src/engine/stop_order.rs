//! Stop orders: orders that wait for the market to reach a trigger price.
use vstd::prelude::*;

use crate::decimal::{dec_add, dec_div, dec_mul, dec_sub, Dec};
use crate::engine::types::{OrderSide, SelfTradePreventionMode, TimeInForce};

verus! {

/// When a stop order fires, relative to its trigger price.
#[derive(Debug, Clone, Copy, PartialEq, Eq, Structural)]
pub enum TriggerCondition {
    /// When a trade happens at or above the trigger price.
    AtOrAbove,
    /// When a trade happens at or below the trigger price.
    AtOrBelow,
}

/// What a stop order becomes when it fires.
#[derive(Debug, Clone, Copy, PartialEq, Eq, Structural)]
pub enum StopOrderType {
    /// A market order.
    StopMarket,
    /// A limit order at the stop's limit price.
    StopLimit,
    /// A limit order whose trigger price follows the market.
    TrailingStop,
}

#[derive(Debug, Clone, Copy, PartialEq, Eq, Structural)]
pub enum StopOrderStatus {
    Pending,
    Triggered,
    Cancelled,
    Expired,
}

/// A stop order.  Identifiers are UUIDs as 128-bit integers and times are
/// milliseconds since the Unix epoch.
#[derive(Debug, Clone)]
pub struct StopOrder {
    pub id: u128,
    pub symbol: String,
    pub user_id: String,
    pub trigger_price: Dec,
    pub trigger_condition: TriggerCondition,
    pub stop_type: StopOrderType,
    pub side: OrderSide,
    pub quantity: Dec,
    pub limit_price: Option<Dec>,
    pub trail_amount: Option<Dec>,
    pub trail_percent: Option<Dec>,
    pub highest_price: Option<Dec>,
    pub lowest_price: Option<Dec>,
    pub created_at: i64,
    pub expire_time: Option<i64>,
    pub status: StopOrderStatus,
    pub time_in_force: TimeInForce,
    pub stp_mode: SelfTradePreventionMode,
    pub post_only: bool,
}

/// `value - value * percent / 100` (`None` on decimal overflow).
pub open spec fn percent_below(value: Dec, percent: Dec) -> Option<Dec> {
    match dec_mul(value, percent) {
        Some(m) => match dec_div(m, Dec::spec_from_u64(100)) {
            Some(d) => dec_sub(value, d),
            None => None,
        },
        None => None,
    }
}

/// `value + value * percent / 100` (`None` on decimal overflow).
pub open spec fn percent_above(value: Dec, percent: Dec) -> Option<Dec> {
    match dec_mul(value, percent) {
        Some(m) => match dec_div(m, Dec::spec_from_u64(100)) {
            Some(d) => dec_add(value, d),
            None => None,
        },
        None => None,
    }
}

impl StopOrder {
    /// The expire time, if any, is before `now`.
    pub open spec fn spec_is_expired(self, now: i64) -> bool {
        match self.expire_time {
            Some(t) => now > t,
            None => false,
        }
    }

    /// A trade at `price` meets the trigger condition.
    pub open spec fn spec_should_trigger(self, price: Dec) -> bool {
        match self.trigger_condition {
            TriggerCondition::AtOrAbove => price.value() >= self.trigger_price.value(),
            TriggerCondition::AtOrBelow => price.value() <= self.trigger_price.value(),
        }
    }

    /// A trailing stop after a trade at `price`: a sell tracks the highest
    /// price and trails below it, a buy tracks the lowest price and trails
    /// above it, by the trail amount or else the trail percentage.  Other
    /// stops, and a trailing stop whose new trigger price would overflow, stay
    /// as they are.
    pub open spec fn spec_trailing(self, price: Dec) -> StopOrder {
        if self.stop_type != StopOrderType::TrailingStop {
            self
        } else if self.side == OrderSide::Sell {
            let high = match self.highest_price {
                Some(h) => if price.value() > h.value() {
                    price
                } else {
                    h
                },
                None => price,
            };
            let trig = match self.trail_amount {
                Some(a) => dec_sub(high, a),
                None => match self.trail_percent {
                    Some(p) => percent_below(high, p),
                    None => Some(self.trigger_price),
                },
            };
            match trig {
                Some(t) => StopOrder { highest_price: Some(high), trigger_price: t, ..self },
                None => self,
            }
        } else {
            let low = match self.lowest_price {
                Some(l) => if price.value() < l.value() {
                    price
                } else {
                    l
                },
                None => price,
            };
            let trig = match self.trail_amount {
                Some(a) => dec_add(low, a),
                None => match self.trail_percent {
                    Some(p) => percent_above(low, p),
                    None => Some(self.trigger_price),
                },
            };
            match trig {
                Some(t) => StopOrder { lowest_price: Some(low), trigger_price: t, ..self },
                None => self,
            }
        }
    }

    /// Whether the stop has expired at time `now`.
    pub fn is_expired(&self, now: i64) -> (b: bool)
        ensures
            b == self.spec_is_expired(now),
    {
        match self.expire_time {
            Some(t) => now > t,
            None => false,
        }
    }

    /// Whether a trade at `price` fires the stop.
    pub fn should_trigger(&self, price: Dec) -> (b: bool)
        ensures
            b == self.spec_should_trigger(price),
    {
        match self.trigger_condition {
            TriggerCondition::AtOrAbove => self.trigger_price.le(&price),
            TriggerCondition::AtOrBelow => price.le(&self.trigger_price),
        }
    }

    /// Whether the stop is still waiting.
    pub fn is_active(&self) -> (b: bool)
        ensures
            b == (self.status == StopOrderStatus::Pending),
    {
        self.status == StopOrderStatus::Pending
    }

    /// Follow a trade at `price` (trailing stops only).
    pub fn update_trailing(&mut self, price: Dec)
        ensures
            *final(self) == old(self).spec_trailing(price),
    {
        if self.stop_type != StopOrderType::TrailingStop {
            return ;
        }
        match self.side {
            OrderSide::Sell => {
                let high = match self.highest_price {
                    Some(h) => if h.lt(&price) {
                        price
                    } else {
                        h
                    },
                    None => price,
                };
                let trig = match self.trail_amount {
                    Some(a) => high.sub(a),
                    None => match self.trail_percent {
                        Some(p) => match high.mul(p) {
                            Some(m) => match m.div(Dec::from_u64(100)) {
                                Some(d) => high.sub(d),
                                None => None,
                            },
                            None => None,
                        },
                        None => Some(self.trigger_price),
                    },
                };
                if let Some(t) = trig {
                    self.highest_price = Some(high);
                    self.trigger_price = t;
                }
            },
            OrderSide::Buy => {
                let low = match self.lowest_price {
                    Some(l) => if price.lt(&l) {
                        price
                    } else {
                        l
                    },
                    None => price,
                };
                let trig = match self.trail_amount {
                    Some(a) => low.add(a),
                    None => match self.trail_percent {
                        Some(p) => match low.mul(p) {
                            Some(m) => match m.div(Dec::from_u64(100)) {
                                Some(d) => low.add(d),
                                None => None,
                            },
                            None => None,
                        },
                        None => Some(self.trigger_price),
                    },
                };
                if let Some(t) = trig {
                    self.lowest_price = Some(low);
                    self.trigger_price = t;
                }
            },
        }
    }

    /// An identical copy.
    pub fn duplicate(&self) -> (s: StopOrder)
        ensures
            s == *self,
    {
        StopOrder {
            id: self.id,
            symbol: self.symbol.clone(),
            user_id: self.user_id.clone(),
            trigger_price: self.trigger_price,
            trigger_condition: self.trigger_condition,
            stop_type: self.stop_type,
            side: self.side,
            quantity: self.quantity,
            limit_price: self.limit_price,
            trail_amount: self.trail_amount,
            trail_percent: self.trail_percent,
            highest_price: self.highest_price,
            lowest_price: self.lowest_price,
            created_at: self.created_at,
            expire_time: self.expire_time,
            status: self.status,
            time_in_force: self.time_in_force,
            stp_mode: self.stp_mode,
            post_only: self.post_only,
        }
    }
}

} // verus!
