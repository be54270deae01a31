//! A bounded queue that buffers ticks until they are stored.
//!
//! When the queue is full the tick is not taken: the caller is told, and on
//! the first such refusal since the last drain it is asked to start an
//! emergency flush; it may then wait and retry once.
use vstd::prelude::*;

use crate::decimal::Dec;
use crate::fix::market_data::MarketTick;
use crate::market::tick::NewTick;
use crate::text::{parse_i64, parse_i64_text};

verus! {

/// Statistics of the tick queue.
#[derive(Debug, Clone)]
pub struct TickQueueStats {
    pub current_size: usize,
    pub max_size: usize,
    pub total_enqueued: u64,
    pub total_flushed: u64,
    pub emergency_flushes: u64,
    pub is_flushing: bool,
}

/// What became of a tick offered to the queue.
#[derive(Debug, Clone, Copy, PartialEq, Eq, Structural)]
pub enum EnqueueOutcome {
    /// The tick was queued.
    Enqueued,
    /// The queue is full; `flush_requested` when the caller is to trigger an
    /// emergency flush now.
    Full { flush_requested: bool },
}

/// The queue by value.
#[verifier::ext_equal]
pub struct TickQueueView {
    pub ticks: Seq<NewTick>,
    pub max_size: usize,
    pub total_enqueued: u64,
    pub total_flushed: u64,
    pub emergency_flushes: u64,
    pub is_flushing: bool,
}

/// Bounded tick queue.
pub struct TickQueue {
    queue: Vec<NewTick>,
    max_size: usize,
    total_enqueued: u64,
    total_flushed: u64,
    emergency_flushes: u64,
    is_flushing: bool,
}

impl View for TickQueue {
    type V = TickQueueView;

    closed spec fn view(&self) -> TickQueueView {
        TickQueueView {
            ticks: self.queue@,
            max_size: self.max_size,
            total_enqueued: self.total_enqueued,
            total_flushed: self.total_flushed,
            emergency_flushes: self.emergency_flushes,
            is_flushing: self.is_flushing,
        }
    }
}

/// A counter moved on by `n`, wrapping around as an atomic counter does.
pub open spec fn bump(c: u64, n: u64) -> u64 {
    ((c as int + n as int) % 18446744073709551616) as u64
}

/// The stored form of a market tick: the symbol id parsed as a number (zero
/// when it is not one) and kept as the name, missing prices as zero, and no
/// volumes.
pub open spec fn stored_tick(t: MarketTick, n: NewTick) -> bool {
    &&& n.symbol_id == (match parse_i64(t.symbol_id@) {
        Some(v) => v,
        None => 0,
    })
    &&& n.symbol_name@ == t.symbol_id@
    &&& n.tick_time == t.timestamp_millis
    &&& n.bid_price == (match t.bid_price {
        Some(p) => p,
        None => Dec::spec_zero(),
    })
    &&& n.ask_price == (match t.ask_price {
        Some(p) => p,
        None => Dec::spec_zero(),
    })
    &&& n.bid_volume == Dec::spec_zero()
    &&& n.ask_volume == Dec::spec_zero()
}

/// Offering a tick: queued when there is room, else refused; the first
/// refusal while no flush is under way starts one.
pub open spec fn enqueue_view(v: TickQueueView, n: NewTick) -> (TickQueueView, EnqueueOutcome) {
    if v.ticks.len() < v.max_size {
        (
            TickQueueView {
                ticks: v.ticks.push(n),
                total_enqueued: bump(v.total_enqueued, 1),
                ..v
            },
            EnqueueOutcome::Enqueued,
        )
    } else if !v.is_flushing {
        (
            TickQueueView {
                is_flushing: true,
                emergency_flushes: bump(v.emergency_flushes, 1),
                ..v
            },
            EnqueueOutcome::Full { flush_requested: true },
        )
    } else {
        (v, EnqueueOutcome::Full { flush_requested: false })
    }
}

impl TickQueue {
    /// An empty queue holding at most `max_size` ticks.
    pub fn new(max_size: usize) -> (q: TickQueue)
        ensures
            q@ == (TickQueueView {
                ticks: Seq::empty(),
                max_size,
                total_enqueued: 0,
                total_flushed: 0,
                emergency_flushes: 0,
                is_flushing: false,
            }),
    {
        TickQueue {
            queue: Vec::new(),
            max_size,
            total_enqueued: 0,
            total_flushed: 0,
            emergency_flushes: 0,
            is_flushing: false,
        }
    }

    /// Offer a market tick.
    pub fn enqueue(&mut self, tick: MarketTick) -> (r: EnqueueOutcome)
        ensures
            exists|n: NewTick|
                stored_tick(tick, n) && (final(self)@, r) == #[trigger] enqueue_view(old(self)@, n),
    {
        let new_tick = Self::convert_market_tick_to_new_tick(tick);
        let ghost n = new_tick;
        let r = self.offer(new_tick);
        assert(stored_tick(tick, n) && (self@, r) == enqueue_view(old(self)@, n));
        r
    }

    /// Offer a stored-form tick.
    fn offer(&mut self, new_tick: NewTick) -> (r: EnqueueOutcome)
        ensures
            (final(self)@, r) == enqueue_view(old(self)@, new_tick),
    {
        if self.queue.len() < self.max_size {
            self.queue.push(new_tick);
            self.total_enqueued = self.total_enqueued.wrapping_add(1);
            EnqueueOutcome::Enqueued
        } else if !self.is_flushing {
            self.is_flushing = true;
            self.emergency_flushes = self.emergency_flushes.wrapping_add(1);
            EnqueueOutcome::Full { flush_requested: true }
        } else {
            EnqueueOutcome::Full { flush_requested: false }
        }
    }

    /// Retry a refused tick: queued (`true`) when there is room now, else dropped.
    pub fn retry_enqueue(&mut self, tick: NewTick) -> (queued: bool)
        ensures
            queued == (old(self)@.ticks.len() < old(self)@.max_size),
            queued ==> final(self)@ == (TickQueueView {
                ticks: old(self)@.ticks.push(tick),
                total_enqueued: bump(old(self)@.total_enqueued, 1),
                ..old(self)@
            }),
            !queued ==> final(self)@ == old(self)@,
    {
        if self.queue.len() < self.max_size {
            self.queue.push(tick);
            self.total_enqueued = self.total_enqueued.wrapping_add(1);
            true
        } else {
            false
        }
    }

    /// Take every queued tick, oldest first; the flush is over.
    pub fn drain_all(&mut self) -> (ticks: Vec<NewTick>)
        ensures
            ticks@ == old(self)@.ticks,
            final(self)@ == (TickQueueView {
                ticks: Seq::empty(),
                total_flushed: bump(old(self)@.total_flushed, old(self)@.ticks.len() as u64),
                is_flushing: false,
                ..old(self)@
            }),
    {
        let mut ticks: Vec<NewTick> = Vec::new();
        std::mem::swap(&mut ticks, &mut self.queue);
        let count = ticks.len();
        self.total_flushed = self.total_flushed.wrapping_add(count as u64);
        self.is_flushing = false;
        ticks
    }

    /// Current statistics.
    pub fn stats(&self) -> (s: TickQueueStats)
        ensures
            s.current_size == self@.ticks.len(),
            s.max_size == self@.max_size,
            s.total_enqueued == self@.total_enqueued,
            s.total_flushed == self@.total_flushed,
            s.emergency_flushes == self@.emergency_flushes,
            s.is_flushing == self@.is_flushing,
    {
        TickQueueStats {
            current_size: self.queue.len(),
            max_size: self.max_size,
            total_enqueued: self.total_enqueued,
            total_flushed: self.total_flushed,
            emergency_flushes: self.emergency_flushes,
            is_flushing: self.is_flushing,
        }
    }

    /// The stored form of a market tick.
    pub fn convert_market_tick_to_new_tick(tick: MarketTick) -> (n: NewTick)
        ensures
            stored_tick(tick, n),
    {
        let symbol_id = match parse_i64_text(tick.symbol_id.as_str()) {
            Some(v) => v,
            None => 0,
        };
        NewTick {
            symbol_id,
            symbol_name: tick.symbol_id.clone(),
            tick_time: tick.timestamp_millis,
            bid_price: match tick.bid_price {
                Some(p) => p,
                None => Dec::zero(),
            },
            ask_price: match tick.ask_price {
                Some(p) => p,
                None => Dec::zero(),
            },
            bid_volume: Dec::zero(),
            ask_volume: Dec::zero(),
        }
    }
}

} // verus!
