//! The load-test order producer's settings and the bodies of its endpoints.
use vstd::prelude::*;

verus! {

/// Request to configure and start the producer; absent fields keep the
/// current setting.
pub struct StartProducerRequest {
    pub rate_per_second: Option<u32>,
    pub symbols: Option<Vec<String>>,
}

/// Producer status.  `started_at` is RFC 3339 text.
pub struct ProducerStatusResponse {
    pub running: bool,
    pub rate_per_second: u32,
    pub symbols: Vec<String>,
    pub orders_generated: u64,
    pub errors: u64,
    pub started_at: Option<String>,
}

/// A body that only carries a message.
pub struct SuccessResponse {
    pub message: String,
}

/// The producer's settings and counters.  `started_at` is milliseconds
/// since the epoch.
pub struct ProducerState {
    pub running: bool,
    pub rate_per_second: u32,
    pub symbols: Vec<String>,
    pub orders_generated: u64,
    pub errors: u64,
    pub started_at: Option<i64>,
}

impl ProducerState {
    /// Apply a start request at time `now`: given settings replace the
    /// current ones, and the producer runs from `now`.
    pub fn start(&mut self, req: StartProducerRequest, now: i64)
        ensures
            final(self).running,
            final(self).started_at == Some(now),
            final(self).rate_per_second == (match req.rate_per_second {
                Some(r) => r,
                None => old(self).rate_per_second,
            }),
            final(self).symbols@ == (match req.symbols {
                Some(s) => s@,
                None => old(self).symbols@,
            }),
            final(self).orders_generated == old(self).orders_generated,
            final(self).errors == old(self).errors,
    {
        if let Some(rate) = req.rate_per_second {
            self.rate_per_second = rate;
        }
        if let Some(symbols) = req.symbols {
            self.symbols = symbols;
        }
        self.running = true;
        self.started_at = Some(now);
    }

    /// Stop producing; everything else is kept.
    pub fn stop(&mut self)
        ensures
            !final(self).running,
            final(self).rate_per_second == old(self).rate_per_second,
            final(self).symbols@ == old(self).symbols@,
            final(self).orders_generated == old(self).orders_generated,
            final(self).errors == old(self).errors,
            final(self).started_at == old(self).started_at,
    {
        self.running = false;
    }

    /// Zero the counters; everything else is kept.
    pub fn reset_counters(&mut self)
        ensures
            final(self).orders_generated == 0,
            final(self).errors == 0,
            final(self).running == old(self).running,
            final(self).rate_per_second == old(self).rate_per_second,
            final(self).symbols@ == old(self).symbols@,
            final(self).started_at == old(self).started_at,
    {
        self.orders_generated = 0;
        self.errors = 0;
    }
}

} // verus!
