//! Operation counts and latencies for self-tuning.
use vstd::prelude::*;
use crate::error::Error;

verus! {

/// Totals of recorded operations; latencies in microseconds.
#[derive(Debug, Clone, Copy, PartialEq, Eq, Structural)]
pub struct Metrics {
    pub operation_count: u64,
    /// Mean latency, rounded down; zero before any operation.
    pub avg_latency: u64,
    /// Sum of latencies, saturating.
    pub total_latency: u64,
}

impl Default for Metrics {
    fn default() -> (r: Metrics)
        ensures
            r == (Metrics { operation_count: 0, avg_latency: 0, total_latency: 0 }),
    {
        Metrics { operation_count: 0, avg_latency: 0, total_latency: 0 }
    }
}

/// Records operation latencies.
#[derive(Debug)]
pub struct TelemetryManager {
    count: u64,
    total: u64,
}

impl TelemetryManager {
    pub closed spec fn spec_count(&self) -> u64 {
        self.count
    }

    pub closed spec fn spec_total(&self) -> u64 {
        self.total
    }

    /// A manager with nothing recorded.
    pub fn new() -> (r: TelemetryManager)
        ensures
            r.spec_count() == 0,
            r.spec_total() == 0,
    {
        TelemetryManager { count: 0, total: 0 }
    }

    /// Records one operation that took `latency` microseconds.
    pub fn record_metric(&mut self, _name: &str, latency: u64) -> (r: Result<(), Error>)
        ensures
            r is Ok,
            final(self).spec_count() == if old(self).spec_count() == u64::MAX { u64::MAX } else { (old(self).spec_count() + 1) as u64 },
            final(self).spec_total() == if old(self).spec_total() + latency > u64::MAX { u64::MAX } else { (old(self).spec_total() + latency) as u64 },
    {
        self.count = if self.count == u64::MAX { u64::MAX } else { self.count + 1 };
        self.total = if self.total > u64::MAX - latency { u64::MAX } else { self.total + latency };
        Ok(())
    }

    /// The totals and the mean latency.
    pub fn get_metrics(&self) -> (r: Metrics)
        ensures
            r.operation_count == self.spec_count(),
            r.total_latency == self.spec_total(),
            r.avg_latency == if self.spec_count() == 0 { 0 } else { (self.spec_total() / self.spec_count()) as u64 },
    {
        let avg = if self.count == 0 { 0 } else { self.total / self.count };
        Metrics { operation_count: self.count, avg_latency: avg, total_latency: self.total }
    }
}

} // verus!
