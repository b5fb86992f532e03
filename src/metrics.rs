//! Named counters and histograms of integer samples.
use vstd::prelude::*;
use vstd::string::StringSliceAdditionalSpecFns;
use crate::bytes::compare_bytes;
use crate::error::Error;

verus! {

/// A named counter.
#[derive(Debug, Clone)]
pub struct CounterMetric {
    pub name: String,
    pub value: u64,
}

/// Summary of a named series of integer samples.
#[derive(Debug, Clone)]
pub struct HistogramMetric {
    pub name: String,
    pub count: u64,
    /// Sum of the samples, saturating.
    pub sum: u64,
    pub min: u64,
    pub max: u64,
}

/// Copies of every counter and histogram.
#[derive(Debug, Clone)]
pub struct MetricsSnapshot {
    pub histograms: Vec<HistogramMetric>,
    pub counters: Vec<CounterMetric>,
}

/// `x + 1`, or the largest `u64`.
pub open spec fn sat_inc(x: u64) -> u64 {
    if x == u64::MAX {
        u64::MAX
    } else {
        (x + 1) as u64
    }
}

/// Collects counters and histograms by name.
#[derive(Debug)]
pub struct MetricsCollector {
    counters: Vec<CounterMetric>,
    histograms: Vec<HistogramMetric>,
}

impl MetricsCollector {
    pub closed spec fn spec_counters(&self) -> Seq<CounterMetric> {
        self.counters@
    }

    pub closed spec fn spec_histograms(&self) -> Seq<HistogramMetric> {
        self.histograms@
    }

    /// A collector with nothing recorded.
    pub fn new() -> (r: MetricsCollector)
        ensures
            r.spec_counters().len() == 0,
            r.spec_histograms().len() == 0,
    {
        MetricsCollector { counters: Vec::new(), histograms: Vec::new() }
    }

    /// Adds one to the counter `name`, creating it at one.
    pub fn increment_counter(&mut self, name: &str) -> (r: Result<(), Error>)
        ensures
            r is Ok,
            final(self).spec_histograms() == old(self).spec_histograms(),
            (exists|i: int| 0 <= i < old(self).spec_counters().len() && #[trigger] old(self).spec_counters()[i].name@ == name@) ==> final(self).spec_counters().len() == old(self).spec_counters().len(),
            !(exists|i: int| 0 <= i < old(self).spec_counters().len() && #[trigger] old(self).spec_counters()[i].name@ == name@) ==> final(self).spec_counters().len() == old(self).spec_counters().len() + 1
                && final(self).spec_counters().last().name@ == name@ && final(self).spec_counters().last().value == 1,
    {
        let mut i: usize = 0;
        while i < self.counters.len()
            invariant
                0 <= i <= self.counters@.len(),
                self.counters@ == old(self).counters@,
                self.histograms@ == old(self).histograms@,
                forall|j: int| 0 <= j < i ==> (#[trigger] self.counters@[j]).name@ != name@,
            decreases self.counters@.len() - i,
        {
            if string_eq(self.counters[i].name.as_str(), name) {
                let v = self.counters[i].value;
                let updated = CounterMetric { name: self.counters[i].name.clone(), value: if v == u64::MAX { u64::MAX } else { v + 1 } };
                self.counters.set(i, updated);
                return Ok(());
            }
            i = i + 1;
        }
        self.counters.push(CounterMetric { name: name.to_string(), value: 1 });
        Ok(())
    }

    /// Adds a sample to the histogram `name`, creating it.
    pub fn record_histogram(&mut self, name: &str, value: u64) -> (r: Result<(), Error>)
        ensures
            r is Ok,
            final(self).spec_counters() == old(self).spec_counters(),
            final(self).spec_histograms().len() >= old(self).spec_histograms().len(),
    {
        let mut i: usize = 0;
        while i < self.histograms.len()
            invariant
                0 <= i <= self.histograms@.len(),
                self.counters@ == old(self).counters@,
                self.histograms@ == old(self).histograms@,
            decreases self.histograms@.len() - i,
        {
            if string_eq(self.histograms[i].name.as_str(), name) {
                let h = &self.histograms[i];
                let updated = HistogramMetric {
                    name: h.name.clone(),
                    count: if h.count == u64::MAX { u64::MAX } else { h.count + 1 },
                    sum: if h.sum > u64::MAX - value { u64::MAX } else { h.sum + value },
                    min: if value < h.min { value } else { h.min },
                    max: if value > h.max { value } else { h.max },
                };
                self.histograms.set(i, updated);
                return Ok(());
            }
            i = i + 1;
        }
        self.histograms.push(HistogramMetric { name: name.to_string(), count: 1, sum: value, min: value, max: value });
        Ok(())
    }

    /// Copies of everything recorded.
    pub fn snapshot(&self) -> (r: MetricsSnapshot)
        ensures
            r.counters@.len() == self.spec_counters().len(),
            r.histograms@.len() == self.spec_histograms().len(),
            forall|i: int| 0 <= i < r.counters@.len() ==> (#[trigger] r.counters@[i]).value == self.spec_counters()[i].value,
    {
        let mut counters: Vec<CounterMetric> = Vec::new();
        let mut i: usize = 0;
        while i < self.counters.len()
            invariant
                0 <= i <= self.counters@.len(),
                counters@.len() == i,
                forall|j: int| 0 <= j < i ==> (#[trigger] counters@[j]).value == self.counters@[j].value,
            decreases self.counters@.len() - i,
        {
            counters.push(CounterMetric { name: self.counters[i].name.clone(), value: self.counters[i].value });
            i = i + 1;
        }
        let mut histograms: Vec<HistogramMetric> = Vec::new();
        let mut j: usize = 0;
        while j < self.histograms.len()
            invariant
                0 <= j <= self.histograms@.len(),
                histograms@.len() == j,
            decreases self.histograms@.len() - j,
        {
            let h = &self.histograms[j];
            histograms.push(HistogramMetric { name: h.name.clone(), count: h.count, sum: h.sum, min: h.min, max: h.max });
            j = j + 1;
        }
        MetricsSnapshot { histograms, counters }
    }
}

/// Whether two names are the same text.
fn string_eq(a: &str, b: &str) -> (r: bool)
    ensures
        r == (a@ == b@),
{
    let r = match compare_bytes(a.as_bytes(), b.as_bytes()) {
        core::cmp::Ordering::Equal => true,
        _ => false,
    };
    proof {
        crate::bytes::lemma_lt_irreflexive(a.spec_bytes());
        vstd::utf8::encode_utf8_decode_utf8(a@);
        vstd::utf8::encode_utf8_decode_utf8(b@);
    }
    r
}

} // verus!
