//! Value log garbage collection: choosing segments whose live fraction has fallen
//! below a threshold, and the queue of collection tasks.
use vstd::prelude::*;
use crate::api::AuraEngine;
use crate::error::Error;

verus! {

/// A collection task for one segment.
#[derive(Debug, Clone, Copy, PartialEq, Eq, Structural)]
pub struct GcTask {
    pub id: u64,
    pub segment_id: u64,
    pub priority: u32,
}

/// Live and total bytes of a segment, as traced from tables and memtable.
#[derive(Debug, Clone, Copy, PartialEq, Eq, Structural)]
pub struct SegmentUsage {
    pub segment_id: u64,
    pub live_bytes: u64,
    pub total_bytes: u64,
}

/// A segment is due for collection when its live fraction, in thousandths, is below the
/// threshold.
pub open spec fn collectable(u: SegmentUsage, threshold_permille: u32) -> bool {
    u.total_bytes > 0 && u.live_bytes * 1000 < u.total_bytes * threshold_permille
}

/// The segments due for collection, in the order given.
pub fn select_segments(usage: &[SegmentUsage], threshold_permille: u32) -> (r: Vec<u64>)
    ensures
        r@ == usage@.filter(|u: SegmentUsage| collectable(u, threshold_permille)).map_values(|u: SegmentUsage| u.segment_id),
{
    let mut out: Vec<u64> = Vec::new();
    let mut i: usize = 0;
    while i < usage.len()
        invariant
            0 <= i <= usage@.len(),
            out@ == usage@.take(i as int).filter(|u: SegmentUsage| collectable(u, threshold_permille)).map_values(|u: SegmentUsage| u.segment_id),
        decreases usage@.len() - i,
    {
        let u = usage[i];
        let a = u.live_bytes as u128;
        let b = u.total_bytes as u128;
        let c = threshold_permille as u128;
        assert(a * 1000 <= 0xffff_ffff_ffff_ffffu128 * 1000) by (nonlinear_arith)
            requires
                a <= 0xffff_ffff_ffff_ffffu128,
        ;
        assert(b * c <= 0xffff_ffff_ffff_ffffu128 * 0xffff_ffffu128) by (nonlinear_arith)
            requires
                b <= 0xffff_ffff_ffff_ffffu128,
                c <= 0xffff_ffffu128,
        ;
        let due = u.total_bytes > 0 && a * 1000 < b * c;
        proof {
            assert(usage@.take(i + 1).drop_last() =~= usage@.take(i as int));
            reveal(Seq::filter);
        }
        if due {
            out.push(u.segment_id);
        }
        proof {
            let f = |u: SegmentUsage| collectable(u, threshold_permille);
            let g = |u: SegmentUsage| u.segment_id;
            assert(usage@.take(i + 1)[i as int] == u);
            if due {
                assert(usage@.take(i + 1).filter(f) =~= usage@.take(i as int).filter(f).push(u));
            } else {
                assert(usage@.take(i + 1).filter(f) =~= usage@.take(i as int).filter(f));
            }
            assert(out@ =~= usage@.take(i + 1).filter(f).map_values(g));
        }
        i = i + 1;
    }
    proof {
        assert(usage@.take(i as int) =~= usage@);
    }
    out
}

/// Collection counters.
#[derive(Debug, Clone, Copy, PartialEq, Eq, Structural)]
pub struct GcStats {
    pub segments_processed: u64,
    pub bytes_reclaimed: u64,
    pub gc_time: u64,
}

impl Default for GcStats {
    fn default() -> (r: GcStats)
        ensures
            r == (GcStats { segments_processed: 0, bytes_reclaimed: 0, gc_time: 0 }),
    {
        GcStats { segments_processed: 0, bytes_reclaimed: 0, gc_time: 0 }
    }
}

/// The queue of collection tasks.
#[derive(Debug)]
pub struct GcManager {
    pending: Vec<GcTask>,
    stats: GcStats,
}

impl GcManager {
    pub closed spec fn spec_pending(&self) -> Seq<GcTask> {
        self.pending@
    }

    pub closed spec fn spec_stats(&self) -> GcStats {
        self.stats
    }

    /// A manager with no tasks.
    pub fn new() -> (r: GcManager)
        ensures
            r.spec_pending().len() == 0,
            r.spec_stats() == (GcStats { segments_processed: 0, bytes_reclaimed: 0, gc_time: 0 }),
    {
        GcManager { pending: Vec::new(), stats: GcStats::default() }
    }

    /// Queues a task.
    pub fn schedule_task(&mut self, task: GcTask) -> (r: Result<(), Error>)
        ensures
            r is Ok,
            final(self).spec_pending() == old(self).spec_pending().push(task),
            final(self).spec_stats() == old(self).spec_stats(),
    {
        self.pending.push(task);
        Ok(())
    }

    /// Runs every queued task against the engine and returns the segments that may be
    /// reclaimed: those no live entry points into. Reclaiming them keeps every visible
    /// value readable.
    pub fn run_gc(&mut self, engine: &AuraEngine) -> (r: Result<Vec<u64>, Error>)
        requires
            engine.well_formed(),
        ensures
            r is Ok,
            forall|i: int| 0 <= i < r.unwrap()@.len() ==> !engine.references(#[trigger] r.unwrap()@[i]),
            forall|i: int| 0 <= i < old(self).spec_pending().len() && !engine.references(#[trigger] old(self).spec_pending()[i].segment_id)
                ==> r.unwrap()@.contains(old(self).spec_pending()[i].segment_id),
            final(self).spec_pending().len() == 0,
            final(self).spec_stats().segments_processed == if old(self).spec_stats().segments_processed
                + old(self).spec_pending().len() > u64::MAX {
                u64::MAX as int
            } else {
                old(self).spec_stats().segments_processed + old(self).spec_pending().len()
            },
    {
        let mut free: Vec<u64> = Vec::new();
        let mut i: usize = 0;
        while i < self.pending.len()
            invariant
                engine.well_formed(),
                self.pending@ == old(self).pending@,
                self.stats == old(self).stats,
                0 <= i <= self.pending@.len(),
                forall|j: int| 0 <= j < free@.len() ==> !engine.references(#[trigger] free@[j]),
                forall|j: int| 0 <= j < i && !engine.references(#[trigger] self.pending@[j].segment_id) ==> free@.contains(self.pending@[j].segment_id),
            decreases self.pending@.len() - i,
        {
            let id = self.pending[i].segment_id;
            if !engine.segment_referenced(id) {
                let ghost before = free@;
                free.push(id);
                proof {
                    assert forall|j: int| 0 <= j < i && !engine.references(#[trigger] self.pending@[j].segment_id) implies free@.contains(self.pending@[j].segment_id) by {
                        let w = choose|w: int| 0 <= w < before.len() && before[w] == self.pending@[j].segment_id;
                        assert(free@[w] == before[w]);
                    }
                    assert(free@[before.len() as int] == id);
                }
            }
            i = i + 1;
        }
        let n = self.pending.len() as u64;
        let done = self.stats.segments_processed;
        self.stats.segments_processed = if done > u64::MAX - n { u64::MAX } else { done + n };
        self.pending = Vec::new();
        Ok(free)
    }

    /// The counters.
    pub fn stats(&self) -> (r: GcStats)
        ensures
            r == self.spec_stats(),
    {
        self.stats
    }
}

} // verus!
