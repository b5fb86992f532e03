//! The memtable: recent writes kept in key order, one entry per key, tombstones
//! included, with a byte count that decides when it is flushed.
use vstd::prelude::*;
use crate::config::MemtableImpl;
use crate::run::{entry_charge, entry_models, SortedRun};
use crate::storage::{Entry, EntryModel, Key, OpType};

verus! {

/// An ordered in-memory table of entries with byte accounting for flush decisions.
#[derive(Debug)]
pub struct Memtable {
    implementation: MemtableImpl,
    run: SortedRun,
    usage: u64,
    max_size: usize,
    flush_threshold_permille: u32,
}

impl View for Memtable {
    type V = Map<Seq<u8>, EntryModel>;

    closed spec fn view(&self) -> Map<Seq<u8>, EntryModel> {
        self.run@
    }
}

impl Memtable {
    /// The table's invariant: entries strictly ascending by key.
    pub closed spec fn well_formed(&self) -> bool {
        self.run.well_formed()
    }

    /// The entries in ascending key order.
    pub closed spec fn ordered(&self) -> Seq<EntryModel> {
        self.run.ordered()
    }

    /// The run of entries.
    pub closed spec fn spec_run(&self) -> SortedRun {
        self.run
    }

    /// The byte count charged so far.
    pub closed spec fn spec_usage(&self) -> u64 {
        self.usage
    }

    /// Size in bytes at which the table is full.
    pub closed spec fn spec_max_size(&self) -> usize {
        self.max_size
    }

    /// Fraction of the size limit, in thousandths, at which a flush is due.
    pub closed spec fn spec_flush_permille(&self) -> u32 {
        self.flush_threshold_permille
    }

    /// The backing structure selected at construction.
    pub closed spec fn spec_implementation(&self) -> MemtableImpl {
        self.implementation
    }

    /// The view is the run's.
    pub proof fn lemma_view(&self)
        ensures
            self@ == self.spec_run()@,
            self.ordered() == self.spec_run().ordered(),
            self.well_formed() == self.spec_run().well_formed(),
    {
    }

    /// An empty table backed by `implementation`.
    pub fn new(implementation: MemtableImpl, max_size: usize, flush_threshold_permille: u32) -> (r: Memtable)
        ensures
            r.well_formed(),
            r@ == Map::<Seq<u8>, EntryModel>::empty(),
            r.ordered().len() == 0,
            r.spec_usage() == 0,
            r.spec_max_size() == max_size,
            r.spec_flush_permille() == flush_threshold_permille,
            r.spec_implementation() == implementation,
    {
        Memtable { implementation, run: SortedRun::new(), usage: 0, max_size, flush_threshold_permille }
    }

    /// Size in bytes at which the table is full.
    pub fn max_size(&self) -> (r: usize)
        ensures
            r == self.spec_max_size(),
    {
        self.max_size
    }

    /// Fraction of the size limit, in thousandths, at which a flush is due.
    pub fn flush_threshold_permille(&self) -> (r: u32)
        ensures
            r == self.spec_flush_permille(),
    {
        self.flush_threshold_permille
    }

    /// The backing structure selected at construction.
    pub fn implementation(&self) -> (r: MemtableImpl)
        ensures
            r == self.spec_implementation(),
    {
        self.implementation
    }

    /// Installs `entry` as the entry of its key, in place of any earlier one, and
    /// charges its bytes in place of the earlier one's.
    pub fn insert(&mut self, entry: Entry)
        requires
            old(self).well_formed(),
        ensures
            final(self).well_formed(),
            final(self)@ == old(self)@.insert(entry.key@, entry@),
            final(self).spec_max_size() == old(self).spec_max_size(),
            final(self).spec_flush_permille() == old(self).spec_flush_permille(),
            final(self).spec_implementation() == old(self).spec_implementation(),
    {
        let add = charge(&entry);
        let sub = match self.run.get(&entry.key) {
            Some(e) => charge(&e),
            None => 0,
        };
        let base = if self.usage >= sub { self.usage - sub } else { 0 };
        self.usage = if base > u64::MAX - add { u64::MAX } else { base + add };
        self.run.insert(entry);
    }

    /// The entry of `key`: a put or a tombstone, if any.
    pub fn get(&self, key: &Key) -> (r: Option<Entry>)
        requires
            self.well_formed(),
        ensures
            r is Some <==> self@.contains_key(key@),
            r is Some ==> r.unwrap()@ == self@[key@],
    {
        self.run.get(key)
    }

    /// Installs a tombstone for `key` with sequence `sequence`.
    pub fn delete(&mut self, key: &Key, sequence: u64)
        requires
            old(self).well_formed(),
        ensures
            final(self).well_formed(),
            final(self)@ == old(self)@.insert(
                key@,
                EntryModel { key: key@, value: None, value_pointer: None, sequence, op_type: OpType::Delete },
            ),
            final(self).spec_max_size() == old(self).spec_max_size(),
            final(self).spec_flush_permille() == old(self).spec_flush_permille(),
            final(self).spec_implementation() == old(self).spec_implementation(),
    {
        let tombstone = Entry::delete(key.duplicate(), sequence);
        self.insert(tombstone);
    }

    /// Copies of the entries in ascending key order.
    pub fn iter(&self) -> (r: Vec<Entry>)
        ensures
            entry_models(r@) == self.ordered(),
    {
        self.run.iter()
    }

    /// The number of keys held.
    pub fn len(&self) -> (r: usize)
        requires
            self.well_formed(),
        ensures
            r == self@.len(),
    {
        self.run.len()
    }

    /// Whether no key is held.
    pub fn is_empty(&self) -> (r: bool)
        requires
            self.well_formed(),
        ensures
            r == (self@.len() == 0),
            r ==> self@ == Map::<Seq<u8>, EntryModel>::empty(),
    {
        self.run.is_empty()
    }

    /// The bytes charged for keys and inline values.
    pub fn memory_usage(&self) -> (r: u64)
        ensures
            r == self.spec_usage(),
    {
        self.usage
    }

    /// Whether usage has reached the flush threshold, a fraction of `max_size`.
    pub fn should_flush(&self) -> (r: bool)
        ensures
            r == (self.spec_usage() * 1000 >= self.spec_max_size() * self.spec_flush_permille()),
    {
        let a = self.usage as u128;
        let b = self.max_size as u128;
        let c = self.flush_threshold_permille as u128;
        assert(a * 1000 <= 0xffff_ffff_ffff_ffffu128 * 1000) by (nonlinear_arith)
            requires
                a <= 0xffff_ffff_ffff_ffffu128,
        ;
        assert(b * c <= 0xffff_ffff_ffff_ffffu128 * 0xffff_ffffu128) by (nonlinear_arith)
            requires
                b <= 0xffff_ffff_ffff_ffffu128,
                c <= 0xffff_ffffu128,
        ;
        a * 1000 >= b * c
    }

    /// Whether usage has reached `max_size`.
    pub fn is_full(&self) -> (r: bool)
        ensures
            r == (self.spec_usage() >= self.spec_max_size()),
    {
        self.usage >= self.max_size as u64
    }

    /// Drops every entry.
    pub fn clear(&mut self)
        ensures
            final(self).well_formed(),
            final(self)@ == Map::<Seq<u8>, EntryModel>::empty(),
            final(self).spec_usage() == 0,
            final(self).spec_max_size() == old(self).spec_max_size(),
            final(self).spec_flush_permille() == old(self).spec_flush_permille(),
            final(self).spec_implementation() == old(self).spec_implementation(),
    {
        self.run = SortedRun::new();
        self.usage = 0;
    }

    /// The entries as a run in ascending key order, leaving the table empty.
    pub fn take_run(&mut self) -> (r: SortedRun)
        ensures
            r == old(self).spec_run(),
            final(self).well_formed(),
            final(self)@ == Map::<Seq<u8>, EntryModel>::empty(),
            final(self).spec_usage() == 0,
            final(self).spec_max_size() == old(self).spec_max_size(),
            final(self).spec_flush_permille() == old(self).spec_flush_permille(),
            final(self).spec_implementation() == old(self).spec_implementation(),
    {
        let mut r = SortedRun::new();
        core::mem::swap(&mut r, &mut self.run);
        self.usage = 0;
        r
    }

    /// The entries in ascending key order, leaving the table empty.
    pub fn take_entries(&mut self) -> (r: Vec<Entry>)
        requires
            old(self).well_formed(),
        ensures
            entry_models(r@) == old(self).ordered(),
            final(self).well_formed(),
            final(self)@ == Map::<Seq<u8>, EntryModel>::empty(),
            final(self).spec_usage() == 0,
            final(self).spec_max_size() == old(self).spec_max_size(),
            final(self).spec_flush_permille() == old(self).spec_flush_permille(),
            final(self).spec_implementation() == old(self).spec_implementation(),
    {
        let mut run = self.take_run();
        run.take_entries()
    }
}

/// The bytes an entry is charged for, saturating.
fn charge(e: &Entry) -> (r: u64)
    ensures
        r == if entry_charge(*e) > u64::MAX { u64::MAX as int } else { entry_charge(*e) },
{
    let k = e.key.data.len() as u64;
    let v = match &e.value {
        Some(v) => v.data.len() as u64,
        None => 0,
    };
    if k > u64::MAX - v { u64::MAX } else { k + v }
}

/// A memtable backed by the chosen structure.
pub fn create_memtable(implementation: MemtableImpl, max_size: usize, flush_threshold_permille: u32) -> (r: Memtable)
    ensures
        r.well_formed(),
        r@ == Map::<Seq<u8>, EntryModel>::empty(),
        r.spec_usage() == 0,
        r.spec_max_size() == max_size,
        r.spec_flush_permille() == flush_threshold_permille,
        r.spec_implementation() == implementation,
{
    Memtable::new(implementation, max_size, flush_threshold_permille)
}

} // verus!

verus! {

impl Memtable {
    /// A copy of the entries as a run.
    pub fn run_copy(&self) -> (r: SortedRun)
        requires
            self.well_formed(),
        ensures
            r.well_formed(),
            r@ == self@,
    {
        self.run.duplicate()
    }
}

} // verus!
