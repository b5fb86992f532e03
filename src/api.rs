//! The engine: writes go to the value log (large values), the write-ahead log and the
//! memtable; reads merge the memtable with the sorted tables, newest first.
use vstd::prelude::*;
use vstd::string::StringSliceAdditionalSpecFns;
use crate::bytes::{bytes_lt, copy_bytes, in_bounds};
use crate::compactor::{compact_runs, layered, lemma_layered_absent, lemma_layered_cons, lemma_layered_lookup};
use crate::config::{Config, WalSyncPolicy};
use crate::error::Error;
use crate::memtable::Memtable;
use crate::run::{entries_map, keys_ascending, live_only, SortedRun};
use crate::sst::SstTable;
use crate::storage::{now_millis, Entry, EntryModel, Key, OpType, Range, Value};
use crate::vlog::{vlog_read, VlogWriter};
use crate::wal::{entry_model, frame_bytes, frameable, WalAppend, WalWriter};
use crate::wal_record::{RecordModel, WalRecord};

verus! {

/// The value an entry stands for: none for a tombstone, else its inline value or the
/// value its pointer reads in the value log.
pub open spec fn resolve_value(e: EntryModel, vlog: Seq<Seq<u8>>) -> Option<Seq<u8>> {
    if e.op_type == OpType::Delete {
        None
    } else {
        match e.value {
            Some(v) => Some(v),
            None => match e.value_pointer {
                Some(p) => vlog_read(vlog, p),
                None => None,
            },
        }
    }
}

/// The keys that have a value, with that value.
pub open spec fn visible(m: Map<Seq<u8>, EntryModel>, vlog: Seq<Seq<u8>>) -> Map<Seq<u8>, Seq<u8>> {
    Map::new(
        |k: Seq<u8>| m.contains_key(k) && resolve_value(m[k], vlog) is Some,
        |k: Seq<u8>| resolve_value(m[k], vlog).unwrap(),
    )
}

/// Every pointer that an entry carries reads a value.
pub open spec fn pointers_readable(m: Map<Seq<u8>, EntryModel>, vlog: Seq<Seq<u8>>) -> bool {
    forall|k: Seq<u8>|
        #[trigger] m.contains_key(k) && m[k].value is None && m[k].value_pointer is Some ==> vlog_read(
            vlog,
            m[k].value_pointer.unwrap(),
        ) is Some
}

/// The operations of a batch record; none for other records.
pub open spec fn batch_operations(m: RecordModel) -> Seq<RecordModel> {
    match m {
        RecordModel::Batch { operations, .. } => operations,
        _ => Seq::empty(),
    }
}

/// The timestamp that a record carries.
pub open spec fn record_timestamp(m: RecordModel) -> u64 {
    match m {
        RecordModel::Put { timestamp, .. } => timestamp,
        RecordModel::PutPointer { timestamp, .. } => timestamp,
        RecordModel::Delete { timestamp, .. } => timestamp,
        RecordModel::Batch { timestamp, .. } => timestamp,
    }
}

/// Visible pairs: key bytes to value bytes.
pub type KeyValues = Map<Seq<u8>, Seq<u8>>;

/// The frames handed out for the log, each with whether it must be forced to disk.
pub open spec fn pending_view(s: Seq<WalAppend>) -> Seq<(Seq<u8>, bool)> {
    s.map_values(|a: WalAppend| (a.frame@, a.sync))
}

/// The force-to-disk flag that a sync policy allows: always under `EveryWrite`, never
/// under `Manual` or a timer, either under `EveryNWrites`.
pub open spec fn sync_fits(policy: WalSyncPolicy, sync: bool) -> bool {
    match policy {
        WalSyncPolicy::EveryWrite => sync,
        WalSyncPolicy::EveryNWrites(_) => true,
        _ => !sync,
    }
}

/// A log record that replays as storing `v` under `k`.
pub open spec fn records_put(m: RecordModel, k: Seq<u8>, v: Seq<u8>, vlog: Seq<Seq<u8>>) -> bool {
    match m {
        RecordModel::Put { key, value, .. } => key == k && value == v,
        RecordModel::PutPointer { key, value_pointer, .. } => key == k && vlog_read(vlog, value_pointer) == Some(v),
        _ => false,
    }
}

/// How many of the maps hold key `k`.
pub open spec fn holding(maps: Seq<Map<Seq<u8>, EntryModel>>, k: Seq<u8>) -> nat
    decreases maps.len(),
{
    if maps.len() == 0 {
        0
    } else {
        holding(maps.drop_last(), k) + if maps.last().contains_key(k) { 1nat } else { 0nat }
    }
}

/// Value log growth that keeps every readable pointer's value keeps what is visible.
pub proof fn lemma_visible_stable(m: Map<Seq<u8>, EntryModel>, v0: Seq<Seq<u8>>, v1: Seq<Seq<u8>>)
    requires
        pointers_readable(m, v0),
        forall|p| #[trigger] vlog_read(v0, p) is Some ==> vlog_read(v1, p) == vlog_read(v0, p),
    ensures
        visible(m, v1) == visible(m, v0),
        pointers_readable(m, v1),
        forall|k: Seq<u8>| #[trigger] m.contains_key(k) ==> resolve_value(m[k], v1) == resolve_value(m[k], v0),
{
    assert forall|k: Seq<u8>| #[trigger] m.contains_key(k) implies resolve_value(m[k], v1) == resolve_value(m[k], v0) by {
        if m[k].value is None && m[k].value_pointer is Some {
            assert(vlog_read(v0, m[k].value_pointer.unwrap()) is Some);
        }
    }
    assert(visible(m, v1) =~= visible(m, v0));
}

/// The engine.
#[derive(Debug)]
pub struct AuraEngine {
    config: Config,
    memtable: Memtable,
    tables: Vec<SstTable>,
    wal: WalWriter,
    vlog: VlogWriter,
    next_sequence: u64,
    next_table_id: u64,
    pending: Vec<WalAppend>,
    closed: bool,
}

/// The maps of the tables, newest first.
pub open spec fn table_maps(tables: Seq<SstTable>) -> Seq<Map<Seq<u8>, EntryModel>> {
    tables.map_values(|t: SstTable| t@)
}

impl View for AuraEngine {
    type V = Map<Seq<u8>, Seq<u8>>;

    closed spec fn view(&self) -> Map<Seq<u8>, Seq<u8>> {
        visible(self.state(), self.vlog@)
    }
}

impl AuraEngine {
    /// The runs, newest first: memtable, then tables.
    pub closed spec fn layers(&self) -> Seq<Map<Seq<u8>, EntryModel>> {
        seq![self.memtable@] + table_maps(self.tables@)
    }

    /// Each key's newest entry.
    pub closed spec fn state(&self) -> Map<Seq<u8>, EntryModel> {
        layered(self.layers())
    }

    /// Room for a batch: the engine is open, the batch acceptable, and sequence
    /// numbers, log numbering, segment ids and frame size suffice.
    pub open spec fn batch_room(&self, ops: Seq<Entry>) -> bool {
        &&& !self.is_closed()
        &&& batch_acceptable(ops)
        &&& self.spec_next_sequence() + ops.len() < u64::MAX
        &&& self.wal_sequence() < u64::MAX
        &&& self.spec_vlog().len() + ops.len() + 1 < u64::MAX
        &&& self.spec_max_segment() <= 0x4000_0000_0000_0000
        &&& values_fit(ops)
        &&& batch_bytes_bound(ops) + 64 <= u32::MAX
    }

    /// The log frames not yet handed to the caller, oldest first, with their sync flags.
    pub closed spec fn spec_pending(&self) -> Seq<(Seq<u8>, bool)> {
        pending_view(self.pending@)
    }

    /// The log's sync policy.
    pub closed spec fn spec_sync_policy(&self) -> WalSyncPolicy {
        self.wal.spec_config().sync_policy
    }

    /// The memtable's entries by key.
    pub closed spec fn spec_memtable(&self) -> Map<Seq<u8>, EntryModel> {
        self.memtable@
    }

    /// Number of keys in the memtable.
    pub open spec fn spec_memtable_len(&self) -> nat {
        self.spec_memtable().len()
    }

    /// How many tables hold an entry for `k`.
    pub closed spec fn spec_holding(&self, k: Seq<u8>) -> nat {
        holding(table_maps(self.tables@), k)
    }

    /// The value log's segment size limit.
    pub closed spec fn spec_max_segment(&self) -> u64 {
        self.vlog.config_max_segment()
    }

    /// Table ids not yet used.
    pub closed spec fn spec_table_ids_left(&self) -> int {
        u64::MAX - self.next_table_id
    }

    /// The value log's segments.
    pub closed spec fn spec_vlog(&self) -> Seq<Seq<u8>> {
        self.vlog@
    }

    pub closed spec fn is_closed(&self) -> bool {
        self.closed
    }

    /// The sequence number of the next write.
    pub closed spec fn spec_next_sequence(&self) -> u64 {
        self.next_sequence
    }

    /// Number of sorted tables.
    pub closed spec fn spec_table_count(&self) -> nat {
        self.tables@.len()
    }

    /// The value size from which values go to the value log.
    pub closed spec fn spec_threshold(&self) -> usize {
        self.config.value_log.separation_threshold
    }

    pub closed spec fn well_formed(&self) -> bool {
        &&& self.memtable.well_formed()
        &&& forall|i: int| 0 <= i < self.tables@.len() ==> (#[trigger] self.tables@[i]).well_formed()
        &&& self.vlog.well_formed()
        &&& pointers_readable(self.state(), self.vlog@)
    }

    /// Room for one more write: sequence numbers, log numbering and segment ids left,
    /// and a segment size limit that keeps offsets in range.
    pub closed spec fn has_room(&self) -> bool {
        &&& self.next_sequence < u64::MAX
        &&& self.wal.spec_sequence() < u64::MAX
        &&& self.vlog@.len() + 1 < u64::MAX
        &&& self.vlog.config_max_segment() <= 0x4000_0000_0000_0000
        &&& self.next_table_id < u64::MAX
    }

    /// An engine with nothing stored, configured by `config`.
    pub fn new(config: Config) -> (r: AuraEngine)
        ensures
            r.well_formed(),
            r@ == Map::<Seq<u8>, Seq<u8>>::empty(),
            r.state() == Map::<Seq<u8>, EntryModel>::empty(),
            !r.is_closed(),
            r.spec_next_sequence() == 1,
            r.spec_table_count() == 0,
            r.spec_pending().len() == 0,
            r.spec_sync_policy() == config.wal.sync_policy,
            r.spec_threshold() == config.value_log.separation_threshold,
            config.value_log.max_segment_size <= 0x4000_0000_0000_0000 ==> r.has_room(),
    {
        let memtable = Memtable::new(
            config.memtable.implementation,
            config.memtable.max_size,
            config.memtable.flush_threshold_permille,
        );
        let wal = WalWriter::new(config.wal.duplicate());
        let vlog = VlogWriter::new(config.value_log.duplicate());
        let r = AuraEngine {
            config,
            memtable,
            tables: Vec::new(),
            wal,
            vlog,
            next_sequence: 1,
            next_table_id: 1,
            pending: Vec::new(),
            closed: false,
        };
        proof {
            assert(table_maps(r.tables@) =~= Seq::<Map<Seq<u8>, EntryModel>>::empty());
            lemma_layered_cons(r.memtable@, table_maps(r.tables@));
            assert(layered(Seq::<Map<Seq<u8>, EntryModel>>::empty()) == Map::<Seq<u8>, EntryModel>::empty());
            assert(r.state() =~= Map::<Seq<u8>, EntryModel>::empty());
            assert(r@ =~= Map::<Seq<u8>, Seq<u8>>::empty());
        }
        r
    }

    /// The newest entry of `key`, a put or a tombstone, if any.
    fn find_entry(&self, key: &Key) -> (r: Option<Entry>)
        requires
            self.well_formed(),
        ensures
            r is Some <==> self.state().contains_key(key@),
            r is Some ==> r.unwrap()@ == self.state()[key@],
    {
        let ghost layers = self.layers();
        proof {
            lemma_layered_cons(self.memtable@, table_maps(self.tables@));
        }
        match self.memtable.get(key) {
            Some(e) => {
                return Some(e);
            },
            None => {},
        }
        let mut i: usize = 0;
        while i < self.tables.len()
            invariant
                self.well_formed(),
                layers == self.layers(),
                0 <= i <= self.tables@.len(),
                forall|j: int| 0 <= j < i + 1 ==> !(#[trigger] layers[j]).contains_key(key@),
            decreases self.tables@.len() - i,
        {
            match self.tables[i].get(key) {
                Some(e) => {
                    proof {
                        assert(layers[i + 1] == self.tables@[i as int]@);
                        lemma_layered_lookup(layers, i + 1, key@);
                    }
                    return Some(e);
                },
                None => {
                    proof {
                        assert(layers[i + 1] == self.tables@[i as int]@);
                    }
                },
            }
            i = i + 1;
        }
        proof {
            lemma_layered_absent(layers, key@);
        }
        None
    }

    /// The value of `key`, if it has one.
    pub fn get(&self, key: &Key) -> (r: Result<Option<Value>, Error>)
        requires
            self.well_formed(),
        ensures
            r is Ok,
            r.unwrap() is Some <==> self@.contains_key(key@),
            r.unwrap() is Some ==> r.unwrap().unwrap()@ == self@[key@],
    {
        match self.find_entry(key) {
            None => Ok(None),
            Some(e) => {
                if e.is_delete() {
                    return Ok(None);
                }
                match &e.value {
                    Some(v) => Ok(Some(v.duplicate())),
                    None => match e.value_pointer {
                        Some(p) => {
                            match self.vlog.read_value(&p) {
                                Ok(v) => Ok(Some(v)),
                                Err(_) => Ok(None),
                            }
                        },
                        None => Ok(None),
                    },
                }
            },
        }
    }

    /// Decides where a value is kept: values of at least the separation threshold are
    /// appended to the value log and the entry carries their pointer; smaller ones are
    /// kept inline. Returns the entry and the log record for it.
    fn separate(&mut self, key: Key, value: Value, sequence: u64, now: u64) -> (r: Result<(Entry, WalRecord), Error>)
        requires
            old(self).well_formed(),
        ensures
            final(self).well_formed(),
            final(self).state() == old(self).state(),
            final(self)@ == old(self)@,
            final(self).is_closed() == old(self).is_closed(),
            final(self).spec_next_sequence() == old(self).spec_next_sequence(),
            final(self).spec_threshold() == old(self).spec_threshold(),
            final(self).wal_sequence() == old(self).wal_sequence(),
            final(self).spec_pending() == old(self).spec_pending(),
            final(self).spec_sync_policy() == old(self).spec_sync_policy(),
            forall|p| #[trigger] vlog_read(old(self).spec_vlog(), p) is Some ==> vlog_read(final(self).spec_vlog(), p) == vlog_read(old(self).spec_vlog(), p),
            r is Ok ==> {
                let (e, rec) = r.unwrap();
                &&& records_put(rec@, key@, value@, final(self).spec_vlog())
                &&& record_sequence(rec@) == sequence
                &&& (value@.len() >= old(self).spec_threshold() ==> rec@ is PutPointer && frame_bytes(rec@).len() <= key@.len() + 64)
                &&& e@.key == key@
                &&& e@.sequence == sequence
                &&& e@.op_type == OpType::Put
                &&& resolve_value(e@, final(self).spec_vlog()) == Some(value@)
                &&& (e@.value is None && e@.value_pointer is Some ==> vlog_read(final(self).spec_vlog(), e@.value_pointer.unwrap()) is Some)
                &&& (e@.value_pointer is Some <==> value@.len() >= old(self).spec_threshold())
                &&& (e@.value is Some <==> value@.len() < old(self).spec_threshold())
                &&& rec@.well_formed()
                &&& (key@.len() <= 0x4000_0000 && value@.len() <= 0x4000_0000 ==> frameable(rec@))
            },
            value@.len() <= u32::MAX && old(self).has_room() ==> r is Ok,
    {
        let ghost v0 = self.vlog@;
        let ghost vb = value@;
        if value.is_large(self.config.value_log.separation_threshold) {
            let ptr = match self.vlog.write_value_sync(&value, now) {
                Ok(p) => p,
                Err(e) => {
                    proof {
                        lemma_visible_stable(self.state(), v0, self.vlog@);
                    }
                    return Err(e);
                },
            };
            proof {
                lemma_visible_stable(self.state(), v0, self.vlog@);
            }
            let record = WalRecord::PutPointer { key: copy_bytes(key.as_bytes()), value_pointer: ptr, sequence, timestamp: now };
            let _kl = key.len();
            Ok((Entry::with_pointer(key, ptr, sequence), record))
        } else {
            let record = WalRecord::Put {
                key: copy_bytes(key.as_bytes()),
                value: copy_bytes(value.as_bytes()),
                sequence,
                timestamp: now,
            };
            let _kl = key.len();
            let _vl = value.len();
            Ok((Entry::new(key, value, sequence), record))
        }
    }

    pub closed spec fn wal_sequence(&self) -> u64 {
        self.wal.spec_sequence()
    }

    /// Stores `value` under `key`; values of at least the separation threshold go to the
    /// value log and the log and memtable carry their pointer.
    pub fn put(&mut self, key: Key, value: Value) -> (r: Result<(), Error>)
        requires
            old(self).well_formed(),
        ensures
            final(self).well_formed(),
            r is Ok ==> final(self)@ == old(self)@.insert(key@, value@),
            r is Err ==> final(self)@ == old(self)@,
            old(self).is_closed() || key@.len() == 0 ==> r is Err,
            !old(self).is_closed() && 0 < key@.len() <= 0x4000_0000 && value@.len() <= 0x4000_0000
                && old(self).has_room() ==> r is Ok,
            final(self).is_closed() == old(self).is_closed(),
            r is Ok ==> final(self).state().contains_key(key@) && (final(self).state()[key@].value_pointer is Some
                <==> value@.len() >= old(self).spec_threshold()),
            r is Ok ==> (final(self).state()[key@].value is Some <==> value@.len() < old(self).spec_threshold()),
            r is Ok ==> final(self).spec_next_sequence() == old(self).spec_next_sequence() + 1
                && final(self).state()[key@].sequence == old(self).spec_next_sequence()
                && final(self).state()[key@].op_type == OpType::Put,
            r is Err ==> final(self).spec_next_sequence() == old(self).spec_next_sequence(),
            r is Err ==> final(self).spec_pending() == old(self).spec_pending(),
            r is Ok ==> final(self).spec_pending().len() == old(self).spec_pending().len() + 1
                && final(self).spec_pending().drop_last() == old(self).spec_pending()
                && sync_fits(old(self).spec_sync_policy(), final(self).spec_pending().last().1),
            r is Ok ==> exists|m: RecordModel|
                #[trigger] records_put(m, key@, value@, final(self).spec_vlog()) && frameable(m)
                    && final(self).spec_pending().last().0 == frame_bytes(m)
                    && record_sequence(m) == old(self).spec_next_sequence()
                    && (value@.len() >= old(self).spec_threshold() ==> m is PutPointer && frame_bytes(m).len() <= key@.len() + 64),
            final(self).spec_sync_policy() == old(self).spec_sync_policy(),
    {
        if self.closed {
            return Err(Error::Concurrency(String::from_str("engine is closed")));
        }
        if key.len() == 0 {
            return Err(Error::Unknown(String::from_str("empty key")));
        }
        if self.next_sequence == u64::MAX {
            return Err(Error::Concurrency(String::from_str("sequence numbers exhausted")));
        }
        let now = now_millis();
        let sequence = self.next_sequence;
        let ghost k = key@;
        let ghost vb = value@;
        let (entry, record) = match self.separate(key, value, sequence, now) {
            Ok(x) => x,
            Err(e) => return Err(e),
        };
        let append = match self.wal.write_record(&record, now) {
            Ok(a) => a,
            Err(e) => return Err(e),
        };
        let ghost before = self.pending@;
        let ghost item = (append.frame@, append.sync);
        self.pending.push(append);
        proof {
            assert(pending_view(self.pending@) =~= pending_view(before).push(item));
        }
        let ghost em = entry@;
        self.install(entry);
        self.next_sequence = sequence + 1;
        proof {
            assert(self@ =~= old(self)@.insert(k, vb));
        }
        self.flush_if_due();
        proof {
            assert(records_put(record@, k, vb, self.vlog@));
        }
        Ok(())
    }

    /// Installs a tombstone for `key`.
    pub fn delete(&mut self, key: &Key) -> (r: Result<(), Error>)
        requires
            old(self).well_formed(),
        ensures
            final(self).well_formed(),
            r is Ok ==> final(self)@ == old(self)@.remove(key@),
            r is Err ==> final(self)@ == old(self)@,
            old(self).is_closed() || key@.len() == 0 ==> r is Err,
            !old(self).is_closed() && 0 < key@.len() <= 0x4000_0000 && old(self).has_room() ==> r is Ok,
            final(self).is_closed() == old(self).is_closed(),
            r is Ok ==> final(self).spec_next_sequence() == old(self).spec_next_sequence() + 1
                && final(self).state()[key@].sequence == old(self).spec_next_sequence(),
            r is Err ==> final(self).spec_next_sequence() == old(self).spec_next_sequence(),
            r is Err ==> final(self).spec_pending() == old(self).spec_pending(),
            r is Ok ==> final(self).spec_pending().len() == old(self).spec_pending().len() + 1
                && final(self).spec_pending().drop_last() == old(self).spec_pending()
                && sync_fits(old(self).spec_sync_policy(), final(self).spec_pending().last().1),
            r is Ok ==> exists|m: RecordModel|
                #[trigger] frame_bytes(m) == final(self).spec_pending().last().0 && frameable(m)
                    && m == (RecordModel::Delete { key: key@, sequence: old(self).spec_next_sequence(), timestamp: record_timestamp(m) }),
            final(self).spec_sync_policy() == old(self).spec_sync_policy(),
    {
        if self.closed {
            return Err(Error::Concurrency(String::from_str("engine is closed")));
        }
        if key.len() == 0 {
            return Err(Error::Unknown(String::from_str("empty key")));
        }
        if self.next_sequence == u64::MAX {
            return Err(Error::Concurrency(String::from_str("sequence numbers exhausted")));
        }
        let now = now_millis();
        let sequence = self.next_sequence;
        let record = WalRecord::Delete { key: copy_bytes(key.as_bytes()), sequence, timestamp: now };
        let append = match self.wal.write_record(&record, now) {
            Ok(a) => a,
            Err(e) => return Err(e),
        };
        let ghost before = self.pending@;
        let ghost item = (append.frame@, append.sync);
        self.pending.push(append);
        proof {
            assert(pending_view(self.pending@) =~= pending_view(before).push(item));
        }
        let ghost s0 = self.state();
        self.memtable.delete(key, sequence);
        self.next_sequence = sequence + 1;
        proof {
            lemma_layered_cons(old(self).memtable@, table_maps(self.tables@));
            lemma_layered_cons(self.memtable@, table_maps(self.tables@));
            let tomb = EntryModel { key: key@, value: None, value_pointer: None, sequence, op_type: OpType::Delete };
            assert(self.state() =~= s0.insert(key@, tomb));
            assert(self@ =~= old(self)@.remove(key@));
        }
        self.flush_if_due();
        proof {
            assert(frame_bytes(record@) == self.spec_pending().last().0);
        }
        Ok(())
    }

    /// Flushes the memtable when it has reached its threshold.
    fn flush_if_due(&mut self)
        requires
            old(self).well_formed(),
        ensures
            final(self).well_formed(),
            final(self)@ == old(self)@,
            final(self).state() == old(self).state(),
            final(self).spec_threshold() == old(self).spec_threshold(),
            final(self).is_closed() == old(self).is_closed(),
            final(self).spec_next_sequence() == old(self).spec_next_sequence(),
            final(self).spec_pending() == old(self).spec_pending(),
            final(self).spec_sync_policy() == old(self).spec_sync_policy(),
            final(self).spec_vlog() == old(self).spec_vlog(),
            final(self).wal_sequence() == old(self).wal_sequence(),
    {
        if self.memtable.should_flush() {
            self.flush();
        }
    }

    /// Turns the memtable into a new level 0 table; what is visible does not change.
    pub fn flush(&mut self)
        requires
            old(self).well_formed(),
        ensures
            final(self).well_formed(),
            final(self)@ == old(self)@,
            final(self).state() == old(self).state(),
            final(self).spec_threshold() == old(self).spec_threshold(),
            final(self).is_closed() == old(self).is_closed(),
            final(self).spec_next_sequence() == old(self).spec_next_sequence(),
            final(self).spec_table_ids_left() >= old(self).spec_table_ids_left() - 1,
            final(self).spec_pending() == old(self).spec_pending(),
            final(self).spec_sync_policy() == old(self).spec_sync_policy(),
            final(self).spec_vlog() == old(self).spec_vlog(),
            final(self).wal_sequence() == old(self).wal_sequence(),
            old(self).spec_memtable_len() > 0 && old(self).spec_table_ids_left() >= 1 ==> final(self).spec_memtable_len() == 0
                && final(self).spec_table_count() == old(self).spec_table_count() + 1
                && final(self).spec_table_ids_left() == old(self).spec_table_ids_left() - 1,
            old(self).spec_table_ids_left() >= 1 ==> final(self).spec_memtable() == Map::<Seq<u8>, EntryModel>::empty(),
            !(old(self).spec_memtable_len() > 0 && old(self).spec_table_ids_left() >= 1) ==> final(self).spec_table_count()
                == old(self).spec_table_count() && final(self).spec_memtable_len() == old(self).spec_memtable_len()
                && final(self).spec_table_ids_left() == old(self).spec_table_ids_left(),
    {
        if self.memtable.is_empty() || self.next_table_id == u64::MAX {
            return;
        }
        let ghost s0 = self.state();
        let ghost t0 = table_maps(self.tables@);
        let run = self.memtable.take_run();
        proof {
            old(self).memtable.lemma_view();
        }
        let table = SstTable::new(run, 0, self.next_table_id);
        self.next_table_id = self.next_table_id + 1;
        self.tables.insert(0, table);
        proof {
            assert(table_maps(self.tables@) =~= seq![table@] + t0);
            lemma_layered_cons(old(self).memtable@, t0);
            lemma_layered_cons(table@, t0);
            lemma_layered_cons(self.memtable@, seq![table@] + t0);
            assert(self.state() =~= s0);
            assert forall|i: int| 0 <= i < self.tables@.len() implies (#[trigger] self.tables@[i]).well_formed() by {
                if i > 0 {
                    assert(self.tables@[i] == old(self).tables@[i - 1]);
                }
            }
        }
    }

    /// Merges every table into one bottom-level table, keeping each key's newest entry
    /// and dropping tombstones; what is visible does not change.
    pub fn compact(&mut self) -> (r: Result<(), Error>)
        requires
            old(self).well_formed(),
        ensures
            final(self).well_formed(),
            final(self)@ == old(self)@,
            r is Ok,
            final(self).is_closed() == old(self).is_closed(),
            final(self).spec_next_sequence() == old(self).spec_next_sequence(),
            final(self).spec_pending() == old(self).spec_pending(),
            final(self).spec_sync_policy() == old(self).spec_sync_policy(),
            final(self).spec_vlog() == old(self).spec_vlog(),
            final(self).wal_sequence() == old(self).wal_sequence(),
            old(self).spec_table_ids_left() >= 2 ==> final(self).spec_table_count() == 1
                && final(self).spec_memtable() == Map::<Seq<u8>, EntryModel>::empty()
                && forall|k: Seq<u8>| #[trigger] final(self).spec_holding(k) == if old(self).state().contains_key(k)
                    && old(self).state()[k].op_type != OpType::Delete { 1nat } else { 0nat },
    {
        self.flush();
        if self.next_table_id == u64::MAX {
            return Ok(());
        }
        let ghost s1 = self.state();
        let ghost mem = self.memtable@;
        let mut tables: Vec<SstTable> = Vec::new();
        core::mem::swap(&mut tables, &mut self.tables);
        let ghost tmaps = table_maps(tables@);
        let mut runs: Vec<SortedRun> = Vec::new();
        let mut i: usize = 0;
        let n = tables.len();
        let mut rest = tables;
        let mut taken: Vec<SstTable> = Vec::new();
        while rest.len() > 0
            invariant
                rest@.len() + runs@.len() == n,
                tmaps.len() == n,
                forall|j: int| 0 <= j < runs@.len() ==> (#[trigger] runs@[j]).well_formed() && runs@[j]@ == tmaps[j],
                forall|j: int| 0 <= j < rest@.len() ==> (#[trigger] rest@[j]).well_formed() && rest@[j]@ == tmaps[runs@.len() + j],
            decreases rest@.len(),
        {
            let t = rest.remove(0);
            runs.push(t.into_run());
        }
        proof {
            assert(runs@.map_values(|x: SortedRun| x@) =~= tmaps);
        }
        let merged = compact_runs(runs, true);
        let table = SstTable::new(merged, 1, self.next_table_id);
        self.next_table_id = self.next_table_id + 1;
        self.tables.push(table);
        proof {
            lemma_layered_cons(mem, tmaps);
            assert(s1 == layered(tmaps).union_prefer_right(mem));
            assert(table_maps(self.tables@) =~= seq![live_only(layered(tmaps))]);
            lemma_layered_cons(mem, seq![live_only(layered(tmaps))]);
            lemma_layered_cons(live_only(layered(tmaps)), Seq::empty());
            assert(layered(Seq::<Map<Seq<u8>, EntryModel>>::empty()) == Map::<Seq<u8>, EntryModel>::empty());
            let s2 = self.state();
            assert(s2 =~= live_only(layered(tmaps)).union_prefer_right(mem));
            assert forall|k: Seq<u8>| #[trigger] s2.contains_key(k) implies s1.contains_key(k) && s2[k] == s1[k] by {}
            assert(self@ =~= old(self)@);
            if old(self).spec_table_ids_left() >= 2 {
                assert(mem == Map::<Seq<u8>, EntryModel>::empty());
                assert(s1 =~= layered(tmaps));
                let one = table_maps(self.tables@);
                assert forall|k: Seq<u8>| #[trigger] self.spec_holding(k) == if old(self).state().contains_key(k)
                    && old(self).state()[k].op_type != OpType::Delete { 1nat } else { 0nat } by {
                    assert(one.drop_last() =~= Seq::<Map<Seq<u8>, EntryModel>>::empty());
                    assert(holding(one.drop_last(), k) == 0);
                    assert(one.last() == live_only(layered(tmaps)));
                    assert(s1 == old(self).state());
                    assert(self.spec_holding(k) == holding(one, k));
                    assert(live_only(layered(tmaps)).contains_key(k) == (old(self).state().contains_key(k)
                        && old(self).state()[k].op_type != OpType::Delete));
                }
            }
        }
        Ok(())
    }

    /// How many tables hold an entry for `key`.
    pub fn tables_holding(&self, key: &Key) -> (r: usize)
        requires
            self.well_formed(),
        ensures
            r == self.spec_holding(key@),
            r <= self.spec_table_count(),
    {
        let mut count: usize = 0;
        let mut i: usize = 0;
        let ghost maps = table_maps(self.tables@);
        while i < self.tables.len()
            invariant
                self.well_formed(),
                maps == table_maps(self.tables@),
                0 <= i <= self.tables@.len(),
                count <= i,
                count == holding(maps.take(i as int), key@),
            decreases self.tables@.len() - i,
        {
            proof {
                assert(maps.take(i + 1).drop_last() =~= maps.take(i as int));
                assert(maps.take(i + 1).last() == self.tables@[i as int]@);
            }
            if self.tables[i].get(key).is_some() {
                count = count + 1;
            }
            i = i + 1;
        }
        proof {
            assert(maps.take(i as int) =~= maps);
        }
        count
    }

    /// The number of sorted tables.
    pub fn table_count(&self) -> (r: usize)
        ensures
            r == self.spec_table_count(),
    {
        self.tables.len()
    }

    /// The log work not yet handed to the caller, oldest first; the caller appends each
    /// frame, opening a new file first where asked, and forces it to disk where asked.
    pub fn take_pending(&mut self) -> (r: Vec<WalAppend>)
        requires
            old(self).well_formed(),
        ensures
            final(self).well_formed(),
            final(self)@ == old(self)@,
            final(self).is_closed() == old(self).is_closed(),
            final(self).spec_next_sequence() == old(self).spec_next_sequence(),
            final(self).has_room() == old(self).has_room(),
            pending_view(r@) == old(self).spec_pending(),
            final(self).spec_pending().len() == 0,
            final(self).spec_vlog() == old(self).spec_vlog(),
            final(self).spec_sync_policy() == old(self).spec_sync_policy(),
    {
        let mut out: Vec<WalAppend> = Vec::new();
        core::mem::swap(&mut out, &mut self.pending);
        assert(pending_view(self.pending@) =~= Seq::<(Seq<u8>, bool)>::empty());
        out
    }

    /// The value log.
    pub fn vlog(&self) -> (r: &VlogWriter)
        ensures
            r@ == self.spec_vlog(),
    {
        &self.vlog
    }

    /// The sequence number of the next write.
    pub fn next_sequence(&self) -> (r: u64)
        ensures
            r == self.spec_next_sequence(),
    {
        self.next_sequence
    }

    /// Stops accepting writes.
    pub fn close(&mut self) -> (r: Result<(), Error>)
        requires
            old(self).well_formed(),
        ensures
            r is Ok,
            final(self).well_formed(),
            final(self).is_closed(),
            final(self)@ == old(self)@,
    {
        self.closed = true;
        let _sealed = self.wal.close();
        self.vlog.close();
        Ok(())
    }

    /// Whether the engine has been closed.
    pub fn closed(&self) -> (r: bool)
        ensures
            r == self.is_closed(),
    {
        self.closed
    }
}

impl SstTable {
    /// The table's run.
    pub fn into_run(self) -> (r: SortedRun)
        ensures
            r == self.spec_run(),
            r@ == self@,
            r.well_formed() == self.well_formed(),
    {
        self.run_part()
    }
}

} // verus!

verus! {

/// Pairs in strictly ascending key order.
pub open spec fn pairs_ascending(out: Seq<(Key, Value)>) -> bool {
    forall|a: int, b: int| 0 <= a < b < out.len() ==> bytes_lt(#[trigger] out[a].0@, #[trigger] out[b].0@)
}

/// What a range read returns: pairs of `view` within the bounds, in ascending key order,
/// every such pair up to the row limit.
pub open spec fn range_result(
    out: Seq<(Key, Value)>,
    view: Map<Seq<u8>, Seq<u8>>,
    start: Option<Seq<u8>>,
    end: Option<Seq<u8>>,
    limit: Option<usize>,
) -> bool {
    &&& forall|j: int|
        0 <= j < out.len() ==> in_bounds(#[trigger] out[j].0@, start, end) && view.contains_key(out[j].0@)
            && view[out[j].0@] == out[j].1@
    &&& pairs_ascending(out)
    &&& match limit {
        Some(l) => out.len() <= l,
        None => true,
    }
    &&& forall|k: Seq<u8>|
        #[trigger] view.contains_key(k) && in_bounds(k, start, end) ==> (exists|j: int| 0 <= j < out.len() && #[trigger] out[j].0@ == k)
            || (limit == Some(out.len() as usize) && (out.len() == 0 || bytes_lt(out.last().0@, k)))
}

impl AuraEngine {
    /// Every key's newest live entry, as one run.
    fn merged_view(&self) -> (r: SortedRun)
        requires
            self.well_formed(),
        ensures
            r.well_formed(),
            r@ == live_only(self.state()),
    {
        let mut runs: Vec<SortedRun> = Vec::new();
        runs.push(self.memtable.run_copy());
        let mut i: usize = 0;
        while i < self.tables.len()
            invariant
                self.well_formed(),
                0 <= i <= self.tables@.len(),
                runs@.len() == i + 1,
                forall|j: int| 0 <= j < runs@.len() ==> (#[trigger] runs@[j]).well_formed() && runs@[j]@ == self.layers()[j],
            decreases self.tables@.len() - i,
        {
            runs.push(self.tables[i].run_copy());
            proof {
                assert(self.layers()[i + 1] == self.tables@[i as int]@);
            }
            i = i + 1;
        }
        proof {
            assert(runs@.map_values(|x: SortedRun| x@) =~= self.layers());
        }
        compact_runs(runs, true)
    }

    /// What the merged run's entry at `i` makes visible.
    proof fn lemma_merged_entry(&self, entries: Seq<Entry>, i: int)
        requires
            self.well_formed(),
            keys_ascending(entries),
            entries_map(entries) == live_only(self.state()),
            0 <= i < entries.len(),
        ensures
            entries[i]@.op_type != OpType::Delete,
            self@.contains_key(entries[i].key@) <==> resolve_value(entries[i]@, self.vlog@) is Some,
            self@.contains_key(entries[i].key@) ==> self@[entries[i].key@] == resolve_value(entries[i]@, self.vlog@).unwrap(),
    {
        crate::run::lemma_entry_for(entries, i);
        let k = entries[i].key@;
        assert(entries_map(entries).contains_key(k));
        assert(live_only(self.state()).contains_key(k));
        assert(entries_map(entries)[k] == entries[i]@);
        assert(live_only(self.state())[k] == self.state()[k]);
        assert(self.state()[k] == entries[i]@);
    }

    /// The value an entry of the merged run stands for.
    fn entry_value(&self, e: &Entry) -> (r: Option<Value>)
        requires
            self.well_formed(),
            e@.op_type != OpType::Delete,
        ensures
            r is Some <==> resolve_value(e@, self.vlog@) is Some,
            r is Some ==> r.unwrap()@ == resolve_value(e@, self.vlog@).unwrap(),
    {
        match &e.value {
            Some(v) => Some(v.duplicate()),
            None => match e.value_pointer {
                Some(p) => match self.vlog.read_value(&p) {
                    Ok(v) => Some(v),
                    Err(_) => None,
                },
                None => None,
            },
        }
    }

    /// The visible pairs within the bounds, in ascending key order, at most `limit`.
    fn collect(&self, start: Option<&Key>, end: Option<&Key>, limit: Option<usize>) -> (r: Vec<(Key, Value)>)
        requires
            self.well_formed(),
        ensures
            range_result(
                r@,
                self@,
                match start { Some(s) => Some(s@), None => None },
                match end { Some(e) => Some(e@), None => None },
                limit,
            ),
    {
        let ghost sb = match start { Some(s) => Some(s@), None => None::<Seq<u8>> };
        let ghost eb = match end { Some(e) => Some(e@), None => None::<Seq<u8>> };
        let merged = self.merged_view();
        let entries = merged.entries();
        let ghost view = self@;
        let mut out: Vec<(Key, Value)> = Vec::new();
        let mut i: usize = 0;
        while i < entries.len()
            invariant
                self.well_formed(),
                view == self@,
                sb == match start { Some(s) => Some(s@), None => None::<Seq<u8>> },
                eb == match end { Some(e) => Some(e@), None => None::<Seq<u8>> },
                keys_ascending(entries@),
                entries_map(entries@) == live_only(self.state()),
                0 <= i <= entries@.len(),
                forall|j: int| 0 <= j < out@.len() ==> in_bounds(#[trigger] out@[j].0@, sb, eb) && view.contains_key(out@[j].0@)
                    && view[out@[j].0@] == out@[j].1@,
                forall|j: int, x: int| 0 <= j < out@.len() && i <= x < entries@.len() ==> bytes_lt(#[trigger] out@[j].0@, #[trigger] entries@[x].key@),
                pairs_ascending(out@),
                match limit { Some(l) => out@.len() <= l, None => true },
                forall|x: int| 0 <= x < i && #[trigger] view.contains_key(entries@[x].key@) && in_bounds(entries@[x].key@, sb, eb)
                    ==> (exists|j: int| 0 <= j < out@.len() && #[trigger] out@[j].0@ == entries@[x].key@)
                    || (limit == Some(out@.len() as usize) && (out@.len() == 0 || bytes_lt(out@.last().0@, entries@[x].key@))),
            decreases entries@.len() - i,
        {
            let e = &entries[i];
            let ghost k = e.key@;
            proof {
                self.lemma_merged_entry(entries@, i as int);
            }
            let room = match limit {
                Some(l) => out.len() < l,
                None => true,
            };
            let after_start = match start {
                Some(s) => {
                    let c = e.key.compare(s);
                    proof {
                        assert(sb == Some(s@));
                        assert((c == core::cmp::Ordering::Less) == bytes_lt(k, s@));
                    }
                    match c {
                        core::cmp::Ordering::Less => false,
                        _ => true,
                    }
                },
                None => true,
            };
            let before_end = match end {
                Some(x) => {
                    let c = e.key.compare(x);
                    proof {
                        assert(eb == Some(x@));
                        assert((c == core::cmp::Ordering::Less) == bytes_lt(k, x@));
                    }
                    match c {
                        core::cmp::Ordering::Less => true,
                        _ => false,
                    }
                },
                None => true,
            };
            assert(after_start && before_end <==> in_bounds(k, sb, eb));
            let ghost before = out@;
            if room && after_start && before_end {
                match self.entry_value(e) {
                    Some(v) => {
                        out.push((e.key.duplicate(), v));
                        proof {
                            assert(out@ == before.push(out@[before.len() as int]));
                            assert forall|a: int, b: int| 0 <= a < b < out@.len() implies bytes_lt(#[trigger] out@[a].0@, #[trigger] out@[b].0@) by {
                                if b < before.len() {
                                    assert(out@[a] == before[a] && out@[b] == before[b]);
                                } else {
                                    assert(out@[a] == before[a]);
                                }
                            }
                            assert forall|x: int| 0 <= x < i + 1 && #[trigger] view.contains_key(entries@[x].key@) && in_bounds(entries@[x].key@, sb, eb)
                                implies (exists|j: int| 0 <= j < out@.len() && #[trigger] out@[j].0@ == entries@[x].key@)
                                || (limit == Some(out@.len() as usize) && (out@.len() == 0 || bytes_lt(out@.last().0@, entries@[x].key@))) by {
                                if x < i {
                                    if exists|j: int| 0 <= j < before.len() && #[trigger] before[j].0@ == entries@[x].key@ {
                                        let j = choose|j: int| 0 <= j < before.len() && #[trigger] before[j].0@ == entries@[x].key@;
                                        assert(out@[j] == before[j]);
                                    } else {
                                        assert(limit == Some(before.len() as usize));
                                        assert(before.len() < limit.unwrap());
                                    }
                                } else {
                                    assert(out@[before.len() as int].0@ == entries@[x].key@);
                                }
                            }
                        }
                    },
                    None => {
                        proof {
                            assert(!view.contains_key(k));
                            assert(out@ == before);
                        }
                    },
                }
            } else {
                proof {
                    assert(out@ == before);
                    if !room && view.contains_key(k) && in_bounds(k, sb, eb) {
                        let l = limit.unwrap();
                        assert(out@.len() == l);
                        if out@.len() > 0 {
                            assert(bytes_lt(out@[out@.len() - 1].0@, entries@[i as int].key@));
                        }
                    }
                }
            }
            proof {
                assert forall|j: int, x: int| 0 <= j < out@.len() && i + 1 <= x < entries@.len() implies bytes_lt(#[trigger] out@[j].0@, #[trigger] entries@[x].key@) by {
                    if j < before.len() {
                        assert(out@[j] == before[j]);
                    } else {
                        assert(out@[j].0@ == k);
                    }
                }
            }
            i = i + 1;
        }
        proof {
            assert forall|k: Seq<u8>| #[trigger] view.contains_key(k) && in_bounds(k, sb, eb) implies (exists|j: int| 0 <= j < out@.len() && #[trigger] out@[j].0@ == k)
                || (limit == Some(out@.len() as usize) && (out@.len() == 0 || bytes_lt(out@.last().0@, k))) by {
                assert(self.state().contains_key(k));
                assert(live_only(self.state()).contains_key(k));
                assert(crate::run::has_key(entries@, k));
                let x = choose|x: int| 0 <= x < entries@.len() && #[trigger] entries@[x].key@ == k;
                assert(view.contains_key(entries@[x].key@));
            }
        }
        out
    }

    /// The visible pairs with keys in `[range.start, range.end)`, in ascending key order,
    /// at most `range.limit` of them. A range whose start is not before its end is empty.
    pub fn scan(&self, range: &Range) -> (r: Result<Vec<(Key, Value)>, Error>)
        requires
            self.well_formed(),
        ensures
            r is Ok,
            range_result(r.unwrap()@, self@, Some(range.start@), Some(range.end@), range.limit),
    {
        Ok(self.collect(Some(&range.start), Some(&range.end), range.limit))
    }
}

} // verus!

verus! {

/// The map from keys to values that ascending pairs hold.
pub open spec fn pairs_map(pairs: Seq<(Key, Value)>) -> Map<Seq<u8>, Seq<u8>> {
    Map::new(
        |k: Seq<u8>| exists|j: int| 0 <= j < pairs.len() && #[trigger] pairs[j].0@ == k,
        |k: Seq<u8>| pairs[choose|j: int| 0 <= j < pairs.len() && #[trigger] pairs[j].0@ == k].1@,
    )
}

/// A read view pinned when it was taken: later writes do not change it.
#[derive(Debug)]
pub struct Snapshot {
    pairs: Vec<(Key, Value)>,
    sequence: u64,
    timestamp: u64,
}

impl View for Snapshot {
    type V = Map<Seq<u8>, Seq<u8>>;

    closed spec fn view(&self) -> Map<Seq<u8>, Seq<u8>> {
        pairs_map(self.pairs@)
    }
}

impl Snapshot {
    pub closed spec fn well_formed(&self) -> bool {
        pairs_ascending(self.pairs@)
    }

    /// The value of `key` in the snapshot.
    pub fn get(&self, key: &Key) -> (r: Option<Value>)
        requires
            self.well_formed(),
        ensures
            r is Some <==> self@.contains_key(key@),
            r is Some ==> r.unwrap()@ == self@[key@],
    {
        let mut j: usize = 0;
        while j < self.pairs.len()
            invariant
                self.well_formed(),
                0 <= j <= self.pairs@.len(),
                forall|a: int| 0 <= a < j ==> (#[trigger] self.pairs@[a]).0@ != key@,
            decreases self.pairs@.len() - j,
        {
            match self.pairs[j].0.compare(key) {
                core::cmp::Ordering::Equal => {
                    proof {
                        let c = choose|c: int| 0 <= c < self.pairs@.len() && #[trigger] self.pairs@[c].0@ == key@;
                        if c != j {
                            crate::bytes::lemma_lt_irreflexive(key@);
                            if c < j {
                                assert(bytes_lt(self.pairs@[c].0@, self.pairs@[j as int].0@));
                            } else {
                                assert(bytes_lt(self.pairs@[j as int].0@, self.pairs@[c].0@));
                            }
                        }
                    }
                    return Some(self.pairs[j].1.duplicate());
                },
                _ => {
                    proof {
                        crate::bytes::lemma_lt_irreflexive(key@);
                    }
                },
            }
            j = j + 1;
        }
        None
    }

    pub closed spec fn spec_len(&self) -> nat {
        self.pairs@.len()
    }

    pub closed spec fn spec_sequence(&self) -> u64 {
        self.sequence
    }

    /// The number of keys the snapshot sees.
    pub fn len(&self) -> (r: usize)
        ensures
            r == self.spec_len(),
            self.well_formed() ==> r == self@.len(),
    {
        proof {
            if self.well_formed() {
                self.lemma_len();
            }
        }
        self.pairs.len()
    }

    proof fn lemma_len(&self)
        requires
            self.well_formed(),
        ensures
            self.pairs@.len() == self@.len(),
    {
        let p = self.pairs@;
        let keys = p.map_values(|x: (Key, Value)| x.0@);
        assert(self@.dom() =~= keys.to_set()) by {
            assert forall|k: Seq<u8>| self@.dom().contains(k) <==> keys.to_set().contains(k) by {
                if self@.dom().contains(k) {
                    let j = choose|j: int| 0 <= j < p.len() && #[trigger] p[j].0@ == k;
                    assert(keys[j] == k);
                }
                if keys.to_set().contains(k) {
                    let j = choose|j: int| 0 <= j < keys.len() && keys[j] == k;
                    assert(p[j].0@ == k);
                }
            }
        }
        assert(keys.no_duplicates()) by {
            assert forall|a: int, b: int| 0 <= a < keys.len() && 0 <= b < keys.len() && a != b implies keys[a] != keys[b] by {
                crate::bytes::lemma_lt_irreflexive(keys[a]);
                if a < b {
                    assert(bytes_lt(p[a].0@, p[b].0@));
                } else {
                    assert(bytes_lt(p[b].0@, p[a].0@));
                }
            }
        }
        keys.unique_seq_to_set();
    }

    /// Sequence number of the first write the snapshot does not see.
    pub fn sequence(&self) -> (r: u64)
        ensures
            r == self.spec_sequence(),
    {
        self.sequence
    }

    /// Milliseconds since the epoch when the snapshot was taken.
    pub fn timestamp(&self) -> (r: u64) {
        self.timestamp
    }

    /// The pairs the snapshot sees, in ascending key order.
    pub fn pairs(&self) -> (r: &[(Key, Value)])
        ensures
            pairs_map(r@) == self@,
            pairs_ascending(r@) == self.well_formed(),
    {
        self.pairs.as_slice()
    }
}

/// What a batch does to the visible pairs: in order, each delete removes its key and
/// each put installs its inline value.
pub open spec fn batch_effect(v: Map<Seq<u8>, Seq<u8>>, ops: Seq<Entry>) -> Map<Seq<u8>, Seq<u8>>
    decreases ops.len(),
{
    if ops.len() == 0 {
        v
    } else {
        let e = ops.last();
        let before = batch_effect(v, ops.drop_last());
        if e.op_type == OpType::Delete {
            before.remove(e.key@)
        } else {
            before.insert(e.key@, e.value.unwrap()@)
        }
    }
}

} // verus!

verus! {

/// A batch the engine accepts: non-empty keys, and a value on every operation but
/// deletes.
pub open spec fn batch_acceptable(ops: Seq<Entry>) -> bool {
    forall|i: int| 0 <= i < ops.len() ==> (#[trigger] ops[i]).key@.len() > 0 && (ops[i].op_type == OpType::Delete
        || ops[i].value is Some)
}

/// Every inline value of a batch has a length that a log record can carry.
pub open spec fn values_fit(ops: Seq<Entry>) -> bool {
    forall|j: int| 0 <= j < ops.len() && (#[trigger] ops[j]).value is Some ==> ops[j].value.unwrap()@.len() <= u32::MAX
}

/// An upper bound on the log bytes that one operation of a batch takes.
pub open spec fn op_bound(e: Entry) -> int {
    e.key@.len() + match e.value {
        Some(v) => v@.len() as int,
        None => 0int,
    } + 64
}

/// An upper bound on the log bytes that the operations of a batch take.
pub open spec fn batch_bytes_bound(ops: Seq<Entry>) -> int
    decreases ops.len(),
{
    if ops.len() == 0 {
        0
    } else {
        op_bound(ops[0]) + batch_bytes_bound(ops.drop_first())
    }
}

/// Entries built for the operations of a batch, one for one.
pub open spec fn prepared_for(prepared: Seq<Entry>, ops: Seq<Entry>, vlog: Seq<Seq<u8>>) -> bool {
    &&& prepared.len() == ops.len()
    &&& forall|j: int| 0 <= j < ops.len() ==> prepared_as(#[trigger] prepared[j], ops[j], vlog)
}

/// An entry built for one operation: a tombstone for a delete, and for a put an entry
/// that reads the value, inline or through the value log.
pub open spec fn prepared_as(e: Entry, op: Entry, vlog: Seq<Seq<u8>>) -> bool {
    &&& e@.key == op.key@
    &&& (op.op_type == OpType::Delete ==> e.value is None && e.value_pointer is None && e@.op_type == OpType::Delete)
    &&& (op.op_type != OpType::Delete ==> e@.op_type == OpType::Put && resolve_value(e@, vlog) == Some(op.value.unwrap()@))
    &&& (e.value is Some ==> op.value is Some && e.value.unwrap()@ == op.value.unwrap()@)
    &&& (e@.value is None && e@.value_pointer is Some ==> vlog_read(vlog, e@.value_pointer.unwrap()) is Some)
}

proof fn lemma_prepared_grow(prepared: Seq<Entry>, ops: Seq<Entry>, v0: Seq<Seq<u8>>, v1: Seq<Seq<u8>>)
    requires
        prepared_for(prepared, ops, v0),
        forall|p| #[trigger] vlog_read(v0, p) is Some ==> vlog_read(v1, p) == vlog_read(v0, p),
    ensures
        prepared_for(prepared, ops, v1),
{
    assert forall|j: int| 0 <= j < ops.len() implies prepared_as(#[trigger] prepared[j], ops[j], v1) by {
        assert(prepared_as(prepared[j], ops[j], v0));
        if prepared[j]@.value is None && prepared[j]@.value_pointer is Some {
            assert(vlog_read(v0, prepared[j]@.value_pointer.unwrap()) is Some);
        }
    }
}

proof fn lemma_prepared_push(prepared: Seq<Entry>, e: Entry, ops: Seq<Entry>, op: Entry, vlog: Seq<Seq<u8>>)
    requires
        prepared_for(prepared, ops, vlog),
        prepared_as(e, op, vlog),
    ensures
        prepared_for(prepared.push(e), ops.push(op), vlog),
{
    let p2 = prepared.push(e);
    let o2 = ops.push(op);
    assert forall|j: int| 0 <= j < o2.len() implies prepared_as(#[trigger] p2[j], o2[j], vlog) by {
        if j < prepared.len() {
            assert(p2[j] == prepared[j] && o2[j] == ops[j]);
        }
    }
}

/// Replaying the record of prepared entries does what the batch does.
proof fn lemma_prepared_replay(v: Map<Seq<u8>, Seq<u8>>, prepared: Seq<Entry>, ops: Seq<Entry>, vlog: Seq<Seq<u8>>)
    requires
        prepared_for(prepared, ops, vlog),
    ensures
        ops_effect(v, prepared.map_values(|e: Entry| entry_model(e)), vlog) == batch_effect(v, ops),
    decreases ops.len(),
{
    let ms = prepared.map_values(|e: Entry| entry_model(e));
    if ops.len() > 0 {
        let pl = prepared.drop_last();
        let ol = ops.drop_last();
        assert forall|j: int| 0 <= j < ol.len() implies prepared_as(#[trigger] pl[j], ol[j], vlog) by {
            assert(pl[j] == prepared[j] && ol[j] == ops[j]);
        }
        lemma_prepared_replay(v, pl, ol, vlog);
        assert(ms.drop_last() =~= pl.map_values(|e: Entry| entry_model(e)));
        let n = ops.len() - 1;
        assert(ms.last() == entry_model(prepared[n]));
        assert(prepared[n]@.key == ops[n].key@);
    }
}

proof fn lemma_ops_bytes_bound(prepared: Seq<Entry>, ops: Seq<Entry>, vlog: Seq<Seq<u8>>)
    requires
        prepared_for(prepared, ops, vlog),
    ensures
        crate::wal_record::ops_bytes(prepared.map_values(|e: Entry| entry_model(e))).len() <= batch_bytes_bound(ops),
    decreases ops.len(),
{
    let ms = prepared.map_values(|e: Entry| entry_model(e));
    if ops.len() > 0 {
        let pr = prepared.drop_first();
        let or = ops.drop_first();
        assert forall|j: int| 0 <= j < or.len() implies prepared_as(#[trigger] pr[j], or[j], vlog) by {
            assert(pr[j] == prepared[j + 1] && or[j] == ops[j + 1]);
        }
        lemma_ops_bytes_bound(pr, or, vlog);
        assert(ms.drop_first() =~= pr.map_values(|e: Entry| entry_model(e)));
        assert(ms[0] == entry_model(prepared[0]));
        assert(prepared[0]@.key == ops[0].key@);
        let f = crate::wal_record::flat_bytes(ms[0]);
        assert(f.len() <= op_bound(ops[0]));
    }
}

/// Replaying a batch record of prepared entries does what the batch does, from any
/// visible pairs.
proof fn lemma_batch_replay_all(prepared: Seq<Entry>, ops: Seq<Entry>, vlog: Seq<Seq<u8>>, m: RecordModel)
    requires
        prepared_for(prepared, ops, vlog),
        batch_operations(m) == prepared.map_values(|e: Entry| entry_model(e)),
    ensures
        forall|v: KeyValues| #[trigger] ops_effect(v, batch_operations(m), vlog) == batch_effect(v, ops),
{
    assert forall|v: KeyValues| #[trigger] ops_effect(v, batch_operations(m), vlog) == batch_effect(v, ops) by {
        lemma_prepared_replay(v, prepared, ops, vlog);
    }
}

/// A batch within the bound fits one log frame.
proof fn lemma_batch_bytes(prepared: Seq<Entry>, ops: Seq<Entry>, vlog: Seq<Seq<u8>>)
    requires
        prepared_for(prepared, ops, vlog),
    ensures
        forall|seq: u64, ts: u64|
            #[trigger] crate::wal_record::record_bytes(crate::wal::batch_model(prepared, seq, ts)).len() <= batch_bytes_bound(ops) + 28,
{
    lemma_ops_bytes_bound(prepared, ops, vlog);
    assert forall|seq: u64, ts: u64|
        #[trigger] crate::wal_record::record_bytes(crate::wal::batch_model(prepared, seq, ts)).len() <= batch_bytes_bound(ops) + 28 by {
        assert(batch_operations(crate::wal::batch_model(prepared, seq, ts)) =~= prepared.map_values(|e: Entry| entry_model(e)));
    }
}

/// Whether the engine accepts a batch.
fn batch_ok(ops: &[Entry]) -> (r: bool)
    ensures
        r == batch_acceptable(ops@),
{
    let mut i: usize = 0;
    while i < ops.len()
        invariant
            0 <= i <= ops@.len(),
            forall|j: int| 0 <= j < i ==> (#[trigger] ops@[j]).key@.len() > 0 && (ops@[j].op_type == OpType::Delete
                || ops@[j].value is Some),
        decreases ops@.len() - i,
    {
        if ops[i].key.len() == 0 || (!ops[i].is_delete() && ops[i].value.is_none()) {
            return false;
        }
        i = i + 1;
    }
    true
}

} // verus!

verus! {

/// Installing an entry changes what is visible at its key only.
proof fn lemma_visible_insert(m: Map<Seq<u8>, EntryModel>, vlog: Seq<Seq<u8>>, k: Seq<u8>, e: EntryModel)
    ensures
        visible(m.insert(k, e), vlog) == if resolve_value(e, vlog) is Some {
            visible(m, vlog).insert(k, resolve_value(e, vlog).unwrap())
        } else {
            visible(m, vlog).remove(k)
        },
{
    let a = visible(m.insert(k, e), vlog);
    if resolve_value(e, vlog) is Some {
        assert(a =~= visible(m, vlog).insert(k, resolve_value(e, vlog).unwrap()));
    } else {
        assert(a =~= visible(m, vlog).remove(k));
    }
}

impl AuraEngine {
    /// A snapshot of every visible pair.
    pub fn snapshot(&self) -> (r: Result<Snapshot, Error>)
        requires
            self.well_formed(),
        ensures
            r is Ok,
            r.unwrap().well_formed(),
            r.unwrap()@ == self@,
            r.unwrap().spec_sequence() == self.spec_next_sequence(),
    {
        let pairs = self.collect(None, None, None);
        proof {
            let view = self@;
            let p = pairs@;
            assert forall|k: Seq<u8>| #[trigger] pairs_map(p).contains_key(k) <==> view.contains_key(k) by {
                if view.contains_key(k) {
                    assert(in_bounds(k, None, None));
                }
                if pairs_map(p).contains_key(k) {
                    let j = choose|j: int| 0 <= j < p.len() && #[trigger] p[j].0@ == k;
                }
            }
            assert forall|k: Seq<u8>| #[trigger] pairs_map(p).contains_key(k) implies pairs_map(p)[k] == view[k] by {
                let j = choose|j: int| 0 <= j < p.len() && #[trigger] p[j].0@ == k;
            }
            assert(pairs_map(p) =~= view);
        }
        Ok(Snapshot { pairs, sequence: self.next_sequence, timestamp: now_millis() })
    }

    /// Whether the newest entry of `key` carries a value pointer rather than the value.
    pub fn is_separated(&self, key: &Key) -> (r: Option<bool>)
        requires
            self.well_formed(),
        ensures
            r is Some <==> self.state().contains_key(key@),
            r is Some ==> r.unwrap() == self.state()[key@].value_pointer is Some,
    {
        match self.find_entry(key) {
            Some(e) => Some(e.has_value_pointer()),
            None => None,
        }
    }

    /// Installs one entry built by the write path.
    fn install(&mut self, entry: Entry)
        requires
            old(self).well_formed(),
            entry@.value is None && entry@.value_pointer is Some ==> vlog_read(old(self).vlog@, entry@.value_pointer.unwrap()) is Some,
        ensures
            final(self).well_formed(),
            final(self).state() == old(self).state().insert(entry@.key, entry@),
            final(self)@ == if resolve_value(entry@, old(self).vlog@) is Some {
                old(self)@.insert(entry@.key, resolve_value(entry@, old(self).vlog@).unwrap())
            } else {
                old(self)@.remove(entry@.key)
            },
            final(self).spec_vlog() == old(self).spec_vlog(),
            final(self).is_closed() == old(self).is_closed(),
            final(self).spec_next_sequence() == old(self).spec_next_sequence(),
            final(self).has_room() == old(self).has_room(),
            final(self).spec_threshold() == old(self).spec_threshold(),
            final(self).spec_pending() == old(self).spec_pending(),
            final(self).spec_sync_policy() == old(self).spec_sync_policy(),
            final(self).wal_sequence() == old(self).wal_sequence(),
    {
        let ghost s0 = self.state();
        let ghost em = entry@;
        self.memtable.insert(entry);
        proof {
            lemma_layered_cons(old(self).memtable@, table_maps(self.tables@));
            lemma_layered_cons(self.memtable@, table_maps(self.tables@));
            assert(self.state() =~= s0.insert(em.key, em));
            lemma_visible_insert(s0, self.vlog@, em.key, em);
        }
    }

    /// Builds the entries of a batch, in order, with sequence numbers from `first`;
    /// large values are appended to the value log.
    fn prepare_batch(&mut self, ops: &Vec<Entry>, first: u64, now: u64) -> (r: Result<Vec<Entry>, Error>)
        requires
            old(self).well_formed(),
            batch_acceptable(ops@),
            first as int + ops@.len() < u64::MAX,
        ensures
            final(self).well_formed(),
            final(self).state() == old(self).state(),
            final(self)@ == old(self)@,
            final(self).is_closed() == old(self).is_closed(),
            final(self).spec_next_sequence() == old(self).spec_next_sequence(),
            final(self).spec_threshold() == old(self).spec_threshold(),
            final(self).wal_sequence() == old(self).wal_sequence(),
            final(self).spec_pending() == old(self).spec_pending(),
            final(self).spec_sync_policy() == old(self).spec_sync_policy(),
            r is Ok ==> prepared_for(r.unwrap()@, ops@, final(self).spec_vlog()),
            old(self).spec_vlog().len() + ops@.len() + 1 < u64::MAX && old(self).spec_max_segment() <= 0x4000_0000_0000_0000
                && values_fit(ops@) ==> r is Ok,
    {
        let n = ops.len();
        let threshold = self.config.value_log.separation_threshold;
        let ghost v0 = self.vlog@;
        let mut prepared: Vec<Entry> = Vec::new();
        let mut i: usize = 0;
        while i < n
            invariant
                n == ops@.len(),
                0 <= i <= n,
                batch_acceptable(ops@),
                self.well_formed(),
                self.state() == old(self).state(),
                self@ == old(self)@,
                self.spec_next_sequence() == old(self).spec_next_sequence(),
                self.spec_threshold() == old(self).spec_threshold(),
                self.wal_sequence() == old(self).wal_sequence(),
                self.spec_pending() == old(self).spec_pending(),
                self.spec_sync_policy() == old(self).spec_sync_policy(),
                self.spec_max_segment() == old(self).spec_max_segment(),
                self.is_closed() == old(self).is_closed(),
                self.vlog@.len() <= v0.len() + i,
                v0 == old(self).spec_vlog(),
                forall|p| #[trigger] vlog_read(v0, p) is Some ==> vlog_read(self.vlog@, p) == vlog_read(v0, p),
                pointers_readable(old(self).state(), v0),
                first as int + n < u64::MAX,
                old(self).spec_vlog().len() + ops@.len() + 1 < u64::MAX && old(self).spec_max_segment() <= 0x4000_0000_0000_0000
                    && values_fit(ops@) ==> self.vlog@.len() + (n - i) + 1 < u64::MAX,
                prepared_for(prepared@, ops@.take(i as int), self.vlog@),
            decreases n - i,
        {
            let op = &ops[i];
            let seq = first + i as u64;
            let ghost vb = self.vlog@;
            let entry = if op.is_delete() {
                Entry::delete(op.key.duplicate(), seq)
            } else {
                let value = match &op.value {
                    Some(v) => v,
                    None => return Err(Error::Unknown(String::from_str("put without value"))),
                };
                if value.is_large(threshold) {
                    match self.vlog.write_value_sync(value, now) {
                        Ok(p) => Entry::with_pointer(op.key.duplicate(), p, seq),
                        Err(e) => {
                            proof {
                                lemma_visible_stable(self.state(), v0, self.vlog@);
                            }
                            return Err(e);
                        },
                    }
                } else {
                    Entry::new(op.key.duplicate(), value.duplicate(), seq)
                }
            };
            proof {
                lemma_visible_stable(self.state(), vb, self.vlog@);
                lemma_visible_stable(self.state(), v0, self.vlog@);
                lemma_prepared_grow(prepared@, ops@.take(i as int), vb, self.vlog@);
                assert(ops@.take(i + 1) =~= ops@.take(i as int).push(ops@[i as int]));
            }
            prepared.push(entry);
            proof {
                assert(prepared@.drop_last() == prepared@.take(i as int));
                lemma_prepared_push(prepared@.drop_last(), entry, ops@.take(i as int), ops@[i as int], self.vlog@);
            }
            i = i + 1;
        }
        proof {
            assert(ops@.take(n as int) =~= ops@);
        }
        Ok(prepared)
    }

    /// Applies a batch atomically: every operation is logged in one record, so that on
    /// recovery the batch is applied whole or not at all.
    pub fn write_batch(&mut self, batch: &crate::storage::Batch) -> (r: Result<(), Error>)
        requires
            old(self).well_formed(),
        ensures
            final(self).well_formed(),
            r is Ok ==> final(self)@ == batch_effect(old(self)@, batch.operations@),
            r is Err ==> final(self)@ == old(self)@,
            old(self).is_closed() || !batch_acceptable(batch.operations@) ==> r is Err,
            old(self).batch_room(batch.operations@) ==> r is Ok,
            final(self).is_closed() == old(self).is_closed(),
            final(self).spec_sync_policy() == old(self).spec_sync_policy(),
            r is Err ==> final(self).spec_pending() == old(self).spec_pending(),
            r is Ok ==> final(self).spec_next_sequence() == old(self).spec_next_sequence() + batch.operations@.len(),
            r is Ok ==> final(self).spec_pending().len() == old(self).spec_pending().len() + 1
                && final(self).spec_pending().drop_last() == old(self).spec_pending()
                && sync_fits(old(self).spec_sync_policy(), final(self).spec_pending().last().1),
            r is Ok ==> exists|m: RecordModel|
                #[trigger] frame_bytes(m) == final(self).spec_pending().last().0 && frameable(m) && m is Batch
                    && forall|v: KeyValues|
                        #[trigger] ops_effect(v, batch_operations(m), final(self).spec_vlog()) == batch_effect(v, batch.operations@),
    {
        let ops = &batch.operations;
        if self.closed {
            return Err(Error::Concurrency(String::from_str("engine is closed")));
        }
        let n = ops.len();
        if !batch_ok(ops.as_slice()) {
            return Err(Error::Unknown(String::from_str("batch holds an empty key or a put without value")));
        }
        if self.next_sequence as u128 + n as u128 >= u64::MAX as u128 {
            return Err(Error::Concurrency(String::from_str("sequence numbers exhausted")));
        }
        let now = now_millis();
        let first = self.next_sequence;
        let ghost view0 = self@;
        let prepared = match self.prepare_batch(ops, first, now) {
            Ok(p) => p,
            Err(e) => return Err(e),
        };
        let record = crate::wal::batch_record(prepared.as_slice(), self.wal.current_sequence(), now);
        proof {
            lemma_batch_bytes(prepared@, ops@, self.vlog@);
        }
        let append = match self.wal.write_record(&record, now) {
            Ok(a) => a,
            Err(e) => return Err(e),
        };
        let ghost before = self.pending@;
        let ghost item = (append.frame@, append.sync);
        self.pending.push(append);
        proof {
            assert(pending_view(self.pending@) =~= pending_view(before).push(item));
        }
        let ghost vlog1 = self.vlog@;
        let mut i: usize = 0;
        let mut rest = prepared;
        let ghost all = rest@;
        while i < n
            invariant
                n == ops@.len(),
                0 <= i <= n,
                all.len() == n,
                rest@ == all.skip(i as int),
                self.well_formed(),
                self.is_closed() == old(self).is_closed(),
                self.vlog@ == vlog1,
                self.spec_pending() == pending_view(before).push(item),
                self.spec_sync_policy() == old(self).spec_sync_policy(),
                first as int + n < u64::MAX,
                self.spec_next_sequence() == old(self).spec_next_sequence(),
                self@ == batch_effect(view0, ops@.take(i as int)),
                prepared_for(all, ops@, vlog1),
            decreases n - i,
        {
            let entry = rest.remove(0);
            proof {
                assert(entry == all[i as int]);
                assert(ops@[i as int] == ops@[i as int]);
                let j = i as int;
                assert(all[j]@.key == ops@[j].key@);
            }
            self.install(entry);
            proof {
                assert(rest@ =~= all.skip(i + 1));
                assert(ops@.take(i + 1).drop_last() =~= ops@.take(i as int));
                assert(ops@.take(i + 1).last() == ops@[i as int]);
            }
            i = i + 1;
        }
        proof {
            assert(ops@.take(n as int) =~= ops@);
        }
        self.next_sequence = first + n as u64;
        self.flush_if_due();
        proof {
            lemma_batch_replay_all(all, ops@, vlog1, record@);
            assert(frame_bytes(record@) == self.spec_pending().last().0);
        }
        Ok(())
    }
}

} // verus!

verus! {

/// What replaying one logged operation, other than a batch, does to the visible pairs;
/// a pointer that reads nothing is skipped.
pub open spec fn op_effect(v: Map<Seq<u8>, Seq<u8>>, m: RecordModel, vlog: Seq<Seq<u8>>) -> Map<Seq<u8>, Seq<u8>> {
    match m {
        RecordModel::Put { key, value, .. } => v.insert(key, value),
        RecordModel::PutPointer { key, value_pointer, .. } => match vlog_read(vlog, value_pointer) {
            Some(x) => v.insert(key, x),
            None => v,
        },
        RecordModel::Delete { key, .. } => v.remove(key),
        RecordModel::Batch { .. } => v,
    }
}

/// What replaying a batch's operations does, in order.
pub open spec fn ops_effect(v: Map<Seq<u8>, Seq<u8>>, ops: Seq<RecordModel>, vlog: Seq<Seq<u8>>) -> Map<Seq<u8>, Seq<u8>>
    decreases ops.len(),
{
    if ops.len() == 0 {
        v
    } else {
        op_effect(ops_effect(v, ops.drop_last(), vlog), ops.last(), vlog)
    }
}

/// What replaying a record does to the visible pairs.
pub open spec fn record_effect(v: Map<Seq<u8>, Seq<u8>>, m: RecordModel, vlog: Seq<Seq<u8>>) -> Map<Seq<u8>, Seq<u8>> {
    match m {
        RecordModel::Batch { operations, .. } => ops_effect(v, operations, vlog),
        _ => op_effect(v, m, vlog),
    }
}

/// What replaying records, in order, does to the visible pairs.
pub open spec fn records_effect(v: Map<Seq<u8>, Seq<u8>>, rs: Seq<RecordModel>, vlog: Seq<Seq<u8>>) -> Map<Seq<u8>, Seq<u8>>
    decreases rs.len(),
{
    if rs.len() == 0 {
        v
    } else {
        record_effect(records_effect(v, rs.drop_last(), vlog), rs.last(), vlog)
    }
}

/// The sequence number that a record carries.
pub open spec fn record_sequence(m: RecordModel) -> u64 {
    match m {
        RecordModel::Put { sequence, .. } => sequence,
        RecordModel::PutPointer { sequence, .. } => sequence,
        RecordModel::Delete { sequence, .. } => sequence,
        RecordModel::Batch { sequence, .. } => sequence,
    }
}

impl AuraEngine {
    /// Replays one logged operation other than a batch into the memtable.
    fn replay_op(&mut self, op: &WalRecord)
        requires
            old(self).well_formed(),
        ensures
            final(self).well_formed(),
            final(self)@ == op_effect(old(self)@, op@, old(self).spec_vlog()),
            final(self).spec_vlog() == old(self).spec_vlog(),
            final(self).is_closed() == old(self).is_closed(),
            final(self).spec_next_sequence() >= old(self).spec_next_sequence(),
            !(op@ is Batch) && record_sequence(op@) < u64::MAX ==> final(self).spec_next_sequence() > record_sequence(op@),
    {
        match op {
            WalRecord::Put { key, value, sequence, .. } => {
                let e = Entry::new(Key::from_slice(key.as_slice()), Value::from_slice(value.as_slice()), *sequence);
                self.install(e);
                self.bump_sequence(*sequence);
            },
            WalRecord::PutPointer { key, value_pointer, sequence, .. } => {
                if self.vlog.read_value(value_pointer).is_ok() {
                    let e = Entry::with_pointer(Key::from_slice(key.as_slice()), *value_pointer, *sequence);
                    self.install(e);
                }
                self.bump_sequence(*sequence);
            },
            WalRecord::Delete { key, sequence, .. } => {
                let e = Entry::delete(Key::from_slice(key.as_slice()), *sequence);
                self.install(e);
                proof {
                    assert(self@ =~= old(self)@.remove(key@));
                }
                self.bump_sequence(*sequence);
            },
            WalRecord::Batch { .. } => {},
        }
    }

    /// Makes the next sequence number exceed `seen`.
    fn bump_sequence(&mut self, seen: u64)
        ensures
            final(self).well_formed() == old(self).well_formed(),
            final(self)@ == old(self)@,
            final(self).state() == old(self).state(),
            final(self).spec_vlog() == old(self).spec_vlog(),
            final(self).is_closed() == old(self).is_closed(),
            final(self).spec_next_sequence() >= old(self).spec_next_sequence(),
            seen < u64::MAX ==> final(self).spec_next_sequence() > seen,
    {
        if seen < u64::MAX && self.next_sequence <= seen {
            self.next_sequence = seen + 1;
        }
    }

    /// Replays a logged record into the memtable, as recovery does; a batch is applied
    /// operation by operation.
    pub fn replay(&mut self, record: &WalRecord)
        requires
            old(self).well_formed(),
        ensures
            final(self).well_formed(),
            final(self)@ == record_effect(old(self)@, record@, old(self).spec_vlog()),
            final(self).spec_vlog() == old(self).spec_vlog(),
            final(self).is_closed() == old(self).is_closed(),
            record_sequence(record@) < u64::MAX ==> final(self).spec_next_sequence() > record_sequence(record@),
            final(self).spec_next_sequence() >= old(self).spec_next_sequence(),
    {
        match record {
            WalRecord::Batch { operations, sequence, .. } => {
                let ghost ops = operations@.map_values(|o: WalRecord| crate::wal_record::flat_view(o));
                let ghost vlog = self.vlog@;
                let mut i: usize = 0;
                while i < operations.len()
                    invariant
                        self.well_formed(),
                        ops == operations@.map_values(|o: WalRecord| crate::wal_record::flat_view(o)),
                        vlog == self.vlog@,
                        vlog == old(self).spec_vlog(),
                        0 <= i <= operations@.len(),
                        self@ == ops_effect(old(self)@, ops.take(i as int), vlog),
                        self.is_closed() == old(self).is_closed(),
                        self.spec_next_sequence() >= old(self).spec_next_sequence(),
                    decreases operations@.len() - i,
                {
                    let op = &operations[i];
                    let ghost before = self@;
                    match op {
                        WalRecord::Batch { .. } => {
                            proof {
                                assert(ops[i as int] == crate::wal_record::flat_view(*op));
                            }
                        },
                        _ => {
                            self.replay_op(op);
                            proof {
                                assert(ops[i as int] == crate::wal_record::flat_view(*op));
                                assert(op@ == crate::wal_record::flat_view(*op));
                            }
                        },
                    }
                    proof {
                        assert(ops.take(i + 1).drop_last() =~= ops.take(i as int));
                        assert(ops.take(i + 1).last() == ops[i as int]);
                    }
                    i = i + 1;
                }
                proof {
                    assert(ops.take(i as int) =~= ops);
                }
                self.bump_sequence(*sequence);
            },
            _ => {
                self.replay_op(record);
            },
        }
    }

    /// An engine rebuilt after a restart: the value log segments read back from
    /// storage, then the records that the write-ahead log files yield, replayed in
    /// order. Sequence numbers resume past every replayed record.
    pub fn recover(config: Config, segments: Vec<Vec<u8>>, records: &[WalRecord]) -> (r: Result<AuraEngine, Error>)
        ensures
            segments@.len() + 2 < u64::MAX ==> r is Ok,
            r is Ok ==> {
                let e = r.unwrap();
                &&& e.well_formed()
                &&& !e.is_closed()
                &&& forall|i: int| 0 <= i < segments@.len() ==> #[trigger] e.spec_vlog()[i] == segments@[i]@
                &&& e@ == records_effect(Map::empty(), records@.map_values(|x: WalRecord| x@), e.spec_vlog())
                &&& forall|i: int| 0 <= i < records@.len() && record_sequence(#[trigger] records@[i]@) < u64::MAX ==> e.spec_next_sequence() > record_sequence(records@[i]@)
            },
    {
        if segments.len() as u64 >= u64::MAX - 2 {
            return Err(Error::Io(String::from_str("too many segments")));
        }
        let mut engine = AuraEngine::new(config);
        let restored = VlogWriter::restore(engine.config.value_log.duplicate(), segments, now_millis());
        engine.vlog = restored;
        proof {
            assert(engine.state() == Map::<Seq<u8>, EntryModel>::empty());
            assert(engine@ =~= Map::<Seq<u8>, Seq<u8>>::empty());
        }
        let ghost rs = records@.map_values(|x: WalRecord| x@);
        let ghost vlog = engine.vlog@;
        let mut i: usize = 0;
        while i < records.len()
            invariant
                engine.well_formed(),
                !engine.is_closed(),
                rs == records@.map_values(|x: WalRecord| x@),
                vlog == engine.vlog@,
                0 <= i <= records@.len(),
                engine@ == records_effect(Map::empty(), rs.take(i as int), vlog),
                forall|j: int| 0 <= j < i && record_sequence(#[trigger] records@[j]@) < u64::MAX ==> engine.spec_next_sequence() > record_sequence(records@[j]@),
            decreases records@.len() - i,
        {
            engine.replay(&records[i]);
            proof {
                assert(rs.take(i + 1).drop_last() =~= rs.take(i as int));
                assert(rs.take(i + 1).last() == records@[i as int]@);
            }
            i = i + 1;
        }
        proof {
            assert(rs.take(i as int) =~= rs);
        }
        Ok(engine)
    }
}

} // verus!

verus! {

/// The text that bytes decode to, with invalid UTF-8 sequences replaced.
pub uninterp spec fn lossy_text_of(b: Seq<u8>) -> Seq<char>;

/// Relies on `String::from_utf8_lossy`: the bytes decoded as UTF-8, each invalid
/// sequence replaced by U+FFFD; a function of the bytes alone.
#[verifier::external_body]
fn utf8_lossy(b: &[u8]) -> (r: String)
    ensures
        r@ == lossy_text_of(b@),
{
    String::from_utf8_lossy(b).into_owned()
}

impl AuraEngine {
    /// Stores the bytes of `value` under the bytes of `key`.
    pub fn put_str(&mut self, key: &str, value: &str) -> (r: Result<(), Error>)
        requires
            old(self).well_formed(),
        ensures
            final(self).well_formed(),
            r is Ok ==> final(self)@ == old(self)@.insert(key.spec_bytes(), value.spec_bytes()),
            r is Err ==> final(self)@ == old(self)@,
            old(self).is_closed() || key.spec_bytes().len() == 0 ==> r is Err,
            !old(self).is_closed() && 0 < key.spec_bytes().len() <= 0x4000_0000 && value.spec_bytes().len() <= 0x4000_0000
                && old(self).has_room() ==> r is Ok,
    {
        self.put(Key::from_slice(key.as_bytes()), Value::from_slice(value.as_bytes()))
    }

    /// The value under the bytes of `key`, decoded as text.
    pub fn get_str(&self, key: &str) -> (r: Result<Option<String>, Error>)
        requires
            self.well_formed(),
        ensures
            r is Ok,
            r.unwrap() is Some <==> self@.contains_key(key.spec_bytes()),
            r.unwrap() is Some ==> r.unwrap().unwrap()@ == lossy_text_of(self@[key.spec_bytes()]),
    {
        match self.get(&Key::from_slice(key.as_bytes())) {
            Ok(Some(v)) => Ok(Some(utf8_lossy(v.as_bytes()))),
            _ => Ok(None),
        }
    }

    /// Deletes the bytes of `key`.
    pub fn delete_str(&mut self, key: &str) -> (r: Result<(), Error>)
        requires
            old(self).well_formed(),
        ensures
            final(self).well_formed(),
            r is Ok ==> final(self)@ == old(self)@.remove(key.spec_bytes()),
            r is Err ==> final(self)@ == old(self)@,
            old(self).is_closed() || key.spec_bytes().len() == 0 ==> r is Err,
            !old(self).is_closed() && 0 < key.spec_bytes().len() <= 0x4000_0000 && old(self).has_room() ==> r is Ok,
    {
        self.delete(&Key::from_slice(key.as_bytes()))
    }

    /// The pairs with keys in `[start, end)` as text, in ascending key order.
    pub fn scan_str(&self, start: &str, end: &str) -> (r: Result<Vec<(String, String)>, Error>)
        requires
            self.well_formed(),
        ensures
            r is Ok,
            ({
                let out = r.unwrap()@;
                exists|pairs: Seq<(Key, Value)>|
                    range_result(pairs, self@, Some(start.spec_bytes()), Some(end.spec_bytes()), None)
                    && #[trigger] pairs.len() == out.len()
                    && forall|j: int| 0 <= j < out.len() ==> (#[trigger] out[j]).0@ == lossy_text_of(pairs[j].0@)
                        && out[j].1@ == lossy_text_of(pairs[j].1@)
            }),
    {
        let pairs = self.collect(Some(&Key::from_slice(start.as_bytes())), Some(&Key::from_slice(end.as_bytes())), None);
        let mut out: Vec<(String, String)> = Vec::new();
        let mut i: usize = 0;
        while i < pairs.len()
            invariant
                0 <= i <= pairs@.len(),
                out@.len() == i,
                forall|j: int| 0 <= j < i ==> (#[trigger] out@[j]).0@ == lossy_text_of(pairs@[j].0@)
                    && out@[j].1@ == lossy_text_of(pairs@[j].1@),
            decreases pairs@.len() - i,
        {
            let k = utf8_lossy(pairs[i].0.as_bytes());
            let v = utf8_lossy(pairs[i].1.as_bytes());
            out.push((k, v));
            i = i + 1;
        }
        proof {
            assert(pairs@.len() == out@.len());
        }
        Ok(out)
    }

    /// Stores each pair, in order, as one atomic batch.
    pub fn write_pairs(&mut self, pairs: &[(Vec<u8>, Vec<u8>)]) -> (r: Result<(), Error>)
        requires
            old(self).well_formed(),
        ensures
            final(self).well_formed(),
            r is Ok ==> final(self)@ == pairs_effect(old(self)@, pairs@),
            r is Err ==> final(self)@ == old(self)@,
            old(self).pairs_room(pairs@) ==> r is Ok,
            r is Ok ==> final(self).spec_pending().len() == old(self).spec_pending().len() + 1
                && final(self).spec_pending().drop_last() == old(self).spec_pending(),
            r is Err ==> final(self).spec_pending() == old(self).spec_pending(),
    {
        let mut batch = crate::storage::Batch::new();
        let mut i: usize = 0;
        while i < pairs.len()
            invariant
                0 <= i <= pairs@.len(),
                batch.operations@.len() == i,
                forall|j: int| 0 <= j < i ==> (#[trigger] batch.operations@[j]).key@ == pairs@[j].0@
                    && batch.operations@[j].op_type == OpType::Put && batch.operations@[j].value is Some
                    && batch.operations@[j].value.unwrap()@ == pairs@[j].1@,
            decreases pairs@.len() - i,
        {
            let e = Entry::new(Key::from_slice(pairs[i].0.as_slice()), Value::from_slice(pairs[i].1.as_slice()), 0);
            batch.add(e);
            i = i + 1;
        }
        proof {
            lemma_pairs_batch(old(self)@, pairs@, batch.operations@);
            lemma_pairs_bound(pairs@, batch.operations@);
            if old(self).pairs_room(pairs@) {
                assert(batch_acceptable(batch.operations@));
                assert(values_fit(batch.operations@));
            }
        }
        self.write_batch(&batch)
    }

    /// Stores `value` under `key`.
    pub fn put_bytes(&mut self, key: &[u8], value: &[u8]) -> (r: Result<(), Error>)
        requires
            old(self).well_formed(),
        ensures
            final(self).well_formed(),
            r is Ok ==> final(self)@ == old(self)@.insert(key@, value@),
            r is Err ==> final(self)@ == old(self)@,
            old(self).is_closed() || key@.len() == 0 ==> r is Err,
            !old(self).is_closed() && 0 < key@.len() <= 0x4000_0000 && value@.len() <= 0x4000_0000
                && old(self).has_room() ==> r is Ok,
    {
        self.put(Key::from_slice(key), Value::from_slice(value))
    }

    /// The value under `key`.
    pub fn get_bytes(&self, key: &[u8]) -> (r: Result<Option<Vec<u8>>, Error>)
        requires
            self.well_formed(),
        ensures
            r is Ok,
            r.unwrap() is Some <==> self@.contains_key(key@),
            r.unwrap() is Some ==> r.unwrap().unwrap()@ == self@[key@],
    {
        match self.get(&Key::from_slice(key)) {
            Ok(Some(v)) => Ok(Some(v.data)),
            _ => Ok(None),
        }
    }
}

/// An upper bound on the log bytes that pairs take in a batch.
pub open spec fn pairs_bytes_bound(pairs: Seq<(Vec<u8>, Vec<u8>)>) -> int
    decreases pairs.len(),
{
    if pairs.len() == 0 {
        0
    } else {
        pairs[0].0@.len() + pairs[0].1@.len() + 64 + pairs_bytes_bound(pairs.drop_first())
    }
}

impl AuraEngine {
    /// Room for storing pairs as one batch: what `batch_room` asks, stated over the pairs.
    pub open spec fn pairs_room(&self, pairs: Seq<(Vec<u8>, Vec<u8>)>) -> bool {
        &&& !self.is_closed()
        &&& forall|j: int| 0 <= j < pairs.len() ==> (#[trigger] pairs[j]).0@.len() > 0 && pairs[j].1@.len() <= u32::MAX
        &&& self.spec_next_sequence() + pairs.len() < u64::MAX
        &&& self.wal_sequence() < u64::MAX
        &&& self.spec_vlog().len() + pairs.len() + 1 < u64::MAX
        &&& self.spec_max_segment() <= 0x4000_0000_0000_0000
        &&& pairs_bytes_bound(pairs) + 64 <= u32::MAX
    }
}

proof fn lemma_pairs_bound(pairs: Seq<(Vec<u8>, Vec<u8>)>, ops: Seq<Entry>)
    requires
        ops.len() == pairs.len(),
        forall|j: int| 0 <= j < ops.len() ==> (#[trigger] ops[j]).key@ == pairs[j].0@ && ops[j].op_type == OpType::Put
            && ops[j].value is Some && ops[j].value.unwrap()@ == pairs[j].1@,
    ensures
        batch_bytes_bound(ops) == pairs_bytes_bound(pairs),
    decreases ops.len(),
{
    if ops.len() > 0 {
        let o = ops.drop_first();
        let p = pairs.drop_first();
        assert forall|j: int| 0 <= j < o.len() implies (#[trigger] o[j]).key@ == p[j].0@ && o[j].op_type == OpType::Put
            && o[j].value is Some && o[j].value.unwrap()@ == p[j].1@ by {
            assert(o[j] == ops[j + 1] && p[j] == pairs[j + 1]);
        }
        lemma_pairs_bound(p, o);
    }
}

/// What storing pairs in order does to the visible pairs.
pub open spec fn pairs_effect(v: Map<Seq<u8>, Seq<u8>>, pairs: Seq<(Vec<u8>, Vec<u8>)>) -> Map<Seq<u8>, Seq<u8>>
    decreases pairs.len(),
{
    if pairs.len() == 0 {
        v
    } else {
        pairs_effect(v, pairs.drop_last()).insert(pairs.last().0@, pairs.last().1@)
    }
}

proof fn lemma_pairs_batch(v: Map<Seq<u8>, Seq<u8>>, pairs: Seq<(Vec<u8>, Vec<u8>)>, ops: Seq<Entry>)
    requires
        ops.len() == pairs.len(),
        forall|j: int| 0 <= j < ops.len() ==> (#[trigger] ops[j]).key@ == pairs[j].0@ && ops[j].op_type == OpType::Put
            && ops[j].value is Some && ops[j].value.unwrap()@ == pairs[j].1@,
    ensures
        batch_effect(v, ops) == pairs_effect(v, pairs),
    decreases ops.len(),
{
    if ops.len() > 0 {
        let o = ops.drop_last();
        let p = pairs.drop_last();
        assert forall|j: int| 0 <= j < o.len() implies (#[trigger] o[j]).key@ == p[j].0@ && o[j].op_type == OpType::Put
            && o[j].value is Some && o[j].value.unwrap()@ == p[j].1@ by {
            assert(o[j] == ops[j] && p[j] == pairs[j]);
        }
        lemma_pairs_batch(v, p, o);
    }
}

} // verus!

verus! {

/// The engine's operations, over a view of the visible key/value pairs.
pub trait Engine {
    /// The visible pairs.
    spec fn engine_view(&self) -> Map<Seq<u8>, Seq<u8>>;

    /// The engine's invariant.
    spec fn engine_ready(&self) -> bool;

    /// Whether a write of a key with a value of `n` bytes is owed success.
    spec fn can_write(&self, k: Seq<u8>, n: nat) -> bool;

    /// Whether a batch is owed success.
    spec fn can_write_batch(&self, ops: Seq<Entry>) -> bool;

    /// Stores `value` under `key`.
    fn put(&mut self, key: Key, value: Value) -> (r: Result<(), Error>)
        requires
            old(self).engine_ready(),
        ensures
            final(self).engine_ready(),
            r is Ok ==> final(self).engine_view() == old(self).engine_view().insert(key@, value@),
            r is Err ==> final(self).engine_view() == old(self).engine_view(),
            old(self).can_write(key@, value@.len()) ==> r is Ok,
    ;

    /// The value of `key`, if it has one.
    fn get(&self, key: &Key) -> (r: Result<Option<Value>, Error>)
        requires
            self.engine_ready(),
        ensures
            r is Ok,
            r.unwrap() is Some <==> self.engine_view().contains_key(key@),
            r.unwrap() is Some ==> r.unwrap().unwrap()@ == self.engine_view()[key@],
    ;

    /// Deletes `key`.
    fn delete(&mut self, key: &Key) -> (r: Result<(), Error>)
        requires
            old(self).engine_ready(),
        ensures
            final(self).engine_ready(),
            r is Ok ==> final(self).engine_view() == old(self).engine_view().remove(key@),
            r is Err ==> final(self).engine_view() == old(self).engine_view(),
            old(self).can_write(key@, 0) ==> r is Ok,
    ;

    /// The pairs of a range, in ascending key order.
    fn scan(&self, range: Range) -> (r: Result<Vec<(Key, Value)>, Error>)
        requires
            self.engine_ready(),
        ensures
            r is Ok,
            range_result(r.unwrap()@, self.engine_view(), Some(range.start@), Some(range.end@), range.limit),
    ;

    /// Applies a batch atomically.
    fn write_batch(&mut self, batch: &crate::storage::Batch) -> (r: Result<(), Error>)
        requires
            old(self).engine_ready(),
        ensures
            final(self).engine_ready(),
            r is Ok ==> final(self).engine_view() == batch_effect(old(self).engine_view(), batch.operations@),
            r is Err ==> final(self).engine_view() == old(self).engine_view(),
            old(self).can_write_batch(batch.operations@) ==> r is Ok,
    ;

    /// A snapshot of the visible pairs.
    fn snapshot(&self) -> (r: Result<Snapshot, Error>)
        requires
            self.engine_ready(),
        ensures
            r is Ok,
            r.unwrap()@ == self.engine_view(),
    ;

    /// Stops accepting writes.
    fn close(&mut self) -> (r: Result<(), Error>)
        requires
            old(self).engine_ready(),
        ensures
            r is Ok,
            final(self).engine_ready(),
            final(self).engine_view() == old(self).engine_view(),
    ;
}

impl Engine for AuraEngine {
    open spec fn engine_view(&self) -> Map<Seq<u8>, Seq<u8>> {
        self@
    }

    open spec fn engine_ready(&self) -> bool {
        self.well_formed()
    }

    open spec fn can_write(&self, k: Seq<u8>, n: nat) -> bool {
        !self.is_closed() && 0 < k.len() <= 0x4000_0000 && n <= 0x4000_0000 && self.has_room()
    }

    open spec fn can_write_batch(&self, ops: Seq<Entry>) -> bool {
        self.batch_room(ops)
    }

    fn put(&mut self, key: Key, value: Value) -> (r: Result<(), Error>) {
        AuraEngine::put(self, key, value)
    }

    fn get(&self, key: &Key) -> (r: Result<Option<Value>, Error>) {
        AuraEngine::get(self, key)
    }

    fn delete(&mut self, key: &Key) -> (r: Result<(), Error>) {
        AuraEngine::delete(self, key)
    }

    fn scan(&self, range: Range) -> (r: Result<Vec<(Key, Value)>, Error>) {
        AuraEngine::scan(self, &range)
    }

    fn write_batch(&mut self, batch: &crate::storage::Batch) -> (r: Result<(), Error>) {
        AuraEngine::write_batch(self, batch)
    }

    fn snapshot(&self) -> (r: Result<Snapshot, Error>) {
        AuraEngine::snapshot(self)
    }

    fn close(&mut self) -> (r: Result<(), Error>) {
        AuraEngine::close(self)
    }
}

} // verus!

verus! {

impl AuraEngine {
    /// Whether a live entry reads its value through a pointer into segment `s`.
    pub open spec fn references(&self, s: u64) -> bool {
        exists|k: Seq<u8>| #[trigger] self.state().contains_key(k) && points_into(self.state()[k], s)
    }

    /// Whether live entries still point into segment `segment_id`.
    pub fn segment_referenced(&self, segment_id: u64) -> (r: bool)
        requires
            self.well_formed(),
        ensures
            r == self.references(segment_id),
    {
        let merged = self.merged_view();
        let entries = merged.entries();
        let mut i: usize = 0;
        while i < entries.len()
            invariant
                self.well_formed(),
                keys_ascending(entries@),
                entries_map(entries@) == live_only(self.state()),
                0 <= i <= entries@.len(),
                forall|x: int| 0 <= x < i ==> !points_into(#[trigger] entries@[x]@, segment_id),
            decreases entries@.len() - i,
        {
            let e = &entries[i];
            let hit = match e.value_pointer {
                Some(p) => e.value.is_none() && !e.is_delete() && p.segment_id == segment_id,
                None => false,
            };
            if hit {
                proof {
                    crate::run::lemma_entry_for(entries@, i as int);
                    let k = entries@[i as int].key@;
                    assert(entries_map(entries@).contains_key(k));
                    assert(entries_map(entries@)[k] == entries@[i as int]@);
                    assert(live_only(self.state()).contains_key(k));
                    assert(live_only(self.state())[k] == self.state()[k]);
                    assert(self.state()[k] == entries@[i as int]@);
                    assert(self.state().contains_key(k) && points_into(self.state()[k], segment_id));
                }
                return true;
            }
            i = i + 1;
        }
        proof {
            if self.references(segment_id) {
                let k = choose|k: Seq<u8>| #[trigger] self.state().contains_key(k) && points_into(self.state()[k], segment_id);
                assert(live_only(self.state()).contains_key(k));
                assert(crate::run::has_key(entries@, k));
                let x = choose|x: int| 0 <= x < entries@.len() && #[trigger] entries@[x].key@ == k;
                crate::run::lemma_entry_for(entries@, x);
                assert(entries_map(entries@)[k] == entries@[x]@);
                assert(live_only(self.state())[k] == self.state()[k]);
                assert(points_into(entries@[x]@, segment_id));
            }
        }
        false
    }
}

/// An entry that reads its value through a pointer into segment `s`.
pub open spec fn points_into(e: EntryModel, s: u64) -> bool {
    e.op_type != OpType::Delete && e.value is None && e.value_pointer is Some && e.value_pointer.unwrap().segment_id == s
}

} // verus!
