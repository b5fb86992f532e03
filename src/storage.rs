//! The data model: keys, values, value pointers, entries, batches and ranges.
use vstd::prelude::*;
use core::cmp::Ordering;
use crate::bytes::{bytes_cmp, compare_bytes, copy_bytes};

verus! {

/// Milliseconds since the Unix epoch, as the system clock reports them.
///
/// Relies on `std::time::SystemTime::now`; a clock set before the epoch reads as zero.
/// Nothing is promised of the value: clocks may jump.
#[verifier::external_body]
pub(crate) fn now_millis() -> (r: u64) {
    match std::time::SystemTime::now().duration_since(std::time::UNIX_EPOCH) {
        Ok(d) => d.as_millis() as u64,
        Err(_) => 0,
    }
}

/// A key: bytes ordered lexicographically, with optional user metadata that takes no
/// part in the order.
#[derive(Debug, Clone, PartialEq, Eq, Hash)]
pub struct Key {
    /// The key bytes.
    pub data: Vec<u8>,
    /// Optional user-defined metadata.
    pub metadata: Option<Vec<u8>>,
}

impl View for Key {
    type V = Seq<u8>;

    open spec fn view(&self) -> Seq<u8> {
        self.data@
    }
}

impl Key {
    /// A key holding `data` and no metadata.
    pub fn new(data: Vec<u8>) -> (r: Key)
        ensures
            r@ == data@,
            r.metadata.is_none(),
    {
        Key { data, metadata: None }
    }

    /// A key holding `data` and `metadata`.
    pub fn with_metadata(data: Vec<u8>, metadata: Vec<u8>) -> (r: Key)
        ensures
            r@ == data@,
            r.metadata.is_some(),
            r.metadata.unwrap()@ == metadata@,
    {
        Key { data, metadata: Some(metadata) }
    }

    /// A key holding a copy of `data` and no metadata.
    pub fn from_slice(data: &[u8]) -> (r: Key)
        ensures
            r@ == data@,
            r.metadata.is_none(),
    {
        Key { data: copy_bytes(data), metadata: None }
    }

    /// The key bytes.
    pub fn as_bytes(&self) -> (r: &[u8])
        ensures
            r@ == self@,
    {
        self.data.as_slice()
    }

    /// The number of key bytes.
    pub fn len(&self) -> (r: usize)
        ensures
            r == self@.len(),
    {
        self.data.len()
    }

    /// Whether the key has no bytes.
    pub fn is_empty(&self) -> (r: bool)
        ensures
            r == (self@.len() == 0),
    {
        self.data.len() == 0
    }

    /// Orders two keys by their bytes, ignoring metadata.
    pub fn compare(&self, other: &Key) -> (r: Ordering)
        ensures
            r == bytes_cmp(self@, other@),
    {
        compare_bytes(self.data.as_slice(), other.data.as_slice())
    }

    /// A key with the same bytes and metadata.
    pub fn duplicate(&self) -> (r: Key)
        ensures
            r@ == self@,
            r.metadata.is_some() == self.metadata.is_some(),
            self.metadata.is_some() ==> r.metadata.unwrap()@ == self.metadata.unwrap()@,
    {
        let metadata = match &self.metadata {
            Some(m) => Some(copy_bytes(m.as_slice())),
            None => None,
        };
        Key { data: copy_bytes(self.data.as_slice()), metadata }
    }
}

/// A value: bytes plus a compression flag and an optional checksum.
#[derive(Debug, Clone, PartialEq, Eq)]
pub struct Value {
    /// The value bytes.
    pub data: Vec<u8>,
    /// Whether `data` is compressed.
    pub compressed: bool,
    /// Optional checksum of the plaintext.
    pub checksum: Option<u32>,
}

impl View for Value {
    type V = Seq<u8>;

    open spec fn view(&self) -> Seq<u8> {
        self.data@
    }
}

impl Value {
    /// An uncompressed value holding `data`, with no checksum.
    pub fn new(data: Vec<u8>) -> (r: Value)
        ensures
            r@ == data@,
            !r.compressed,
            r.checksum.is_none(),
    {
        Value { data, compressed: false, checksum: None }
    }

    /// A compressed value holding `data`, with its checksum.
    pub fn compressed(data: Vec<u8>, checksum: u32) -> (r: Value)
        ensures
            r@ == data@,
            r.compressed,
            r.checksum == Some(checksum),
    {
        Value { data, compressed: true, checksum: Some(checksum) }
    }

    /// An uncompressed value holding a copy of `data`.
    pub fn from_slice(data: &[u8]) -> (r: Value)
        ensures
            r@ == data@,
            !r.compressed,
            r.checksum.is_none(),
    {
        Value { data: copy_bytes(data), compressed: false, checksum: None }
    }

    /// The value bytes.
    pub fn as_bytes(&self) -> (r: &[u8])
        ensures
            r@ == self@,
    {
        self.data.as_slice()
    }

    /// The number of value bytes.
    pub fn len(&self) -> (r: usize)
        ensures
            r == self@.len(),
    {
        self.data.len()
    }

    /// Whether the value has no bytes.
    pub fn is_empty(&self) -> (r: bool)
        ensures
            r == (self@.len() == 0),
    {
        self.data.len() == 0
    }

    /// Whether the value is large: at least `threshold` bytes, so that it belongs in
    /// the value log.
    pub fn is_large(&self, threshold: usize) -> (r: bool)
        ensures
            r == (self@.len() >= threshold),
    {
        self.data.len() >= threshold
    }

    /// A value with the same bytes, flag and checksum.
    pub fn duplicate(&self) -> (r: Value)
        ensures
            r@ == self@,
            r.compressed == self.compressed,
            r.checksum == self.checksum,
    {
        Value { data: copy_bytes(self.data.as_slice()), compressed: self.compressed, checksum: self.checksum }
    }
}

/// The location of a value in the value log: segment, offset of the entry and length
/// of the stored bytes, with an optional checksum of the plaintext.
#[derive(Debug, Clone, Copy, PartialEq, Eq, Hash, Structural)]
pub struct ValuePointer {
    /// Segment id in the value log.
    pub segment_id: u64,
    /// Offset of the entry within the segment.
    pub offset: u64,
    /// Length of the stored value bytes.
    pub length: u32,
    /// Optional checksum of the plaintext.
    pub checksum: Option<u32>,
}

impl ValuePointer {
    /// A pointer without checksum.
    pub fn new(segment_id: u64, offset: u64, length: u32) -> (r: ValuePointer)
        ensures
            r == (ValuePointer { segment_id, offset, length, checksum: None }),
    {
        ValuePointer { segment_id, offset, length, checksum: None }
    }

    /// A pointer with checksum.
    pub fn with_checksum(segment_id: u64, offset: u64, length: u32, checksum: u32) -> (r: ValuePointer)
        ensures
            r == (ValuePointer { segment_id, offset, length, checksum: Some(checksum) }),
    {
        ValuePointer { segment_id, offset, length, checksum: Some(checksum) }
    }

    /// The offset just past the stored bytes, `offset + length`.
    pub fn end_offset(&self) -> (r: u64)
        requires
            self.offset + self.length <= u64::MAX,
        ensures
            r == self.offset + self.length,
    {
        self.offset + self.length as u64
    }

    /// A pointer is valid when segment, offset and length are all non-zero.
    pub fn is_valid(&self) -> (r: bool)
        ensures
            r == (self.segment_id > 0 && self.offset > 0 && self.length > 0),
    {
        self.segment_id > 0 && self.offset > 0 && self.length > 0
    }
}

/// The kind of a write.
#[derive(Debug, Clone, Copy, PartialEq, Eq, Structural)]
pub enum OpType {
    /// Installs a value.
    Put,
    /// Installs a tombstone.
    Delete,
    /// Merges into the current value.
    Merge,
}

/// The unit of writes: a key with an inline value, a value pointer, or neither (a
/// tombstone), a sequence number, a timestamp and an operation tag.
#[derive(Debug, Clone)]
pub struct Entry {
    /// The key.
    pub key: Key,
    /// The inline value, if any.
    pub value: Option<Value>,
    /// The value pointer, if the value lives in the value log.
    pub value_pointer: Option<ValuePointer>,
    /// Sequence number, assigned at ingress.
    pub sequence: u64,
    /// Operation tag.
    pub op_type: OpType,
    /// Wall-clock milliseconds, informational.
    pub timestamp: u64,
}

/// What an entry says, as mathematical values.
pub ghost struct EntryModel {
    pub key: Seq<u8>,
    pub value: Option<Seq<u8>>,
    pub value_pointer: Option<ValuePointer>,
    pub sequence: u64,
    pub op_type: OpType,
}

impl View for Entry {
    type V = EntryModel;

    open spec fn view(&self) -> EntryModel {
        EntryModel {
            key: self.key@,
            value: match self.value {
                Some(v) => Some(v@),
                None => None,
            },
            value_pointer: self.value_pointer,
            sequence: self.sequence,
            op_type: self.op_type,
        }
    }
}

impl EntryModel {
    /// Exactly one of inline value, pointer, or neither for a tombstone.
    pub open spec fn well_formed(self) -> bool {
        match self.op_type {
            OpType::Delete => self.value.is_none() && self.value_pointer.is_none(),
            _ => self.value.is_some() != self.value_pointer.is_some(),
        }
    }
}

impl Entry {
    /// A put entry with an inline value, stamped with the current time.
    pub fn new(key: Key, value: Value, sequence: u64) -> (r: Entry)
        ensures
            r@ == (EntryModel {
                key: key@,
                value: Some(value@),
                value_pointer: None,
                sequence,
                op_type: OpType::Put,
            }),
            r@.well_formed(),
    {
        Entry { key, value: Some(value), value_pointer: None, sequence, op_type: OpType::Put, timestamp: now_millis() }
    }

    /// A put entry whose value lives in the value log, stamped with the current time.
    pub fn with_pointer(key: Key, value_pointer: ValuePointer, sequence: u64) -> (r: Entry)
        ensures
            r@ == (EntryModel {
                key: key@,
                value: None,
                value_pointer: Some(value_pointer),
                sequence,
                op_type: OpType::Put,
            }),
            r@.well_formed(),
    {
        Entry {
            key,
            value: None,
            value_pointer: Some(value_pointer),
            sequence,
            op_type: OpType::Put,
            timestamp: now_millis(),
        }
    }

    /// A tombstone for `key`, stamped with the current time.
    pub fn delete(key: Key, sequence: u64) -> (r: Entry)
        ensures
            r@ == (EntryModel {
                key: key@,
                value: None,
                value_pointer: None,
                sequence,
                op_type: OpType::Delete,
            }),
            r@.well_formed(),
    {
        Entry { key, value: None, value_pointer: None, sequence, op_type: OpType::Delete, timestamp: now_millis() }
    }

    /// Whether the entry carries its value inline.
    pub fn has_inline_value(&self) -> (r: bool)
        ensures
            r == self@.value.is_some(),
    {
        self.value.is_some()
    }

    /// Whether the entry carries a value pointer.
    pub fn has_value_pointer(&self) -> (r: bool)
        ensures
            r == self@.value_pointer.is_some(),
    {
        self.value_pointer.is_some()
    }

    /// Whether the entry is a delete.
    pub fn is_delete(&self) -> (r: bool)
        ensures
            r == (self@.op_type == OpType::Delete),
    {
        match self.op_type {
            OpType::Delete => true,
            _ => false,
        }
    }

    /// An entry that says the same: key, value, pointer, sequence, tag and timestamp.
    pub fn duplicate(&self) -> (r: Entry)
        ensures
            r@ == self@,
            r.timestamp == self.timestamp,
    {
        let value = match &self.value {
            Some(v) => Some(v.duplicate()),
            None => None,
        };
        Entry {
            key: self.key.duplicate(),
            value,
            value_pointer: self.value_pointer,
            sequence: self.sequence,
            op_type: self.op_type,
            timestamp: self.timestamp,
        }
    }
}

/// An ordered sequence of entries written atomically.
#[derive(Debug, Clone)]
pub struct Batch {
    /// The operations, in order.
    pub operations: Vec<Entry>,
    /// Batch sequence number.
    pub sequence: u64,
    /// Whether the batch is to be synced.
    pub sync: bool,
}

impl Batch {
    /// An empty batch.
    pub fn new() -> (r: Batch)
        ensures
            r.operations@.len() == 0,
            r.sequence == 0,
            !r.sync,
    {
        Batch { operations: Vec::new(), sequence: 0, sync: false }
    }

    /// Appends an operation.
    pub fn add(&mut self, operation: Entry)
        ensures
            final(self).operations@ == old(self).operations@.push(operation),
            final(self).sequence == old(self).sequence,
            final(self).sync == old(self).sync,
    {
        self.operations.push(operation);
    }

    /// The batch with its sequence number set.
    pub fn with_sequence(self, sequence: u64) -> (r: Batch)
        ensures
            r.operations@ == self.operations@,
            r.sequence == sequence,
            r.sync == self.sync,
    {
        Batch { operations: self.operations, sequence, sync: self.sync }
    }

    /// The batch with its sync flag set.
    pub fn with_sync(self, sync: bool) -> (r: Batch)
        ensures
            r.operations@ == self.operations@,
            r.sequence == self.sequence,
            r.sync == sync,
    {
        Batch { operations: self.operations, sequence: self.sequence, sync }
    }

    /// Whether the batch has no operations.
    pub fn is_empty(&self) -> (r: bool)
        ensures
            r == (self.operations@.len() == 0),
    {
        self.operations.len() == 0
    }

    /// The number of operations.
    pub fn len(&self) -> (r: usize)
        ensures
            r == self.operations@.len(),
    {
        self.operations.len()
    }
}

impl Default for Batch {
    fn default() -> (r: Batch)
        ensures
            r.operations@.len() == 0,
            r.sequence == 0,
            !r.sync,
    {
        Batch::new()
    }
}

/// A half-open key range `[start, end)` with an optional row limit.
#[derive(Debug, Clone)]
pub struct Range {
    /// First key of the range.
    pub start: Key,
    /// First key past the range.
    pub end: Key,
    /// Most rows to return.
    pub limit: Option<usize>,
}

impl Range {
    /// The range `[start, end)` without limit.
    pub fn new(start: Key, end: Key) -> (r: Range)
        ensures
            r.start == start,
            r.end == end,
            r.limit.is_none(),
    {
        Range { start, end, limit: None }
    }

    /// The range with a row limit.
    pub fn with_limit(self, limit: usize) -> (r: Range)
        ensures
            r.start == self.start,
            r.end == self.end,
            r.limit == Some(limit),
    {
        Range { start: self.start, end: self.end, limit: Some(limit) }
    }
}

} // verus!
