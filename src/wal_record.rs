//! Write-ahead log records and their binary payload format.
//!
//! A payload starts with a four-byte variant tag (0 put, 1 put by pointer, 2 delete,
//! 3 batch). Byte strings are preceded by their length as eight bytes, integers are
//! little-endian, and an optional checksum is a byte 0 or 1 followed, for 1, by four
//! bytes. A batch holds a count and then its operations, none of which is a batch.
use vstd::prelude::*;
use crate::codec::{
    field_bytes, get_bytes, get_u32, get_u64, le_to_u32, le_to_u64, lemma_u32_round_trip,
    lemma_u64_round_trip, put_field, put_u32, put_u64, u32_le, u64_le,
};
use crate::storage::ValuePointer;

verus! {

/// A record of the write-ahead log.
#[derive(Debug)]
pub enum WalRecord {
    /// A put with an inline value.
    Put { key: Vec<u8>, value: Vec<u8>, sequence: u64, timestamp: u64 },
    /// A put whose value lives in the value log.
    PutPointer { key: Vec<u8>, value_pointer: ValuePointer, sequence: u64, timestamp: u64 },
    /// A delete.
    Delete { key: Vec<u8>, sequence: u64, timestamp: u64 },
    /// Operations applied atomically.
    Batch { operations: Vec<WalRecord>, sequence: u64, timestamp: u64 },
}

/// What a record says, as mathematical values.
pub ghost enum RecordModel {
    Put { key: Seq<u8>, value: Seq<u8>, sequence: u64, timestamp: u64 },
    PutPointer { key: Seq<u8>, value_pointer: ValuePointer, sequence: u64, timestamp: u64 },
    Delete { key: Seq<u8>, sequence: u64, timestamp: u64 },
    Batch { operations: Seq<RecordModel>, sequence: u64, timestamp: u64 },
}

/// The model of a record, reading a batch's operations no deeper than one level.
pub open spec fn flat_view(r: WalRecord) -> RecordModel {
    match r {
        WalRecord::Put { key, value, sequence, timestamp } => RecordModel::Put {
            key: key@,
            value: value@,
            sequence,
            timestamp,
        },
        WalRecord::PutPointer { key, value_pointer, sequence, timestamp } => RecordModel::PutPointer {
            key: key@,
            value_pointer,
            sequence,
            timestamp,
        },
        WalRecord::Delete { key, sequence, timestamp } => RecordModel::Delete {
            key: key@,
            sequence,
            timestamp,
        },
        WalRecord::Batch { operations, sequence, timestamp } => RecordModel::Batch {
            operations: Seq::empty(),
            sequence,
            timestamp,
        },
    }
}

impl View for WalRecord {
    type V = RecordModel;

    open spec fn view(&self) -> RecordModel {
        match self {
            WalRecord::Batch { operations, sequence, timestamp } => RecordModel::Batch {
                operations: operations@.map_values(|o: WalRecord| flat_view(o)),
                sequence: *sequence,
                timestamp: *timestamp,
            },
            _ => flat_view(*self),
        }
    }
}

impl RecordModel {
    pub open spec fn is_batch(self) -> bool {
        self is Batch
    }

    /// A record that the format can carry: a batch's operations are no batches, and
    /// every length fits in eight bytes.
    pub open spec fn well_formed(self) -> bool {
        match self {
            RecordModel::Batch { operations, .. } => operations.len() <= u64::MAX && forall|i: int|
                0 <= i < operations.len() ==> #[trigger] operations[i].flat_well_formed(),
            _ => self.flat_well_formed(),
        }
    }

    /// A record other than a batch, with lengths that fit in eight bytes.
    pub open spec fn flat_well_formed(self) -> bool {
        match self {
            RecordModel::Put { key, value, .. } => key.len() <= u64::MAX && value.len() <= u64::MAX,
            RecordModel::PutPointer { key, .. } => key.len() <= u64::MAX,
            RecordModel::Delete { key, .. } => key.len() <= u64::MAX,
            RecordModel::Batch { .. } => false,
        }
    }
}

/// The bytes of a value pointer.
pub open spec fn pointer_bytes(p: ValuePointer) -> Seq<u8> {
    u64_le(p.segment_id) + u64_le(p.offset) + u32_le(p.length) + match p.checksum {
        None => seq![0u8],
        Some(c) => seq![1u8] + u32_le(c),
    }
}

/// The bytes of a record other than a batch.
pub open spec fn flat_bytes(m: RecordModel) -> Seq<u8> {
    match m {
        RecordModel::Put { key, value, sequence, timestamp } => u32_le(0) + field_bytes(key)
            + field_bytes(value) + u64_le(sequence) + u64_le(timestamp),
        RecordModel::PutPointer { key, value_pointer, sequence, timestamp } => u32_le(1)
            + field_bytes(key) + pointer_bytes(value_pointer) + u64_le(sequence) + u64_le(
            timestamp,
        ),
        RecordModel::Delete { key, sequence, timestamp } => u32_le(2) + field_bytes(key) + u64_le(
            sequence,
        ) + u64_le(timestamp),
        RecordModel::Batch { .. } => Seq::empty(),
    }
}

/// The bytes of a batch's operations, one after the other.
pub open spec fn ops_bytes(ops: Seq<RecordModel>) -> Seq<u8>
    decreases ops.len(),
{
    if ops.len() == 0 {
        Seq::empty()
    } else {
        flat_bytes(ops[0]) + ops_bytes(ops.drop_first())
    }
}

/// The payload bytes of a record.
pub open spec fn record_bytes(m: RecordModel) -> Seq<u8> {
    match m {
        RecordModel::Batch { operations, sequence, timestamp } => u32_le(3) + u64_le(
            operations.len() as u64,
        ) + ops_bytes(operations) + u64_le(sequence) + u64_le(timestamp),
        _ => flat_bytes(m),
    }
}

// Reading, as a parser over positions of a byte string.
#[verifier::opaque]
pub open spec fn parse_u8(s: Seq<u8>, p: int) -> Option<(u8, int)> {
    if 0 <= p && p + 1 <= s.len() {
        Some((s[p], p + 1))
    } else {
        None
    }
}

#[verifier::opaque]
pub open spec fn parse_u32(s: Seq<u8>, p: int) -> Option<(u32, int)> {
    if 0 <= p && p + 4 <= s.len() {
        Some((le_to_u32(s.subrange(p, p + 4)), p + 4))
    } else {
        None
    }
}

#[verifier::opaque]
pub open spec fn parse_u64(s: Seq<u8>, p: int) -> Option<(u64, int)> {
    if 0 <= p && p + 8 <= s.len() {
        Some((le_to_u64(s.subrange(p, p + 8)), p + 8))
    } else {
        None
    }
}

#[verifier::opaque]
pub open spec fn parse_field(s: Seq<u8>, p: int) -> Option<(Seq<u8>, int)> {
    match parse_u64(s, p) {
        Some((n, q)) => if q + n <= s.len() {
            Some((s.subrange(q, q + n), q + n))
        } else {
            None
        },
        None => None,
    }
}

#[verifier::opaque]
pub open spec fn parse_pointer(s: Seq<u8>, p: int) -> Option<(ValuePointer, int)> {
    match parse_u64(s, p) {
        Some((seg, at1)) => match parse_u64(s, at1) {
            Some((off, at2)) => match parse_u32(s, at2) {
                Some((len, at3)) => match parse_u8(s, at3) {
                    Some((tag, at4)) => if tag == 0 {
                        Some((ValuePointer { segment_id: seg, offset: off, length: len, checksum: None }, at4))
                    } else if tag == 1 {
                        match parse_u32(s, at4) {
                            Some((c, at5)) => Some((ValuePointer { segment_id: seg, offset: off, length: len, checksum: Some(c) }, at5)),
                            None => None,
                        }
                    } else {
                        None
                    },
                    None => None,
                },
                None => None,
            },
            None => None,
        },
        None => None,
    }
}

/// Reads the sequence number and timestamp that close a record.
#[verifier::opaque]
pub open spec fn parse_tail(s: Seq<u8>, p: int) -> Option<(u64, u64, int)> {
    match parse_u64(s, p) {
        Some((sequence, q)) => match parse_u64(s, q) {
            Some((timestamp, e)) => Some((sequence, timestamp, e)),
            None => None,
        },
        None => None,
    }
}

/// Reads a record other than a batch.
#[verifier::opaque]
pub open spec fn parse_flat(s: Seq<u8>, p: int) -> Option<(RecordModel, int)> {
    match parse_u32(s, p) {
        Some((tag, at1)) => match parse_field(s, at1) {
            Some((key, at2)) => if tag == 0 {
                match parse_field(s, at2) {
                    Some((value, at3)) => match parse_tail(s, at3) {
                        Some((sequence, timestamp, e)) => Some((RecordModel::Put { key, value, sequence, timestamp }, e)),
                        None => None,
                    },
                    None => None,
                }
            } else if tag == 1 {
                match parse_pointer(s, at2) {
                    Some((value_pointer, at3)) => match parse_tail(s, at3) {
                        Some((sequence, timestamp, e)) => Some((RecordModel::PutPointer { key, value_pointer, sequence, timestamp }, e)),
                        None => None,
                    },
                    None => None,
                }
            } else if tag == 2 {
                match parse_tail(s, at2) {
                    Some((sequence, timestamp, e)) => Some((RecordModel::Delete { key, sequence, timestamp }, e)),
                    None => None,
                }
            } else {
                None
            },
            None => None,
        },
        None => None,
    }
}

/// Reads `count` records other than batches, one after the other.
#[verifier::opaque]
pub open spec fn parse_ops(s: Seq<u8>, p: int, count: nat) -> Option<(Seq<RecordModel>, int)>
    decreases count,
{
    if count == 0 {
        Some((Seq::empty(), p))
    } else {
        match parse_flat(s, p) {
            Some((m, q)) => match parse_ops(s, q, (count - 1) as nat) {
                Some((ms, e)) => Some((seq![m] + ms, e)),
                None => None,
            },
            None => None,
        }
    }
}

/// Reads one record.
#[verifier::opaque]
pub open spec fn parse_record(s: Seq<u8>, p: int) -> Option<(RecordModel, int)> {
    match parse_u32(s, p) {
        Some((tag, at1)) => if tag == 3 {
            match parse_u64(s, at1) {
                Some((count, at2)) => match parse_ops(s, at2, count as nat) {
                    Some((operations, at3)) => match parse_tail(s, at3) {
                        Some((sequence, timestamp, e)) => Some((RecordModel::Batch { operations, sequence, timestamp }, e)),
                        None => None,
                    },
                    None => None,
                },
                None => None,
            }
        } else {
            parse_flat(s, p)
        },
        None => None,
    }
}

/// The record that a payload holds, when it holds exactly one.
#[verifier::opaque]
pub open spec fn decode_payload(s: Seq<u8>) -> Option<RecordModel> {
    match parse_record(s, 0) {
        Some((m, e)) => if e == s.len() {
            Some(m)
        } else {
            None
        },
        None => None,
    }
}

} // verus!

verus! {

proof fn lemma_split(s: Seq<u8>, p: int, a: Seq<u8>, b: Seq<u8>)
    requires
        0 <= p,
        p + a.len() + b.len() <= s.len(),
        s.subrange(p, p + a.len() + b.len()) == a + b,
    ensures
        s.subrange(p, p + a.len()) == a,
        s.subrange(p + a.len(), p + a.len() + b.len()) == b,
{
    assert(s.subrange(p, p + a.len()) =~= s.subrange(p, p + a.len() + b.len()).subrange(0, a.len() as int));
    assert((a + b).subrange(0, a.len() as int) =~= a);
    assert(s.subrange(p + a.len(), p + a.len() + b.len()) =~= s.subrange(p, p + a.len() + b.len()).subrange(
        a.len() as int,
        (a.len() + b.len()) as int,
    ));
    assert((a + b).subrange(a.len() as int, (a.len() + b.len()) as int) =~= b);
}

proof fn lemma_parse_u32_at(s: Seq<u8>, p: int, x: u32)
    requires
        0 <= p,
        p + 4 <= s.len(),
        s.subrange(p, p + 4) == u32_le(x),
    ensures
        parse_u32(s, p) == Some((x, p + 4)),
{
    reveal(parse_u32);
    lemma_u32_round_trip(x);
}

proof fn lemma_parse_u64_at(s: Seq<u8>, p: int, x: u64)
    requires
        0 <= p,
        p + 8 <= s.len(),
        s.subrange(p, p + 8) == u64_le(x),
    ensures
        parse_u64(s, p) == Some((x, p + 8)),
{
    reveal(parse_u64);
    lemma_u64_round_trip(x);
}

proof fn lemma_parse_field_at(s: Seq<u8>, p: int, b: Seq<u8>)
    requires
        0 <= p,
        b.len() <= u64::MAX,
        p + field_bytes(b).len() <= s.len(),
        s.subrange(p, p + field_bytes(b).len()) == field_bytes(b),
    ensures
        parse_field(s, p) == Some((b, p + field_bytes(b).len())),
{
    lemma_split(s, p, u64_le(b.len() as u64), b);
    lemma_parse_u64_at(s, p, b.len() as u64);
    reveal(parse_field);
}

proof fn lemma_parse_tail_at(s: Seq<u8>, p: int, sequence: u64, timestamp: u64)
    requires
        0 <= p,
        p + 16 <= s.len(),
        s.subrange(p, p + 16) == u64_le(sequence) + u64_le(timestamp),
    ensures
        parse_tail(s, p) == Some((sequence, timestamp, p + 16)),
{
    lemma_split(s, p, u64_le(sequence), u64_le(timestamp));
    lemma_parse_u64_at(s, p, sequence);
    lemma_parse_u64_at(s, p + 8, timestamp);
    reveal(parse_tail);
}

proof fn lemma_parse_pointer_at(s: Seq<u8>, p: int, v: ValuePointer)
    requires
        0 <= p,
        p + pointer_bytes(v).len() <= s.len(),
        s.subrange(p, p + pointer_bytes(v).len()) == pointer_bytes(v),
    ensures
        parse_pointer(s, p) == Some((v, p + pointer_bytes(v).len())),
{
    let a = u64_le(v.segment_id);
    let b = u64_le(v.offset);
    let c = u32_le(v.length);
    let d = match v.checksum {
        None => seq![0u8],
        Some(k) => seq![1u8] + u32_le(k),
    };
    lemma_split(s, p, a + b + c, d);
    lemma_split(s, p, a + b, c);
    lemma_split(s, p, a, b);
    lemma_parse_u64_at(s, p, v.segment_id);
    lemma_parse_u64_at(s, p + 8, v.offset);
    lemma_parse_u32_at(s, p + 16, v.length);
    assert(s[p + 20] == s.subrange(p + 20, p + 20 + d.len())[0]);
    reveal(parse_u8);
    reveal(parse_pointer);
    match v.checksum {
        None => {},
        Some(k) => {
            lemma_split(s, p + 20, seq![1u8], u32_le(k));
            lemma_parse_u32_at(s, p + 21, k);
        },
    }
}

proof fn lemma_parse_flat_at(s: Seq<u8>, p: int, m: RecordModel)
    requires
        m.flat_well_formed(),
        0 <= p,
        p + flat_bytes(m).len() <= s.len(),
        s.subrange(p, p + flat_bytes(m).len()) == flat_bytes(m),
    ensures
        parse_flat(s, p) == Some((m, p + flat_bytes(m).len())),
{
    match m {
        RecordModel::Put { key, value, sequence, timestamp } => {
            let t = u32_le(0);
            let fk = field_bytes(key);
            let fv = field_bytes(value);
            let tl = u64_le(sequence) + u64_le(timestamp);
            assert(flat_bytes(m) =~= t + fk + fv + tl);
            lemma_split(s, p, t + fk + fv, tl);
            lemma_split(s, p, t + fk, fv);
            lemma_split(s, p, t, fk);
            lemma_parse_u32_at(s, p, 0);
            lemma_parse_field_at(s, p + 4, key);
            lemma_parse_field_at(s, p + 4 + fk.len(), value);
            lemma_parse_tail_at(s, p + 4 + fk.len() + fv.len(), sequence, timestamp);
            reveal(parse_flat);
        },
        RecordModel::PutPointer { key, value_pointer, sequence, timestamp } => {
            let t = u32_le(1);
            let fk = field_bytes(key);
            let fp = pointer_bytes(value_pointer);
            let tl = u64_le(sequence) + u64_le(timestamp);
            assert(flat_bytes(m) =~= t + fk + fp + tl);
            lemma_split(s, p, t + fk + fp, tl);
            lemma_split(s, p, t + fk, fp);
            lemma_split(s, p, t, fk);
            lemma_parse_u32_at(s, p, 1);
            lemma_parse_field_at(s, p + 4, key);
            lemma_parse_pointer_at(s, p + 4 + fk.len(), value_pointer);
            lemma_parse_tail_at(s, p + 4 + fk.len() + fp.len(), sequence, timestamp);
            reveal(parse_flat);
        },
        RecordModel::Delete { key, sequence, timestamp } => {
            let t = u32_le(2);
            let fk = field_bytes(key);
            let tl = u64_le(sequence) + u64_le(timestamp);
            assert(flat_bytes(m) =~= t + fk + tl);
            lemma_split(s, p, t + fk, tl);
            lemma_split(s, p, t, fk);
            lemma_parse_u32_at(s, p, 2);
            lemma_parse_field_at(s, p + 4, key);
            lemma_parse_tail_at(s, p + 4 + fk.len(), sequence, timestamp);
            reveal(parse_flat);
        },
        RecordModel::Batch { .. } => {},
    }
}

proof fn lemma_parse_ops_at(s: Seq<u8>, p: int, ops: Seq<RecordModel>)
    requires
        forall|i: int| 0 <= i < ops.len() ==> #[trigger] ops[i].flat_well_formed(),
        0 <= p,
        p + ops_bytes(ops).len() <= s.len(),
        s.subrange(p, p + ops_bytes(ops).len()) == ops_bytes(ops),
    ensures
        parse_ops(s, p, ops.len()) == Some((ops, p + ops_bytes(ops).len())),
    decreases ops.len(),
{
    if ops.len() > 0 {
        let rest = ops.drop_first();
        assert(forall|i: int| 0 <= i < rest.len() ==> #[trigger] rest[i] == ops[i + 1]);
        lemma_split(s, p, flat_bytes(ops[0]), ops_bytes(rest));
        lemma_parse_flat_at(s, p, ops[0]);
        lemma_parse_ops_at(s, p + flat_bytes(ops[0]).len(), rest);
        assert(seq![ops[0]] + rest =~= ops);
    }
    reveal(parse_ops);
}

/// A record read back from its bytes, followed by anything, is the record, and the
/// reading ends where its bytes end.
pub proof fn lemma_parse_record_at(s: Seq<u8>, p: int, m: RecordModel)
    requires
        m.well_formed(),
        0 <= p,
        p + record_bytes(m).len() <= s.len(),
        s.subrange(p, p + record_bytes(m).len()) == record_bytes(m),
    ensures
        parse_record(s, p) == Some((m, p + record_bytes(m).len())),
{
    match m {
        RecordModel::Batch { operations, sequence, timestamp } => {
            let t = u32_le(3);
            let c = u64_le(operations.len() as u64);
            let o = ops_bytes(operations);
            let tl = u64_le(sequence) + u64_le(timestamp);
            assert(record_bytes(m) =~= t + c + o + tl);
            lemma_split(s, p, t + c + o, tl);
            lemma_split(s, p, t + c, o);
            lemma_split(s, p, t, c);
            lemma_parse_u32_at(s, p, 3);
            lemma_parse_u64_at(s, p + 4, operations.len() as u64);
            lemma_parse_ops_at(s, p + 12, operations);
            lemma_parse_tail_at(s, p + 12 + o.len(), sequence, timestamp);
            reveal(parse_record);
        },
        _ => {
            lemma_parse_flat_at(s, p, m);
            let t = match m {
                RecordModel::Put { .. } => 0u32,
                RecordModel::PutPointer { .. } => 1u32,
                _ => 2u32,
            };
            assert(flat_bytes(m).subrange(0, 4) =~= u32_le(t));
            assert(s.subrange(p, p + 4) =~= s.subrange(p, p + flat_bytes(m).len()).subrange(0, 4));
            lemma_parse_u32_at(s, p, t);
            reveal(parse_record);
        },
    }
}

/// Decoding the payload of a well-formed record gives the record back.
pub proof fn lemma_record_round_trip(m: RecordModel)
    requires
        m.well_formed(),
    ensures
        decode_payload(record_bytes(m)) == Some(m),
{
    let s = record_bytes(m);
    assert(s.subrange(0, s.len() as int) =~= s);
    lemma_parse_record_at(s, 0, m);
    reveal(decode_payload);
}

} // verus!

verus! {

proof fn lemma_ops_bytes_push(ops: Seq<RecordModel>, m: RecordModel)
    ensures
        ops_bytes(ops.push(m)) == ops_bytes(ops) + flat_bytes(m),
    decreases ops.len(),
{
    if ops.len() == 0 {
        let one = ops.push(m);
        assert(one.drop_first() =~= Seq::<RecordModel>::empty());
        assert(ops_bytes(one.drop_first()) == Seq::<u8>::empty());
        assert(one[0] == m);
        assert(ops_bytes(ops) == Seq::<u8>::empty());
        assert(ops_bytes(one) =~= ops_bytes(ops) + flat_bytes(m));
    } else {
        assert(ops.push(m).drop_first() =~= ops.drop_first().push(m));
        lemma_ops_bytes_push(ops.drop_first(), m);
        assert(ops_bytes(ops.push(m)) =~= ops_bytes(ops) + flat_bytes(m));
    }
}

fn put_pointer(out: &mut Vec<u8>, v: &ValuePointer)
    ensures
        final(out)@ == old(out)@ + pointer_bytes(*v),
{
    put_u64(out, v.segment_id);
    put_u64(out, v.offset);
    put_u32(out, v.length);
    match v.checksum {
        None => {
            out.push(0u8);
        },
        Some(c) => {
            out.push(1u8);
            put_u32(out, c);
        },
    }
    assert(final(out)@ =~= old(out)@ + pointer_bytes(*v));
}

fn put_flat(out: &mut Vec<u8>, r: &WalRecord)
    requires
        flat_view(*r).flat_well_formed(),
    ensures
        final(out)@ == old(out)@ + flat_bytes(flat_view(*r)),
{
    match r {
        WalRecord::Put { key, value, sequence, timestamp } => {
            put_u32(out, 0);
            put_field(out, key.as_slice());
            put_field(out, value.as_slice());
            put_u64(out, *sequence);
            put_u64(out, *timestamp);
        },
        WalRecord::PutPointer { key, value_pointer, sequence, timestamp } => {
            put_u32(out, 1);
            put_field(out, key.as_slice());
            put_pointer(out, value_pointer);
            put_u64(out, *sequence);
            put_u64(out, *timestamp);
        },
        WalRecord::Delete { key, sequence, timestamp } => {
            put_u32(out, 2);
            put_field(out, key.as_slice());
            put_u64(out, *sequence);
            put_u64(out, *timestamp);
        },
        WalRecord::Batch { .. } => {},
    }
    assert(final(out)@ =~= old(out)@ + flat_bytes(flat_view(*r)));
}

/// The payload bytes of a record.
pub fn encode_record(r: &WalRecord) -> (out: Vec<u8>)
    requires
        r@.well_formed(),
    ensures
        out@ == record_bytes(r@),
{
    let mut out: Vec<u8> = Vec::new();
    match r {
        WalRecord::Batch { operations, sequence, timestamp } => {
            let ghost ops = operations@.map_values(|o: WalRecord| flat_view(o));
            put_u32(&mut out, 3);
            put_u64(&mut out, operations.len() as u64);
            let ghost head = out@;
            let mut i: usize = 0;
            while i < operations.len()
                invariant
                    ops == operations@.map_values(|o: WalRecord| flat_view(o)),
                    forall|j: int| 0 <= j < ops.len() ==> #[trigger] ops[j].flat_well_formed(),
                    0 <= i <= operations@.len(),
                    out@ == head + ops_bytes(ops.take(i as int)),
                decreases operations@.len() - i,
            {
                assert(ops[i as int] == flat_view(operations@[i as int]));
                assert(ops[i as int].flat_well_formed());
                put_flat(&mut out, &operations[i]);
                proof {
                    lemma_ops_bytes_push(ops.take(i as int), ops[i as int]);
                    assert(ops.take(i as int).push(ops[i as int]) =~= ops.take(i + 1));
                }
                i = i + 1;
            }
            assert(ops.take(i as int) =~= ops);
            put_u64(&mut out, *sequence);
            put_u64(&mut out, *timestamp);
            assert(out@ =~= record_bytes(r@));
        },
        _ => {
            put_flat(&mut out, r);
            assert(out@ =~= record_bytes(r@));
        },
    }
    out
}

fn read_u8(buf: &[u8], pos: usize) -> (r: Option<(u8, usize)>)
    ensures
        match parse_u8(buf@, pos as int) {
            Some((x, e)) => r is Some && r.unwrap().0 == x && r.unwrap().1 == e,
            None => r is None,
        },
        r is Some ==> pos <= r.unwrap().1 <= buf@.len(),
{
    reveal(parse_u8);
    let n = buf.len();
    if pos < n {
        Some((buf[pos], pos + 1))
    } else {
        None
    }
}

fn read_u32(buf: &[u8], pos: usize) -> (r: Option<(u32, usize)>)
    ensures
        match parse_u32(buf@, pos as int) {
            Some((x, e)) => r is Some && r.unwrap().0 == x && r.unwrap().1 == e,
            None => r is None,
        },
        r is Some ==> pos <= r.unwrap().1 <= buf@.len(),
{
    reveal(parse_u32);
    let _n = buf.len();
    match get_u32(buf, pos) {
        Some(x) => Some((x, pos + 4)),
        None => None,
    }
}

fn read_u64(buf: &[u8], pos: usize) -> (r: Option<(u64, usize)>)
    ensures
        match parse_u64(buf@, pos as int) {
            Some((x, e)) => r is Some && r.unwrap().0 == x && r.unwrap().1 == e,
            None => r is None,
        },
        r is Some ==> pos <= r.unwrap().1 <= buf@.len(),
{
    reveal(parse_u64);
    let _n = buf.len();
    match get_u64(buf, pos) {
        Some(x) => Some((x, pos + 8)),
        None => None,
    }
}

fn read_field(buf: &[u8], pos: usize) -> (r: Option<(Vec<u8>, usize)>)
    ensures
        match parse_field(buf@, pos as int) {
            Some((b, e)) => r is Some && r.unwrap().0@ == b && r.unwrap().1 == e,
            None => r is None,
        },
        r is Some ==> pos <= r.unwrap().1 <= buf@.len(),
{
    reveal(parse_field);
    match read_u64(buf, pos) {
        Some((n, q)) => {
            if n > (buf.len() - q) as u64 {
                None
            } else {
                match get_bytes(buf, q, n as usize) {
                    Some(b) => Some((b, q + n as usize)),
                    None => None,
                }
            }
        },
        None => None,
    }
}

fn read_pointer(buf: &[u8], pos: usize) -> (r: Option<(ValuePointer, usize)>)
    ensures
        match parse_pointer(buf@, pos as int) {
            Some((v, e)) => r is Some && r.unwrap().0 == v && r.unwrap().1 == e,
            None => r is None,
        },
        r is Some ==> pos <= r.unwrap().1 <= buf@.len(),
{
    reveal(parse_pointer);
    let (segment_id, at1) = match read_u64(buf, pos) {
        Some(x) => x,
        None => return None,
    };
    let (offset, at2) = match read_u64(buf, at1) {
        Some(x) => x,
        None => return None,
    };
    let (length, at3) = match read_u32(buf, at2) {
        Some(x) => x,
        None => return None,
    };
    let (tag, at4) = match read_u8(buf, at3) {
        Some(x) => x,
        None => return None,
    };
    if tag == 0 {
        Some((ValuePointer { segment_id, offset, length, checksum: None }, at4))
    } else if tag == 1 {
        match read_u32(buf, at4) {
            Some((c, at5)) => Some((ValuePointer { segment_id, offset, length, checksum: Some(c) }, at5)),
            None => None,
        }
    } else {
        None
    }
}

fn read_tail(buf: &[u8], pos: usize) -> (r: Option<(u64, u64, usize)>)
    ensures
        match parse_tail(buf@, pos as int) {
            Some((a, b, e)) => r is Some && r.unwrap().0 == a && r.unwrap().1 == b && r.unwrap().2 == e,
            None => r is None,
        },
        r is Some ==> pos <= r.unwrap().2 <= buf@.len(),
{
    reveal(parse_tail);
    match read_u64(buf, pos) {
        Some((sequence, q)) => match read_u64(buf, q) {
            Some((timestamp, e)) => Some((sequence, timestamp, e)),
            None => None,
        },
        None => None,
    }
}

fn read_flat(buf: &[u8], pos: usize) -> (r: Option<(WalRecord, usize)>)
    ensures
        match parse_flat(buf@, pos as int) {
            Some((m, e)) => r is Some && flat_view(r.unwrap().0) == m && r.unwrap().1 == e
                && !(r.unwrap().0 is Batch),
            None => r is None,
        },
        r is Some ==> pos <= r.unwrap().1 <= buf@.len(),
{
    reveal(parse_flat);
    let (tag, at1) = match read_u32(buf, pos) {
        Some(x) => x,
        None => return None,
    };
    let (key, at2) = match read_field(buf, at1) {
        Some(x) => x,
        None => return None,
    };
    if tag == 0 {
        let (value, at3) = match read_field(buf, at2) {
            Some(x) => x,
            None => return None,
        };
        match read_tail(buf, at3) {
            Some((sequence, timestamp, e)) => Some((WalRecord::Put { key, value, sequence, timestamp }, e)),
            None => None,
        }
    } else if tag == 1 {
        let (value_pointer, at3) = match read_pointer(buf, at2) {
            Some(x) => x,
            None => return None,
        };
        match read_tail(buf, at3) {
            Some((sequence, timestamp, e)) => Some(
                (WalRecord::PutPointer { key, value_pointer, sequence, timestamp }, e),
            ),
            None => None,
        }
    } else if tag == 2 {
        match read_tail(buf, at2) {
            Some((sequence, timestamp, e)) => Some((WalRecord::Delete { key, sequence, timestamp }, e)),
            None => None,
        }
    } else {
        None
    }
}

fn read_record(buf: &[u8], pos: usize) -> (r: Option<(WalRecord, usize)>)
    ensures
        match parse_record(buf@, pos as int) {
            Some((m, e)) => r is Some && r.unwrap().0@ == m && r.unwrap().1 == e,
            None => r is None,
        },
        r is Some ==> pos <= r.unwrap().1 <= buf@.len(),
{
    reveal(parse_record);
    let (tag, at1) = match read_u32(buf, pos) {
        Some(x) => x,
        None => return None,
    };
    if tag != 3 {
        return match read_flat(buf, pos) {
            Some((rec, e)) => Some((rec, e)),
            None => None,
        };
    }
    let (count, at2) = match read_u64(buf, at1) {
        Some(x) => x,
        None => return None,
    };
    let mut operations: Vec<WalRecord> = Vec::new();
    let mut cur: usize = at2;
    let mut i: u64 = 0;
    let ghost acc: Seq<RecordModel> = Seq::empty();
    while i < count
        invariant
            0 <= i <= count,
            pos <= at2 <= cur <= buf@.len(),
            parse_u32(buf@, pos as int) == Some((3u32, at1 as int)),
            parse_u64(buf@, at1 as int) == Some((count, at2 as int)),
            acc == operations@.map_values(|o: WalRecord| flat_view(o)),
            parse_ops(buf@, at2 as int, count as nat) == match parse_ops(
                buf@,
                cur as int,
                (count - i) as nat,
            ) {
                Some((ms, e)) => Some((acc + ms, e)),
                None => None::<(Seq<RecordModel>, int)>,
            },
        decreases count - i,
    {
        proof {
            reveal(parse_ops);
        }
        match read_flat(buf, cur) {
            Some((op, e)) => {
                proof {
                    let m = flat_view(op);
                    match parse_ops(buf@, e as int, (count - i - 1) as nat) {
                        Some((ms, e2)) => {
                            assert(acc + (seq![m] + ms) =~= acc.push(m) + ms);
                        },
                        None => {},
                    }
                    acc = acc.push(m);
                }
                operations.push(op);
                proof {
                    assert(acc =~= operations@.map_values(|o: WalRecord| flat_view(o)));
                }
                cur = e;
                i = i + 1;
            },
            None => {
                assert(parse_ops(buf@, cur as int, (count - i) as nat) is None);
                assert(parse_ops(buf@, at2 as int, count as nat) is None);
                reveal(parse_record);
                return None;
            },
        }
    }
    proof {
        reveal(parse_ops);
        assert(acc + Seq::<RecordModel>::empty() =~= acc);
    }
    match read_tail(buf, cur) {
        Some((sequence, timestamp, e)) => Some((WalRecord::Batch { operations, sequence, timestamp }, e)),
        None => None,
    }
}

/// The record that a payload holds, if it holds exactly one.
pub fn decode_record(buf: &[u8]) -> (r: Option<WalRecord>)
    ensures
        match decode_payload(buf@) {
            Some(m) => r is Some && r.unwrap()@ == m,
            None => r is None,
        },
{
    reveal(decode_payload);
    match read_record(buf, 0) {
        Some((rec, e)) => {
            if e == buf.len() {
                Some(rec)
            } else {
                None
            }
        },
        None => None,
    }
}

} // verus!

verus! {

impl WalRecord {
    /// Whether the format can carry the record: a batch holds no batch.
    pub fn is_well_formed(&self) -> (r: bool)
        ensures
            r == self@.well_formed(),
    {
        match self {
            WalRecord::Batch { operations, .. } => {
                let mut i: usize = 0;
                while i < operations.len()
                    invariant
                        0 <= i <= operations@.len(),
                        forall|j: int| 0 <= j < i ==> flat_view(#[trigger] operations@[j]).flat_well_formed(),
                        self@ is Batch,
                        self@->Batch_operations == operations@.map_values(|o: WalRecord| flat_view(o)),
                    decreases operations@.len() - i,
                {
                    match &operations[i] {
                        WalRecord::Batch { .. } => {
                            proof {
                                let ops = operations@.map_values(|o: WalRecord| flat_view(o));
                                assert(ops[i as int] == flat_view(operations@[i as int]));
                                assert(!ops[i as int].flat_well_formed());
                                assert(self@ is Batch);
                                assert(ops == self@->Batch_operations);
                            }
                            return false;
                        },
                        WalRecord::Put { key, value, .. } => {
                            proof {
                                vstd::std_specs::vec::axiom_spec_len(key);
                                vstd::std_specs::vec::axiom_spec_len(value);
                            }
                        },
                        WalRecord::PutPointer { key, .. } => {
                            proof {
                                vstd::std_specs::vec::axiom_spec_len(key);
                            }
                        },
                        WalRecord::Delete { key, .. } => {
                            proof {
                                vstd::std_specs::vec::axiom_spec_len(key);
                            }
                        },
                    }
                    i = i + 1;
                }
                proof {
                    vstd::std_specs::vec::axiom_spec_len(operations);
                    let ops = operations@.map_values(|o: WalRecord| flat_view(o));
                    assert forall|j: int| 0 <= j < ops.len() implies #[trigger] ops[j].flat_well_formed() by {
                        assert(ops[j] == flat_view(operations@[j]));
                    }
                }
                true
            },
            WalRecord::Put { key, value, .. } => {
                proof {
                    vstd::std_specs::vec::axiom_spec_len(key);
                    vstd::std_specs::vec::axiom_spec_len(value);
                }
                true
            },
            WalRecord::PutPointer { key, .. } => {
                proof {
                    vstd::std_specs::vec::axiom_spec_len(key);
                }
                true
            },
            WalRecord::Delete { key, .. } => {
                proof {
                    vstd::std_specs::vec::axiom_spec_len(key);
                }
                true
            },
        }
    }
}

} // verus!
