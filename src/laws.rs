//! Laws relating the engine's operations, stated over the visible key/value view that
//! their contracts speak of.
use vstd::prelude::*;
use crate::api::{batch_effect, points_into, range_result, visible};
use crate::bytes::{bytes_lt, lemma_empty_range};
use crate::run::live_only;
use crate::storage::{Entry, EntryModel, Key, OpType, Value};

verus! {

/// A value read right after it was put under a key is that value.
pub proof fn lemma_put_then_get(view: Map<Seq<u8>, Seq<u8>>, k: Seq<u8>, v: Seq<u8>)
    ensures
        view.insert(k, v).contains_key(k),
        view.insert(k, v)[k] == v,
{
}

/// A key put and then deleted reads as absent.
pub proof fn lemma_put_delete_get(view: Map<Seq<u8>, Seq<u8>>, k: Seq<u8>, v: Seq<u8>)
    ensures
        !view.insert(k, v).remove(k).contains_key(k),
{
}

/// After a batch of two puts under different keys, each key reads its own value.
pub proof fn lemma_batch_of_two_puts(view: Map<Seq<u8>, Seq<u8>>, a: Entry, b: Entry)
    requires
        a.op_type == OpType::Put,
        b.op_type == OpType::Put,
        a.value is Some,
        b.value is Some,
        a.key@ != b.key@,
    ensures
        batch_effect(view, seq![a, b]).contains_key(a.key@),
        batch_effect(view, seq![a, b])[a.key@] == a.value.unwrap()@,
        batch_effect(view, seq![a, b]).contains_key(b.key@),
        batch_effect(view, seq![a, b])[b.key@] == b.value.unwrap()@,
{
    let two = seq![a, b];
    let one = seq![a];
    assert(two.drop_last() =~= one);
    assert(one.drop_last() =~= Seq::<Entry>::empty());
    assert(two.last() == b);
    assert(one.last() == a);
    assert(batch_effect(view, Seq::<Entry>::empty()) == view);
    assert(batch_effect(view, one) == view.insert(a.key@, a.value.unwrap()@));
    assert(batch_effect(view, two) == batch_effect(view, one).insert(b.key@, b.value.unwrap()@));
}

/// A range whose start is not before its end reads as empty.
pub proof fn lemma_empty_scan(
    out: Seq<(Key, Value)>,
    view: Map<Seq<u8>, Seq<u8>>,
    start: Seq<u8>,
    end: Seq<u8>,
    limit: Option<usize>,
)
    requires
        range_result(out, view, Some(start), Some(end), limit),
        !bytes_lt(start, end),
    ensures
        out.len() == 0,
{
    if out.len() > 0 {
        lemma_empty_range(out[0].0@, start, end);
    }
}

/// Dropping tombstones leaves what is visible unchanged: a compaction at the bottom
/// level keeps every visible pair and adds none.
pub proof fn lemma_drop_tombstones_keeps_view(m: Map<Seq<u8>, EntryModel>, vlog: Seq<Seq<u8>>)
    ensures
        visible(live_only(m), vlog) == visible(m, vlog),
{
    assert(visible(live_only(m), vlog) =~= visible(m, vlog));
}

} // verus!

verus! {

/// A write as the engine's contracts see it: key, value (none for a delete) and the
/// sequence number it was given.
pub type Write = (Seq<u8>, Option<Seq<u8>>, u64);

/// The visible pairs after applying writes in order, as `put` and `delete` do.
pub open spec fn apply_writes(view: Map<Seq<u8>, Seq<u8>>, ws: Seq<Write>) -> Map<Seq<u8>, Seq<u8>>
    decreases ws.len(),
{
    if ws.len() == 0 {
        view
    } else {
        let w = ws.last();
        let before = apply_writes(view, ws.drop_last());
        match w.1 {
            Some(v) => before.insert(w.0, v),
            None => before.remove(w.0),
        }
    }
}

/// Sequence numbers strictly increase along the writes.
pub open spec fn sequences_increase(ws: Seq<Write>) -> bool {
    forall|i: int, j: int| 0 <= i < j < ws.len() ==> (#[trigger] ws[i]).2 < (#[trigger] ws[j]).2
}

/// A key reads the value of its write with the largest sequence number: when sequence
/// numbers increase with every write, the write `i` that has the largest sequence among
/// the writes of its key decides what the key reads.
pub proof fn lemma_latest_write_wins(ws: Seq<Write>, i: int)
    requires
        sequences_increase(ws),
        0 <= i < ws.len(),
        forall|j: int| 0 <= j < ws.len() && (#[trigger] ws[j]).0 == ws[i].0 ==> ws[j].2 <= ws[i].2,
    ensures
        apply_writes(Map::empty(), ws).contains_key(ws[i].0) == ws[i].1 is Some,
        ws[i].1 is Some ==> apply_writes(Map::empty(), ws)[ws[i].0] == ws[i].1.unwrap(),
    decreases ws.len(),
{
    let k = ws[i].0;
    if i < ws.len() - 1 {
        let rest = ws.drop_last();
        assert forall|a: int, b: int| 0 <= a < b < rest.len() implies (#[trigger] rest[a]).2 < (#[trigger] rest[b]).2 by {
            assert(rest[a] == ws[a] && rest[b] == ws[b]);
        }
        assert forall|j: int| 0 <= j < rest.len() && (#[trigger] rest[j]).0 == rest[i].0 implies rest[j].2 <= rest[i].2 by {
            assert(rest[j] == ws[j]);
        }
        lemma_latest_write_wins(rest, i);
        let last = ws.len() - 1;
        if ws[last].0 == k {
            assert(ws[i].2 < ws[last].2);
        }
    }
}

} // verus!

verus! {

/// A segment that no live entry points into can be reclaimed: whatever its bytes
/// become, every visible value stays the same.
pub proof fn lemma_reclaim_unreferenced(m: Map<Seq<u8>, EntryModel>, vlog: Seq<Seq<u8>>, s: u64, data: Seq<u8>)
    requires
        1 <= s <= vlog.len(),
        forall|k: Seq<u8>| #[trigger] m.contains_key(k) ==> !points_into(m[k], s),
    ensures
        visible(m, vlog.update(s - 1, data)) == visible(m, vlog),
{
    let v2 = vlog.update(s - 1, data);
    assert forall|k: Seq<u8>| #[trigger] m.contains_key(k) implies crate::api::resolve_value(m[k], v2) == crate::api::resolve_value(m[k], vlog) by {
        let e = m[k];
        if e.op_type != OpType::Delete && e.value is None && e.value_pointer is Some {
            let p = e.value_pointer.unwrap();
            if 1 <= p.segment_id <= vlog.len() {
                assert(v2[p.segment_id - 1] == vlog[p.segment_id - 1]);
            }
        }
    }
    assert(visible(m, v2) =~= visible(m, vlog));
}

} // verus!

verus! {

/// A logged operation whose pointer, if any, reads in `vlog`.
pub open spec fn op_reads(m: crate::wal_record::RecordModel, vlog: Seq<Seq<u8>>) -> bool {
    match m {
        crate::wal_record::RecordModel::PutPointer { value_pointer, .. } => crate::vlog::vlog_read(vlog, value_pointer) is Some,
        _ => true,
    }
}

proof fn lemma_ops_effect_stable(
    v: Map<Seq<u8>, Seq<u8>>,
    ops: Seq<crate::wal_record::RecordModel>,
    vlog: Seq<Seq<u8>>,
    grown: Seq<Seq<u8>>,
)
    requires
        forall|i: int| 0 <= i < ops.len() ==> op_reads(#[trigger] ops[i], vlog),
        forall|p| #[trigger] crate::vlog::vlog_read(vlog, p) is Some ==> crate::vlog::vlog_read(grown, p)
            == crate::vlog::vlog_read(vlog, p),
    ensures
        crate::api::ops_effect(v, ops, grown) == crate::api::ops_effect(v, ops, vlog),
    decreases ops.len(),
{
    if ops.len() > 0 {
        let rest = ops.drop_last();
        assert forall|i: int| 0 <= i < rest.len() implies op_reads(#[trigger] rest[i], vlog) by {
            assert(rest[i] == ops[i]);
        }
        lemma_ops_effect_stable(v, rest, vlog, grown);
        assert(op_reads(ops[ops.len() - 1], vlog));
    }
}

/// Bytes that reach the value log without a log record referring to them, as when a
/// crash falls between the two, change nothing on recovery: replaying records whose
/// pointers read gives the same pairs whatever else the value log holds.
pub proof fn lemma_orphan_bytes_tolerated(
    v: Map<Seq<u8>, Seq<u8>>,
    m: crate::wal_record::RecordModel,
    vlog: Seq<Seq<u8>>,
    grown: Seq<Seq<u8>>,
)
    requires
        match m {
            crate::wal_record::RecordModel::Batch { operations, .. } => forall|i: int|
                0 <= i < operations.len() ==> op_reads(#[trigger] operations[i], vlog),
            _ => op_reads(m, vlog),
        },
        forall|p| #[trigger] crate::vlog::vlog_read(vlog, p) is Some ==> crate::vlog::vlog_read(grown, p)
            == crate::vlog::vlog_read(vlog, p),
    ensures
        crate::api::record_effect(v, m, grown) == crate::api::record_effect(v, m, vlog),
{
    match m {
        crate::wal_record::RecordModel::Batch { operations, .. } => {
            lemma_ops_effect_stable(v, operations, vlog, grown);
        },
        _ => {},
    }
}

} // verus!
