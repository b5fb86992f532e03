//! A run of entries held in ascending key order, one entry per key.
use vstd::prelude::*;
use core::cmp::Ordering;
use crate::bytes::{bytes_lt, lemma_lt_irreflexive, lemma_lt_total, lemma_lt_transitive};
use crate::storage::{Entry, EntryModel, Key, OpType};

verus! {

/// Entries strictly ascending by key.
pub open spec fn keys_ascending(s: Seq<Entry>) -> bool {
    forall|i: int, j: int| 0 <= i < j < s.len() ==> bytes_lt(#[trigger] s[i].key@, #[trigger] s[j].key@)
}

/// Some entry has key `k`.
pub open spec fn has_key(s: Seq<Entry>, k: Seq<u8>) -> bool {
    exists|i: int| 0 <= i < s.len() && #[trigger] s[i].key@ == k
}

/// A position of an entry with key `k`.
pub open spec fn key_index(s: Seq<Entry>, k: Seq<u8>) -> int {
    choose|i: int| 0 <= i < s.len() && #[trigger] s[i].key@ == k
}

/// The entry with key `k`.
pub open spec fn entry_for(s: Seq<Entry>, k: Seq<u8>) -> EntryModel {
    s[key_index(s, k)]@
}

/// The entries as a map from key bytes.
pub open spec fn entries_map(s: Seq<Entry>) -> Map<Seq<u8>, EntryModel> {
    Map::new(|k: Seq<u8>| has_key(s, k), |k: Seq<u8>| entry_for(s, k))
}

/// The models of entries, in order.
pub open spec fn entry_models(s: Seq<Entry>) -> Seq<EntryModel> {
    s.map_values(|e: Entry| e@)
}

/// The bytes an entry is charged for: key and inline value.
pub open spec fn entry_charge(e: Entry) -> int {
    e.key@.len() + match e.value {
        Some(v) => v@.len() as int,
        None => 0int,
    }
}

pub proof fn lemma_unique(s: Seq<Entry>, i: int, j: int)
    requires
        keys_ascending(s),
        0 <= i < s.len(),
        0 <= j < s.len(),
        s[i].key@ == s[j].key@,
    ensures
        i == j,
{
    lemma_lt_irreflexive(s[i].key@);
    if i < j {
        assert(bytes_lt(s[i].key@, s[j].key@));
    } else if j < i {
        assert(bytes_lt(s[j].key@, s[i].key@));
    }
}

pub proof fn lemma_entry_for(s: Seq<Entry>, i: int)
    requires
        keys_ascending(s),
        0 <= i < s.len(),
    ensures
        has_key(s, s[i].key@),
        entry_for(s, s[i].key@) == s[i]@,
{
    let k = s[i].key@;
    assert(s[i].key@ == k);
    assert(exists|j: int| 0 <= j < s.len() && #[trigger] s[j].key@ == k);
    let c = key_index(s, k);
    lemma_unique(s, i, c);
}

/// Entries in ascending key order, one per key.
#[derive(Debug)]
pub struct SortedRun {
    entries: Vec<Entry>,
}

impl View for SortedRun {
    type V = Map<Seq<u8>, EntryModel>;

    closed spec fn view(&self) -> Map<Seq<u8>, EntryModel> {
        entries_map(self.entries@)
    }
}

impl SortedRun {
    /// The table's invariant: entries strictly ascending by key.
    pub closed spec fn well_formed(&self) -> bool {
        keys_ascending(self.entries@)
    }

    /// The entries in ascending key order.
    pub closed spec fn ordered(&self) -> Seq<EntryModel> {
        entry_models(self.entries@)
    }

    /// The ordered entries and the map say the same, and keys ascend.
    pub proof fn lemma_ordered(&self)
        requires
            self.well_formed(),
        ensures
            forall|i: int, j: int|
                0 <= i < j < self.ordered().len() ==> bytes_lt(
                    #[trigger] self.ordered()[i].key,
                    #[trigger] self.ordered()[j].key,
                ),
            forall|i: int|
                0 <= i < self.ordered().len() ==> self@.contains_key(#[trigger] self.ordered()[i].key)
                    && self@[self.ordered()[i].key] == self.ordered()[i],
            forall|k: Seq<u8>|
                #[trigger] self@.contains_key(k) ==> exists|i: int|
                    0 <= i < self.ordered().len() && #[trigger] self.ordered()[i].key == k,
            self.ordered().len() == self@.len(),
    {
        let s = self.entries@;
        assert forall|i: int| 0 <= i < self.ordered().len() implies self@.contains_key(
            #[trigger] self.ordered()[i].key,
        ) && self@[self.ordered()[i].key] == self.ordered()[i] by {
            lemma_entry_for(s, i);
        }
        assert forall|k: Seq<u8>| #[trigger] self@.contains_key(k) implies exists|i: int|
            0 <= i < self.ordered().len() && #[trigger] self.ordered()[i].key == k by {
            let i = choose|i: int| 0 <= i < s.len() && #[trigger] s[i].key@ == k;
            assert(self.ordered()[i].key == k);
        }
        self.lemma_len();
    }

    proof fn lemma_len(&self)
        requires
            self.well_formed(),
        ensures
            self.entries@.len() == self@.len(),
    {
        let s = self.entries@;
        let keys = s.map_values(|e: Entry| e.key@);
        assert(self@.dom() =~= keys.to_set()) by {
            assert forall|k: Seq<u8>| self@.dom().contains(k) <==> keys.to_set().contains(k) by {
                if self@.dom().contains(k) {
                    let i = choose|i: int| 0 <= i < s.len() && #[trigger] s[i].key@ == k;
                    assert(keys[i] == k);
                }
                if keys.to_set().contains(k) {
                    let i = choose|i: int| 0 <= i < keys.len() && keys[i] == k;
                    assert(s[i].key@ == k);
                }
            }
        }
        assert(keys.no_duplicates()) by {
            assert forall|i: int, j: int| 0 <= i < keys.len() && 0 <= j < keys.len() && i != j implies keys[i] != keys[j] by {
                if keys[i] == keys[j] {
                    lemma_unique(s, i, j);
                }
            }
        }
        keys.unique_seq_to_set();
    }

    /// An empty run.
    pub fn new() -> (r: SortedRun)
        ensures
            r.well_formed(),
            r@ == Map::<Seq<u8>, EntryModel>::empty(),
            r.ordered().len() == 0,
    {
        let r = SortedRun { entries: Vec::new() };
        assert(r@ =~= Map::<Seq<u8>, EntryModel>::empty());
        r
    }

    /// A run of entries already in ascending key order.
    pub fn from_sorted(entries: Vec<Entry>) -> (r: SortedRun)
        requires
            keys_ascending(entries@),
        ensures
            r.well_formed(),
            r.ordered() == entry_models(entries@),
            r@ == entries_map(entries@),
    {
        SortedRun { entries }
    }

    /// The entries in ascending key order.
    pub fn entries(&self) -> (r: &[Entry])
        ensures
            entry_models(r@) == self.ordered(),
            keys_ascending(r@) == self.well_formed(),
            entries_map(r@) == self@,
    {
        self.entries.as_slice()
    }

    /// Where `key` is, or where it would go.
    fn search(&self, key: &Key) -> (r: (bool, usize))
        requires
            self.well_formed(),
        ensures
            r.1 <= self.entries@.len(),
            forall|i: int| 0 <= i < r.1 ==> bytes_lt(#[trigger] self.entries@[i].key@, key@),
            r.0 ==> r.1 < self.entries@.len() && self.entries@[r.1 as int].key@ == key@,
            !r.0 ==> forall|j: int| r.1 <= j < self.entries@.len() ==> bytes_lt(key@, #[trigger] self.entries@[j].key@),
    {
        let s = &self.entries;
        let mut lo: usize = 0;
        let mut hi: usize = s.len();
        while lo < hi
            invariant
                s@ == self.entries@,
                0 <= lo <= hi <= s@.len(),
                keys_ascending(s@),
                forall|i: int| 0 <= i < lo ==> bytes_lt(#[trigger] s@[i].key@, key@),
                forall|j: int| hi <= j < s@.len() ==> bytes_lt(key@, #[trigger] s@[j].key@),
            decreases hi - lo,
        {
            let mid = lo + (hi - lo) / 2;
            match s[mid].key.compare(key) {
                Ordering::Less => {
                    proof {
                        assert forall|i: int| 0 <= i < mid + 1 implies bytes_lt(#[trigger] s@[i].key@, key@) by {
                            if i < mid {
                                lemma_lt_transitive(s@[i].key@, s@[mid as int].key@, key@);
                            }
                        }
                    }
                    lo = mid + 1;
                },
                Ordering::Equal => {
                    proof {
                        assert forall|i: int| 0 <= i < mid implies bytes_lt(#[trigger] s@[i].key@, key@) by {
                            assert(bytes_lt(s@[i].key@, s@[mid as int].key@));
                        }
                    }
                    return (true, mid);
                },
                Ordering::Greater => {
                    proof {
                        lemma_lt_total(s@[mid as int].key@, key@);
                        assert forall|j: int| mid <= j < s@.len() implies bytes_lt(key@, #[trigger] s@[j].key@) by {
                            if j > mid {
                                lemma_lt_transitive(key@, s@[mid as int].key@, s@[j].key@);
                            }
                        }
                    }
                    hi = mid;
                },
            }
        }
        (false, lo)
    }

    /// Installs `entry` as the entry of its key, in place of any earlier one.
    pub fn insert(&mut self, entry: Entry)
        requires
            old(self).well_formed(),
        ensures
            final(self).well_formed(),
            final(self)@ == old(self)@.insert(entry.key@, entry@),
    {
        let ghost k = entry.key@;
        let ghost em = entry@;
        let ghost old_s = self.entries@;
        let (found, idx) = self.search(&entry.key);
        if found {
            self.entries.set(idx, entry);
            proof {
                let s = self.entries@;
                assert(s == old_s.update(idx as int, s[idx as int]));
                assert forall|i: int, j: int| 0 <= i < j < s.len() implies bytes_lt(#[trigger] s[i].key@, #[trigger] s[j].key@) by {
                    if i == idx {
                        assert(bytes_lt(old_s[i].key@, old_s[j].key@));
                    } else if j == idx {
                        assert(bytes_lt(old_s[i].key@, old_s[j].key@));
                    } else {
                        assert(bytes_lt(old_s[i].key@, old_s[j].key@));
                    }
                }
                assert forall|q: Seq<u8>| #[trigger] entries_map(s).contains_key(q) <==> old(self)@.insert(k, em).contains_key(q) by {
                    if has_key(s, q) {
                        let i = choose|i: int| 0 <= i < s.len() && #[trigger] s[i].key@ == q;
                        if i != idx {
                            assert(old_s[i].key@ == q);
                        }
                    }
                    if has_key(old_s, q) {
                        let i = choose|i: int| 0 <= i < old_s.len() && #[trigger] old_s[i].key@ == q;
                        assert(s[i].key@ == q);
                    }
                    if q == k {
                        assert(s[idx as int].key@ == q);
                    }
                }
                assert forall|q: Seq<u8>| #[trigger] entries_map(s).contains_key(q) implies entries_map(s)[q] == old(self)@.insert(k, em)[q] by {
                    let i = choose|i: int| 0 <= i < s.len() && #[trigger] s[i].key@ == q;
                    lemma_entry_for(s, i);
                    if i != idx {
                        assert(old_s[i].key@ == q);
                        lemma_entry_for(old_s, i);
                        if q == k {
                            lemma_unique(old_s, i, idx as int);
                        }
                    }
                }
                assert(entries_map(s) =~= old(self)@.insert(k, em));
            }
        } else {
            self.entries.insert(idx, entry);
            proof {
                let s = self.entries@;
                assert(s == old_s.insert(idx as int, s[idx as int]));
                assert forall|i: int, j: int| 0 <= i < j < s.len() implies bytes_lt(#[trigger] s[i].key@, #[trigger] s[j].key@) by {
                    if i < idx && j < idx {
                        assert(bytes_lt(old_s[i].key@, old_s[j].key@));
                    } else if i < idx && j == idx {
                    } else if i < idx {
                        lemma_lt_transitive(s[i].key@, k, s[j].key@);
                    } else if i == idx {
                        assert(bytes_lt(k, old_s[j - 1].key@));
                    } else {
                        assert(bytes_lt(old_s[i - 1].key@, old_s[j - 1].key@));
                    }
                }
                assert forall|q: Seq<u8>| #[trigger] entries_map(s).contains_key(q) <==> old(self)@.insert(k, em).contains_key(q) by {
                    if has_key(s, q) {
                        let i = choose|i: int| 0 <= i < s.len() && #[trigger] s[i].key@ == q;
                        if i < idx {
                            assert(old_s[i].key@ == q);
                        } else if i > idx {
                            assert(old_s[i - 1].key@ == q);
                        }
                    }
                    if has_key(old_s, q) {
                        let i = choose|i: int| 0 <= i < old_s.len() && #[trigger] old_s[i].key@ == q;
                        if i < idx {
                            assert(s[i].key@ == q);
                        } else {
                            assert(s[i + 1].key@ == q);
                        }
                    }
                    if q == k {
                        assert(s[idx as int].key@ == q);
                    }
                }
                assert forall|q: Seq<u8>| #[trigger] entries_map(s).contains_key(q) implies entries_map(s)[q] == old(self)@.insert(k, em)[q] by {
                    let i = choose|i: int| 0 <= i < s.len() && #[trigger] s[i].key@ == q;
                    lemma_entry_for(s, i);
                    if i < idx {
                        assert(old_s[i].key@ == q);
                        lemma_entry_for(old_s, i);
                        lemma_lt_irreflexive(q);
                    } else if i > idx {
                        assert(old_s[i - 1].key@ == q);
                        lemma_entry_for(old_s, i - 1);
                        lemma_lt_irreflexive(q);
                    }
                }
                assert(entries_map(s) =~= old(self)@.insert(k, em));
            }
        }
    }

    /// The entry of `key`: a put or a tombstone, if any.
    pub fn get(&self, key: &Key) -> (r: Option<Entry>)
        requires
            self.well_formed(),
        ensures
            r is Some <==> self@.contains_key(key@),
            r is Some ==> r.unwrap()@ == self@[key@],
    {
        let (found, idx) = self.search(key);
        if found {
            proof {
                lemma_entry_for(self.entries@, idx as int);
            }
            Some(self.entries[idx].duplicate())
        } else {
            proof {
                if has_key(self.entries@, key@) {
                    let i = choose|i: int| 0 <= i < self.entries@.len() && #[trigger] self.entries@[i].key@ == key@;
                    lemma_lt_irreflexive(key@);
                    if i < idx {
                        assert(bytes_lt(self.entries@[i].key@, key@));
                    } else {
                        assert(bytes_lt(key@, self.entries@[i].key@));
                    }
                }
            }
            None
        }
    }

    /// Copies of the entries in ascending key order.
    pub fn iter(&self) -> (r: Vec<Entry>)
        ensures
            entry_models(r@) == self.ordered(),
    {
        let mut out: Vec<Entry> = Vec::new();
        let mut i: usize = 0;
        while i < self.entries.len()
            invariant
                0 <= i <= self.entries@.len(),
                out@.len() == i,
                forall|j: int| 0 <= j < i ==> #[trigger] out@[j]@ == self.entries@[j]@,
            decreases self.entries@.len() - i,
        {
            out.push(self.entries[i].duplicate());
            i = i + 1;
        }
        assert(entry_models(out@) =~= self.ordered());
        out
    }

    /// The number of keys held.
    pub fn len(&self) -> (r: usize)
        requires
            self.well_formed(),
        ensures
            r == self@.len(),
    {
        proof {
            self.lemma_len();
        }
        self.entries.len()
    }

    /// Whether no key is held.
    pub fn is_empty(&self) -> (r: bool)
        requires
            self.well_formed(),
        ensures
            r == (self@.len() == 0),
            r ==> self@ == Map::<Seq<u8>, EntryModel>::empty(),
    {
        proof {
            self.lemma_len();
            if self.entries@.len() == 0 {
                assert(entries_map(self.entries@) =~= Map::<Seq<u8>, EntryModel>::empty());
            }
        }
        self.entries.len() == 0
    }

    /// The entries in ascending key order, leaving the run empty.
    pub fn take_entries(&mut self) -> (r: Vec<Entry>)
        ensures
            entry_models(r@) == old(self).ordered(),
            keys_ascending(r@) == old(self).well_formed(),
            entries_map(r@) == old(self)@,
            final(self).well_formed(),
            final(self)@ == Map::<Seq<u8>, EntryModel>::empty(),
            final(self).ordered().len() == 0,
    {
        let mut r: Vec<Entry> = Vec::new();
        core::mem::swap(&mut r, &mut self.entries);
        assert(entries_map(self.entries@) =~= Map::<Seq<u8>, EntryModel>::empty());
        r
    }
}

} // verus!

verus! {

/// Appending an entry with a larger key adds it to the map.
pub proof fn lemma_entries_map_push(s: Seq<Entry>, e: Entry)
    requires
        keys_ascending(s.push(e)),
    ensures
        keys_ascending(s),
        entries_map(s.push(e)) == entries_map(s).insert(e.key@, e@),
{
    let t = s.push(e);
    let n = s.len() as int;
    assert forall|i: int, j: int| 0 <= i < j < s.len() implies bytes_lt(#[trigger] s[i].key@, #[trigger] s[j].key@) by {
        assert(t[i] == s[i] && t[j] == s[j]);
    }
    assert forall|q: Seq<u8>| #[trigger] entries_map(t).contains_key(q) <==> entries_map(s).insert(e.key@, e@).contains_key(q) by {
        if has_key(t, q) {
            let i = choose|i: int| 0 <= i < t.len() && #[trigger] t[i].key@ == q;
            if i < n {
                assert(s[i].key@ == q);
            }
        }
        if has_key(s, q) {
            let i = choose|i: int| 0 <= i < s.len() && #[trigger] s[i].key@ == q;
            assert(t[i].key@ == q);
        }
        if q == e.key@ {
            assert(t[n].key@ == q);
        }
    }
    assert forall|q: Seq<u8>| #[trigger] entries_map(t).contains_key(q) implies entries_map(t)[q] == entries_map(s).insert(e.key@, e@)[q] by {
        let i = choose|i: int| 0 <= i < t.len() && #[trigger] t[i].key@ == q;
        lemma_entry_for(t, i);
        if i < n {
            assert(t[i] == s[i]);
            lemma_entry_for(s, i);
            if q == e.key@ {
                lemma_unique(t, i, n);
            }
        }
    }
    assert(entries_map(t) =~= entries_map(s).insert(e.key@, e@));
}

/// The entries of a map that are not tombstones.
pub open spec fn live_only(m: Map<Seq<u8>, EntryModel>) -> Map<Seq<u8>, EntryModel> {
    Map::new(|k: Seq<u8>| m.contains_key(k) && m[k].op_type != OpType::Delete, |k: Seq<u8>| m[k])
}

/// The entries that are not tombstones, in order.
pub fn drop_tombstones(entries: Vec<Entry>) -> (r: Vec<Entry>)
    requires
        keys_ascending(entries@),
    ensures
        keys_ascending(r@),
        entries_map(r@) == live_only(entries_map(entries@)),
        forall|i: int| 0 <= i < r@.len() ==> (#[trigger] r@[i]).op_type != OpType::Delete,
{
    let mut out: Vec<Entry> = Vec::new();
    let mut i: usize = 0;
    proof {
        assert(entries_map(out@) =~= live_only(entries_map(entries@.take(0))));
    }
    while i < entries.len()
        invariant
            0 <= i <= entries@.len(),
            keys_ascending(entries@),
            keys_ascending(out@),
            forall|j: int| 0 <= j < out@.len() ==> (#[trigger] out@[j]).op_type != OpType::Delete,
            forall|j: int| 0 <= j < out@.len() ==> exists|x: int| 0 <= x < i && #[trigger] entries@[x].key@ == #[trigger] out@[j].key@,
            entries_map(out@) == live_only(entries_map(entries@.take(i as int))),
        decreases entries@.len() - i,
    {
        let ghost pre = entries@.take(i as int);
        let ghost next = entries@.take(i + 1);
        proof {
            assert(next =~= pre.push(entries@[i as int]));
            assert(keys_ascending(next)) by {
                assert forall|a: int, b: int| 0 <= a < b < next.len() implies bytes_lt(#[trigger] next[a].key@, #[trigger] next[b].key@) by {
                    assert(next[a] == entries@[a] && next[b] == entries@[b]);
                }
            }
            lemma_entries_map_push(pre, entries@[i as int]);
        }
        let is_delete = entries[i].is_delete();
        if !is_delete {
            let ghost before = out@;
            let e = entries[i].duplicate();
            proof {
                let k = entries@[i as int].key@;
                if entries_map(pre).contains_key(k) {
                    let x = choose|x: int| 0 <= x < pre.len() && #[trigger] pre[x].key@ == k;
                    assert(bytes_lt(entries@[x].key@, entries@[i as int].key@));
                    lemma_lt_irreflexive(k);
                }
                assert forall|a: int| 0 <= a < before.len() implies bytes_lt(#[trigger] before[a].key@, e.key@) by {
                    let x = choose|x: int| 0 <= x < i && #[trigger] entries@[x].key@ == #[trigger] before[a].key@;
                    assert(bytes_lt(entries@[x].key@, entries@[i as int].key@));
                }
            }
            out.push(e);
            proof {
                assert(out@ == before.push(e));
                assert(keys_ascending(out@)) by {
                    assert forall|a: int, b: int| 0 <= a < b < out@.len() implies bytes_lt(#[trigger] out@[a].key@, #[trigger] out@[b].key@) by {
                        if b < before.len() {
                            assert(out@[a] == before[a] && out@[b] == before[b]);
                        } else {
                            assert(out@[a] == before[a]);
                        }
                    }
                }
                lemma_entries_map_push(before, e);
                assert(entries_map(out@) =~= live_only(entries_map(next)));
                assert forall|j: int| 0 <= j < out@.len() implies exists|x: int| 0 <= x < i + 1 && #[trigger] entries@[x].key@ == #[trigger] out@[j].key@ by {
                    if j < before.len() {
                        let x = choose|x: int| 0 <= x < i && #[trigger] entries@[x].key@ == #[trigger] before[j].key@;
                        assert(entries@[x].key@ == out@[j].key@);
                    } else {
                        assert(entries@[i as int].key@ == out@[j].key@);
                    }
                }
            }
        } else {
            proof {
                let k = entries@[i as int].key@;
                if entries_map(pre).contains_key(k) {
                    let x = choose|x: int| 0 <= x < pre.len() && #[trigger] pre[x].key@ == k;
                    assert(bytes_lt(entries@[x].key@, entries@[i as int].key@));
                    lemma_lt_irreflexive(k);
                }
                assert(entries_map(out@) =~= live_only(entries_map(next)));
            }
        }
        i = i + 1;
    }
    proof {
        assert(entries@.take(i as int) =~= entries@);
    }
    out
}

} // verus!

verus! {

impl SortedRun {
    /// A run with the same entries.
    pub fn duplicate(&self) -> (r: SortedRun)
        requires
            self.well_formed(),
        ensures
            r.well_formed(),
            r@ == self@,
            r.ordered() == self.ordered(),
    {
        let copies = self.iter();
        proof {
            let a = copies@;
            let b = self.entries@;
            assert(entry_models(a) == entry_models(b));
            assert(a.len() == b.len()) by {
                assert(entry_models(a).len() == a.len());
                assert(entry_models(b).len() == b.len());
            }
            assert forall|i: int| 0 <= i < a.len() implies #[trigger] a[i]@ == b[i]@ by {
                assert(entry_models(a)[i] == a[i]@);
                assert(entry_models(b)[i] == b[i]@);
            }
            assert forall|i: int, j: int| 0 <= i < j < a.len() implies bytes_lt(#[trigger] a[i].key@, #[trigger] a[j].key@) by {
                assert(a[i]@.key == b[i]@.key && a[j]@.key == b[j]@.key);
            }
            assert forall|k: Seq<u8>| #[trigger] entries_map(a).contains_key(k) <==> entries_map(b).contains_key(k) by {
                if has_key(a, k) {
                    let i = choose|i: int| 0 <= i < a.len() && #[trigger] a[i].key@ == k;
                    assert(a[i]@.key == b[i]@.key);
                    assert(b[i].key@ == k);
                }
                if has_key(b, k) {
                    let i = choose|i: int| 0 <= i < b.len() && #[trigger] b[i].key@ == k;
                    assert(a[i]@.key == b[i]@.key);
                    assert(a[i].key@ == k);
                }
            }
            assert forall|k: Seq<u8>| #[trigger] entries_map(a).contains_key(k) implies entries_map(a)[k] == entries_map(b)[k] by {
                let i = choose|i: int| 0 <= i < a.len() && #[trigger] a[i].key@ == k;
                lemma_entry_for(a, i);
                assert(a[i]@.key == b[i]@.key);
                lemma_entry_for(b, i);
            }
            assert(entries_map(a) =~= entries_map(b));
        }
        SortedRun::from_sorted(copies)
    }
}

} // verus!
