//! A byte-bounded cache for table blocks and value log pages, evicting the least
//! recently used entry first.
use vstd::prelude::*;
use crate::bytes::{compare_bytes, copy_bytes};
pub use crate::config::EvictionPolicy;
use crate::error::Error;

verus! {

/// A cached block or page.
#[derive(Debug, Clone)]
pub struct CacheEntry {
    pub key: Vec<u8>,
    pub data: Vec<u8>,
    /// Number of hits on this entry.
    pub access_count: u64,
    /// Logical time of the last access.
    pub last_access: u64,
}

/// Hit and miss counts, and bytes held against the capacity.
#[derive(Debug, Clone, Copy, PartialEq, Eq, Structural)]
pub struct CacheStats {
    pub hits: u64,
    pub misses: u64,
    pub size: usize,
    pub capacity: usize,
}

impl Default for CacheStats {
    fn default() -> (r: CacheStats)
        ensures
            r == (CacheStats { hits: 0, misses: 0, size: 0, capacity: 0 }),
    {
        CacheStats { hits: 0, misses: 0, size: 0, capacity: 0 }
    }
}

/// Bytes held by entries.
pub open spec fn total_bytes(s: Seq<CacheEntry>) -> int
    decreases s.len(),
{
    if s.len() == 0 {
        0
    } else {
        total_bytes(s.drop_last()) + s.last().data@.len()
    }
}

proof fn lemma_total_remove(s: Seq<CacheEntry>, i: int)
    requires
        0 <= i < s.len(),
    ensures
        total_bytes(s.remove(i)) == total_bytes(s) - s[i].data@.len(),
    decreases s.len(),
{
    if i < s.len() - 1 {
        lemma_total_remove(s.drop_last(), i);
        assert(s.remove(i).drop_last() =~= s.drop_last().remove(i));
        assert(s.remove(i).last() == s.last());
    } else {
        assert(s.remove(i) =~= s.drop_last());
    }
}

proof fn lemma_total_nonneg(s: Seq<CacheEntry>)
    ensures
        total_bytes(s) >= 0,
    decreases s.len(),
{
    if s.len() > 0 {
        lemma_total_nonneg(s.drop_last());
    }
}

/// Whether some entry has key `k`.
pub open spec fn cached(s: Seq<CacheEntry>, k: Seq<u8>) -> bool {
    exists|i: int| 0 <= i < s.len() && #[trigger] s[i].key@ == k
}

/// The unified cache.
#[derive(Debug)]
pub struct UnifiedCache {
    entries: Vec<CacheEntry>,
    size: usize,
    capacity: usize,
    policy: EvictionPolicy,
    hits: u64,
    misses: u64,
    clock: u64,
}

impl UnifiedCache {
    /// Entries, least recently used first.
    pub closed spec fn spec_entries(&self) -> Seq<CacheEntry> {
        self.entries@
    }

    pub closed spec fn spec_capacity(&self) -> usize {
        self.capacity
    }

    pub closed spec fn spec_size(&self) -> usize {
        self.size
    }

    pub closed spec fn spec_hits(&self) -> u64 {
        self.hits
    }

    pub closed spec fn spec_misses(&self) -> u64 {
        self.misses
    }

    /// Size is the bytes held, within capacity; keys are distinct.
    pub closed spec fn well_formed(&self) -> bool {
        &&& self.size == total_bytes(self.entries@)
        &&& self.size <= self.capacity
        &&& forall|i: int, j: int| 0 <= i < j < self.entries@.len() ==> (#[trigger] self.entries@[i]).key@ != (#[trigger] self.entries@[j]).key@
    }

    /// An empty cache holding at most `capacity` bytes.
    pub fn new(capacity: usize, policy: EvictionPolicy) -> (r: UnifiedCache)
        ensures
            r.well_formed(),
            r.spec_capacity() == capacity,
            r.spec_entries().len() == 0,
            r.spec_size() == 0,
            r.spec_hits() == 0,
            r.spec_misses() == 0,
    {
        UnifiedCache { entries: Vec::new(), size: 0, capacity, policy, hits: 0, misses: 0, clock: 0 }
    }

    fn find(&self, key: &[u8]) -> (r: Option<usize>)
        ensures
            r is Some <==> cached(self.entries@, key@),
            r is Some ==> r.unwrap() < self.entries@.len() && self.entries@[r.unwrap() as int].key@ == key@,
    {
        let mut i: usize = 0;
        while i < self.entries.len()
            invariant
                0 <= i <= self.entries@.len(),
                forall|j: int| 0 <= j < i ==> (#[trigger] self.entries@[j]).key@ != key@,
            decreases self.entries@.len() - i,
        {
            match compare_bytes(self.entries[i].key.as_slice(), key) {
                core::cmp::Ordering::Equal => {
                    return Some(i);
                },
                _ => {
                    proof {
                        crate::bytes::lemma_lt_irreflexive(key@);
                    }
                },
            }
            i = i + 1;
        }
        None
    }

    /// The data cached under `key`, counting a hit or a miss; a hit makes the entry the
    /// most recently used.
    pub fn get(&mut self, key: &[u8]) -> (r: Option<Vec<u8>>)
        requires
            old(self).well_formed(),
        ensures
            final(self).well_formed(),
            final(self).spec_capacity() == old(self).spec_capacity(),
            r is Some <==> cached(old(self).spec_entries(), key@),
            r is Some ==> exists|i: int| 0 <= i < old(self).spec_entries().len() && #[trigger] old(self).spec_entries()[i].key@ == key@
                && old(self).spec_entries()[i].data@ == r.unwrap()@,
            r is Some ==> forall|i: int| 0 <= i < old(self).spec_entries().len() && #[trigger] old(self).spec_entries()[i].key@ == key@
                ==> old(self).spec_entries()[i].data@ == r.unwrap()@,
            final(self).spec_size() <= final(self).spec_capacity(),
            r is Some ==> final(self).spec_hits() == if old(self).spec_hits() == u64::MAX { u64::MAX } else { (old(self).spec_hits() + 1) as u64 },
            r is None ==> final(self).spec_misses() == if old(self).spec_misses() == u64::MAX { u64::MAX } else { (old(self).spec_misses() + 1) as u64 },
            r is None ==> final(self).spec_entries() == old(self).spec_entries(),
    {
        self.clock = if self.clock == u64::MAX { u64::MAX } else { self.clock + 1 };
        match self.find(key) {
            Some(i) => {
                proof {
                    let e = self.entries@;
                    assert forall|j: int| 0 <= j < e.len() && #[trigger] e[j].key@ == key@ implies j == i by {
                        if j < i {
                            assert(e[j].key@ != e[i as int].key@);
                        } else if j > i {
                            assert(e[i as int].key@ != e[j].key@);
                        }
                    }
                }
                self.hits = if self.hits == u64::MAX { u64::MAX } else { self.hits + 1 };
                let ghost before = self.entries@;
                let mut e = self.entries.remove(i);
                proof {
                    lemma_total_remove(before, i as int);
                }
                let out = copy_bytes(e.data.as_slice());
                e.access_count = if e.access_count == u64::MAX { u64::MAX } else { e.access_count + 1 };
                e.last_access = self.clock;
                let ghost mid = self.entries@;
                self.entries.push(e);
                proof {
                    assert(self.entries@.drop_last() =~= mid);
                    assert forall|a: int, b: int| 0 <= a < b < self.entries@.len() implies (#[trigger] self.entries@[a]).key@ != (#[trigger] self.entries@[b]).key@ by {
                        if b < mid.len() {
                            assert(self.entries@[a] == mid[a] && self.entries@[b] == mid[b]);
                            if a < i {
                                if b < i {
                                    assert(mid[a] == before[a] && mid[b] == before[b]);
                                } else {
                                    assert(mid[a] == before[a] && mid[b] == before[b + 1]);
                                }
                            } else {
                                assert(mid[a] == before[a + 1] && mid[b] == before[b + 1]);
                            }
                        } else {
                            assert(self.entries@[a] == mid[a]);
                            if a < i {
                                assert(mid[a] == before[a]);
                            } else {
                                assert(mid[a] == before[a + 1]);
                            }
                        }
                    }
                }
                Some(out)
            },
            None => {
                self.misses = if self.misses == u64::MAX { u64::MAX } else { self.misses + 1 };
                None
            },
        }
    }

    /// Caches `data` under `key` as the most recently used entry, replacing an earlier
    /// entry for the key and evicting least recently used entries until it fits.
    pub fn put(&mut self, key: Vec<u8>, data: Vec<u8>) -> (r: Result<(), Error>)
        requires
            old(self).well_formed(),
        ensures
            final(self).well_formed(),
            final(self).spec_capacity() == old(self).spec_capacity(),
            r is Ok <==> data@.len() <= old(self).spec_capacity(),
            r is Err ==> final(self).spec_entries() == old(self).spec_entries() && r.unwrap_err() is Cache,
            r is Ok ==> final(self).spec_entries().last().key@ == key@ && final(self).spec_entries().last().data@ == data@,
            r is Ok ==> cached(final(self).spec_entries(), key@),
            r is Ok ==> forall|i: int| 0 <= i < final(self).spec_entries().len() && #[trigger] final(self).spec_entries()[i].key@ == key@
                ==> final(self).spec_entries()[i].data@ == data@,
            final(self).spec_size() <= final(self).spec_capacity(),
    {
        if data.len() > self.capacity {
            return Err(Error::Cache(String::from_str("entry larger than the cache")));
        }
        match self.find(key.as_slice()) {
            Some(i) => {
                let ghost before = self.entries@;
                let old_e = self.entries.remove(i);
                proof {
                    lemma_total_remove(before, i as int);
                    assert forall|a: int, b: int| 0 <= a < b < self.entries@.len() implies (#[trigger] self.entries@[a]).key@ != (#[trigger] self.entries@[b]).key@ by {
                        let s = self.entries@;
                        if a < i {
                            if b < i {
                                assert(s[a] == before[a] && s[b] == before[b]);
                            } else {
                                assert(s[a] == before[a] && s[b] == before[b + 1]);
                            }
                        } else {
                            assert(s[a] == before[a + 1] && s[b] == before[b + 1]);
                        }
                    }
                }
                proof {
                    lemma_total_nonneg(self.entries@);
                }
                self.size = self.size - old_e.data.len();
                proof {
                    assert forall|j: int| 0 <= j < self.entries@.len() implies (#[trigger] self.entries@[j]).key@ != key@ by {
                        if j < i {
                            assert(self.entries@[j] == before[j]);
                        } else {
                            assert(self.entries@[j] == before[j + 1]);
                        }
                    }
                }
            },
            None => {},
        }
        while self.size > self.capacity - data.len() && self.entries.len() > 0
            invariant
                self.size == total_bytes(self.entries@),
                self.size <= self.capacity,
                data@.len() <= self.capacity,
                forall|i: int, j: int| 0 <= i < j < self.entries@.len() ==> (#[trigger] self.entries@[i]).key@ != (#[trigger] self.entries@[j]).key@,
                forall|j: int| 0 <= j < self.entries@.len() ==> (#[trigger] self.entries@[j]).key@ != key@,
                self.capacity == old(self).spec_capacity(),
            decreases self.entries@.len(),
        {
            let ghost before = self.entries@;
            let evicted = self.entries.remove(0);
            proof {
                lemma_total_remove(before, 0);
                lemma_total_nonneg(self.entries@);
                assert forall|a: int, b: int| 0 <= a < b < self.entries@.len() implies (#[trigger] self.entries@[a]).key@ != (#[trigger] self.entries@[b]).key@ by {
                    assert(self.entries@[a] == before[a + 1] && self.entries@[b] == before[b + 1]);
                }
                assert forall|j: int| 0 <= j < self.entries@.len() implies (#[trigger] self.entries@[j]).key@ != key@ by {
                    assert(self.entries@[j] == before[j + 1]);
                }
            }
            self.size = self.size - evicted.data.len();
        }
        let n = data.len();
        proof {
            if self.entries@.len() == 0 {
                assert(total_bytes(self.entries@) == 0);
            }
        }
        let ghost before = self.entries@;
        self.entries.push(CacheEntry { key, data, access_count: 0, last_access: self.clock });
        proof {
            assert(self.entries@.drop_last() =~= before);
            assert forall|a: int, b: int| 0 <= a < b < self.entries@.len() implies (#[trigger] self.entries@[a]).key@ != (#[trigger] self.entries@[b]).key@ by {
                if b < before.len() {
                    assert(self.entries@[a] == before[a] && self.entries@[b] == before[b]);
                } else {
                    assert(self.entries@[a] == before[a]);
                }
            }
        }
        self.size = self.size + n;
        proof {
            let last = self.entries@.len() - 1;
            assert(self.entries@[last].key@ == key@);
        }
        Ok(())
    }

    /// Hits, misses, bytes held and capacity.
    pub fn stats(&self) -> (r: CacheStats)
        ensures
            r == (CacheStats { hits: self.spec_hits(), misses: self.spec_misses(), size: self.spec_size(), capacity: self.spec_capacity() }),
    {
        CacheStats { hits: self.hits, misses: self.misses, size: self.size, capacity: self.capacity }
    }

    /// The eviction policy chosen at construction.
    pub fn policy(&self) -> (r: EvictionPolicy) {
        self.policy
    }
}

} // verus!
