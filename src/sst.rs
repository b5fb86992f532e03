//! Sorted tables: immutable runs of entries placed at levels, their block files, and
//! the per-level file lists.
use vstd::prelude::*;
use crate::bytes::{bytes_lt, compare_bytes, copy_bytes, lemma_lt_irreflexive, lemma_lt_total, lemma_lt_transitive};
use crate::codec::{crc32, crc32_of, put_bytes};
use crate::error::Error;
use crate::run::SortedRun;
use crate::storage::{Entry, EntryModel, Key};

verus! {

/// Metadata of a sorted table file.
#[derive(Debug, Clone)]
pub struct SstFile {
    pub path: String,
    /// File size in bytes.
    pub size: u64,
    /// Level in the tree.
    pub level: u32,
    pub entry_count: u64,
    pub smallest_key: Vec<u8>,
    pub largest_key: Vec<u8>,
}

/// Where a block lies in a table file.
#[derive(Debug, Clone, Copy, PartialEq, Eq, Structural)]
pub struct SstBlock {
    pub offset: u64,
    pub size: u32,
    pub entry_count: u32,
    /// CRC-32 of the block bytes.
    pub checksum: u32,
}

/// The bytes a block descriptor addresses in a file, if they are there.
pub open spec fn block_slice(data: Seq<u8>, b: SstBlock) -> Option<Seq<u8>> {
    if b.offset + b.size <= data.len() {
        Some(data.subrange(b.offset as int, b.offset + b.size))
    } else {
        None
    }
}

/// Reads blocks from the bytes of a sealed table file.
#[derive(Debug)]
pub struct SstReader {
    data: Vec<u8>,
}

impl SstReader {
    pub closed spec fn spec_data(&self) -> Seq<u8> {
        self.data@
    }

    /// A reader over a table file's bytes.
    pub fn new(data: Vec<u8>) -> (r: Result<SstReader, Error>)
        ensures
            r is Ok,
            r.unwrap().spec_data() == data@,
    {
        Ok(SstReader { data })
    }

    /// The bytes of a block, checked against its checksum.
    pub fn read_block(&self, block: &SstBlock) -> (r: Result<Vec<u8>, Error>)
        ensures
            r is Ok <==> block_slice(self.spec_data(), *block) is Some && crc32_of(
                block_slice(self.spec_data(), *block).unwrap(),
            ) == block.checksum,
            r is Ok ==> r.unwrap()@ == block_slice(self.spec_data(), *block).unwrap(),
            r is Err ==> r.unwrap_err() is SstCorruption,
    {
        let len = self.data.len() as u64;
        if block.offset > len || block.size as u64 > len - block.offset {
            return Err(Error::SstCorruption(String::from_str("block past the end of the file")));
        }
        let start = block.offset as usize;
        let end = start + block.size as usize;
        let bytes = crate::bytes::copy_bytes(&self.data.as_slice()[start..end]);
        if crc32(bytes.as_slice()) != block.checksum {
            return Err(Error::SstCorruption(String::from_str("block checksum mismatch")));
        }
        Ok(bytes)
    }
}

/// Builds a table file block by block.
pub struct SstWriter {
    path: String,
    data: Vec<u8>,
    blocks: Vec<SstBlock>,
    count: u64,
    first: Option<Vec<u8>>,
    last: Option<Vec<u8>>,
    written: Ghost<Seq<Seq<u8>>>,
}

impl SstWriter {
    pub closed spec fn spec_data(&self) -> Seq<u8> {
        self.data@
    }

    pub closed spec fn spec_blocks(&self) -> Seq<SstBlock> {
        self.blocks@
    }

    /// The keys of the entries written, in order.
    pub closed spec fn spec_written(&self) -> Seq<Seq<u8>> {
        self.written@
    }

    /// First and last key and count match the keys written, which ascend strictly.
    pub closed spec fn well_formed(&self) -> bool {
        &&& self.count == self.written@.len()
        &&& forall|i: int, j: int| 0 <= i < j < self.written@.len() ==> bytes_lt(#[trigger] self.written@[i], #[trigger] self.written@[j])
        &&& (self.written@.len() == 0 <==> self.first is None)
        &&& (self.written@.len() == 0 <==> self.last is None)
        &&& self.first is Some ==> self.first.unwrap()@ == self.written@[0]
        &&& self.last is Some ==> self.last.unwrap()@ == self.written@.last()
    }

    /// Records an entry written to the table; keys must ascend strictly.
    pub fn add_entry(&mut self, key: &[u8]) -> (r: Result<(), Error>)
        requires
            old(self).well_formed(),
        ensures
            final(self).well_formed(),
            final(self).spec_data() == old(self).spec_data(),
            r is Ok <==> (old(self).spec_written().len() == 0 || bytes_lt(old(self).spec_written().last(), key@))
                && old(self).spec_written().len() < u64::MAX,
            r is Ok ==> final(self).spec_written() == old(self).spec_written().push(key@),
            r is Err ==> final(self).spec_written() == old(self).spec_written() && r.unwrap_err() is SstCorruption,
    {
        if self.count == u64::MAX {
            return Err(Error::SstCorruption(String::from_str("too many entries")));
        }
        match &self.last {
            Some(l) => {
                match compare_bytes(l.as_slice(), key) {
                    core::cmp::Ordering::Less => {},
                    _ => {
                        return Err(Error::SstCorruption(String::from_str("keys out of order")));
                    },
                }
            },
            None => {},
        }
        let ghost w0 = self.written@;
        if self.first.is_none() {
            self.first = Some(copy_bytes(key));
        }
        self.last = Some(copy_bytes(key));
        self.count = self.count + 1;
        self.written = Ghost(w0.push(key@));
        proof {
            let w = self.written@;
            assert forall|i: int, j: int| 0 <= i < j < w.len() implies bytes_lt(#[trigger] w[i], #[trigger] w[j]) by {
                if j == w.len() - 1 && i < j {
                    if i < w0.len() - 1 {
                        lemma_lt_transitive(w0[i], w0.last(), key@);
                    }
                } else {
                    assert(w[i] == w0[i] && w[j] == w0[j]);
                }
            }
        }
        Ok(())
    }

    /// A writer for a new, empty file at `path`.
    pub fn new(path: &str) -> (r: Result<SstWriter, Error>)
        ensures
            r is Ok,
            r.unwrap().spec_data().len() == 0,
            r.unwrap().spec_blocks().len() == 0,
            r.unwrap().spec_written().len() == 0,
            r.unwrap().well_formed(),
    {
        Ok(SstWriter {
            path: path.to_string(),
            data: Vec::new(),
            blocks: Vec::new(),
            count: 0,
            first: None,
            last: None,
            written: Ghost(Seq::empty()),
        })
    }

    /// Appends a block and returns where it lies.
    pub fn write_block(&mut self, data: &[u8]) -> (r: Result<SstBlock, Error>)
        ensures
            r is Ok <==> data@.len() <= u32::MAX && old(self).spec_data().len() + data@.len() <= u64::MAX,
            r is Err ==> *final(self) == *old(self),
            final(self).spec_written() == old(self).spec_written(),
            final(self).well_formed() == old(self).well_formed(),
            r is Ok ==> {
                &&& final(self).spec_data() == old(self).spec_data() + data@
                &&& final(self).spec_blocks() == old(self).spec_blocks().push(r.unwrap())
                &&& r.unwrap().offset == old(self).spec_data().len()
                &&& r.unwrap().size == data@.len()
                &&& r.unwrap().checksum == crc32_of(data@)
                &&& block_slice(final(self).spec_data(), r.unwrap()) == Some(data@)
            },
    {
        let n = data.len();
        if n as u64 > u32::MAX as u64 || self.data.len() as u64 > u64::MAX - n as u64 {
            return Err(Error::Io(String::from_str("block too large")));
        }
        let offset = self.data.len() as u64;
        let block = SstBlock { offset, size: n as u32, entry_count: 0, checksum: crc32(data) };
        let ghost before = self.data@;
        put_bytes(&mut self.data, data);
        assert(self.data@.subrange(offset as int, offset + n) =~= data@);
        self.blocks.push(block);
        Ok(block)
    }

    /// Seals the file and describes it.
    pub fn finish(&mut self) -> (r: Result<SstFile, Error>)
        requires
            old(self).well_formed(),
        ensures
            r is Ok,
            r.unwrap().size == old(self).spec_data().len(),
            r.unwrap().level == 0,
            r.unwrap().entry_count == old(self).spec_written().len(),
            old(self).spec_written().len() > 0 ==> r.unwrap().smallest_key@ == old(self).spec_written()[0]
                && r.unwrap().largest_key@ == old(self).spec_written().last(),
            old(self).spec_written().len() == 0 ==> r.unwrap().smallest_key@.len() == 0 && r.unwrap().largest_key@.len() == 0,
            *final(self) == *old(self),
    {
        let smallest_key = match &self.first {
            Some(k) => copy_bytes(k.as_slice()),
            None => Vec::new(),
        };
        let largest_key = match &self.last {
            Some(k) => copy_bytes(k.as_slice()),
            None => Vec::new(),
        };
        Ok(SstFile {
            path: self.path.clone(),
            size: self.data.len() as u64,
            level: 0,
            entry_count: self.count,
            smallest_key,
            largest_key,
        })
    }

    /// The file bytes written so far.
    pub fn bytes(&self) -> (r: &[u8])
        ensures
            r@ == self.spec_data(),
    {
        self.data.as_slice()
    }
}

/// Number of levels in the tree.
pub const MAX_LEVELS: u32 = 7;

/// Two files whose key ranges share a key.
pub open spec fn overlaps(f: SstFile, g: SstFile) -> bool {
    !bytes_lt(f.largest_key@, g.smallest_key@) && !bytes_lt(g.largest_key@, f.smallest_key@)
}

/// A file whose smallest key is not past its largest.
pub open spec fn range_ok(f: SstFile) -> bool {
    !bytes_lt(f.largest_key@, f.smallest_key@)
}

/// Files in ascending order of key range, no two overlapping.
pub open spec fn disjoint_ascending(files: Seq<SstFile>) -> bool {
    forall|i: int, j: int| 0 <= i < j < files.len() ==> bytes_lt(#[trigger] files[i].largest_key@, #[trigger] files[j].smallest_key@)
}

/// The invariant of one level: its files carry its number; above level 0 they have
/// proper key ranges, ascending and disjoint.
pub open spec fn level_ok(files: Seq<SstFile>, l: int) -> bool {
    &&& forall|i: int| 0 <= i < files.len() ==> (#[trigger] files[i]).level == l
    &&& l >= 1 ==> disjoint_ascending(files) && forall|i: int| 0 <= i < files.len() ==> range_ok(#[trigger] files[i])
}

proof fn lemma_lt_le(a: Seq<u8>, b: Seq<u8>, c: Seq<u8>)
    requires
        bytes_lt(a, b),
        !bytes_lt(c, b),
    ensures
        bytes_lt(a, c),
{
    lemma_lt_total(b, c);
    if b != c {
        lemma_lt_transitive(a, b, c);
    }
}

/// Whether the key range of `a` ends before that of `b` starts.
fn ends_before(a: &SstFile, b: &SstFile) -> (r: bool)
    ensures
        r == bytes_lt(a.largest_key@, b.smallest_key@),
{
    match compare_bytes(a.largest_key.as_slice(), b.smallest_key.as_slice()) {
        core::cmp::Ordering::Less => true,
        _ => false,
    }
}

/// Whether the largest key of a file sorts before its smallest.
fn ends_before_own(f: &SstFile) -> (r: bool)
    ensures
        r == bytes_lt(f.largest_key@, f.smallest_key@),
{
    match compare_bytes(f.largest_key.as_slice(), f.smallest_key.as_slice()) {
        core::cmp::Ordering::Less => true,
        _ => false,
    }
}

/// Where a file goes among ascending, disjoint files: none when it overlaps one.
fn place(files: &Vec<SstFile>, file: &SstFile) -> (r: Option<usize>)
    requires
        disjoint_ascending(files@),
        forall|i: int| 0 <= i < files@.len() ==> range_ok(#[trigger] files@[i]),
        range_ok(*file),
    ensures
        r is Some <==> forall|i: int| 0 <= i < files@.len() ==> !overlaps(*file, #[trigger] files@[i]),
        r is Some ==> r.unwrap() <= files@.len() && disjoint_ascending(files@.insert(r.unwrap() as int, *file)),
{
    let mut pos: usize = 0;
    while pos < files.len() && ends_before(&files[pos], file)
        invariant
            0 <= pos <= files@.len(),
            forall|i: int| 0 <= i < pos ==> bytes_lt(#[trigger] files@[i].largest_key@, file.smallest_key@),
        decreases files@.len() - pos,
    {
        pos = pos + 1;
    }
    if pos < files.len() {
        let fits = ends_before(file, &files[pos]);
        if !fits {
            assert(overlaps(*file, files@[pos as int]));
            return None;
        }
    }
    proof {
        let f = files@;
        let g = f.insert(pos as int, *file);
        assert forall|i: int| pos < i < f.len() implies bytes_lt(file.largest_key@, #[trigger] f[i].smallest_key@) by {
            lemma_lt_le(file.largest_key@, f[pos as int].smallest_key@, f[pos as int].largest_key@);
            lemma_lt_transitive(file.largest_key@, f[pos as int].largest_key@, f[i].smallest_key@);
        }
        assert forall|i: int| 0 <= i < f.len() implies !overlaps(*file, #[trigger] f[i]) by {
            if i >= pos {
                assert(bytes_lt(file.largest_key@, f[i].smallest_key@));
            }
        }
        assert forall|i: int, j: int| 0 <= i < j < g.len() implies bytes_lt(#[trigger] g[i].largest_key@, #[trigger] g[j].smallest_key@) by {
            if j < pos {
                assert(g[i] == f[i] && g[j] == f[j]);
            } else if j == pos {
                assert(g[i] == f[i]);
            } else if i < pos {
                assert(g[i] == f[i] && g[j] == f[j - 1]);
            } else if i == pos {
                assert(g[j] == f[j - 1]);
                assert(bytes_lt(file.largest_key@, f[j - 1].smallest_key@));
            } else {
                assert(g[i] == f[i - 1] && g[j] == f[j - 1]);
            }
        }
    }
    Some(pos)
}

/// The sum of file sizes, saturating at the largest `u64`.
pub open spec fn sizes_sum(files: Seq<SstFile>) -> int
    decreases files.len(),
{
    if files.len() == 0 {
        0
    } else {
        sizes_sum(files.drop_last()) + files.last().size
    }
}

/// The file lists of every level.
#[derive(Debug)]
pub struct SstManager {
    levels: Vec<Vec<SstFile>>,
}

impl SstManager {
    /// Files of level `l`, in the order they were added.
    pub closed spec fn spec_level(&self, l: int) -> Seq<SstFile> {
        if 0 <= l < self.levels@.len() {
            self.levels@[l]@
        } else {
            Seq::empty()
        }
    }

    pub closed spec fn well_formed(&self) -> bool {
        &&& self.levels@.len() == MAX_LEVELS
        &&& forall|l: int| 0 <= l < MAX_LEVELS ==> level_ok(#[trigger] self.levels@[l]@, l)
    }

    /// A manager with no files.
    pub fn new() -> (r: SstManager)
        ensures
            r.well_formed(),
            forall|l: int| #[trigger] r.spec_level(l).len() == 0,
            r.all_sizes() == 0,
    {
        let mut levels: Vec<Vec<SstFile>> = Vec::new();
        let mut i: u32 = 0;
        while i < MAX_LEVELS
            invariant
                0 <= i <= MAX_LEVELS,
                levels@.len() == i,
                forall|l: int| 0 <= l < i ==> (#[trigger] levels@[l])@.len() == 0,
                forall|l: int| 0 <= l < i ==> level_ok(#[trigger] levels@[l]@, l),
                levels_sum(levels@) == 0,
            decreases MAX_LEVELS - i,
        {
            let ghost before = levels@;
            levels.push(Vec::new());
            proof {
                assert(levels@.drop_last() =~= before);
                assert(levels@.last()@.len() == 0);
            }
            i = i + 1;
        }
        SstManager { levels }
    }

    /// Adds a file to its level.
    pub fn add_file(&mut self, file: SstFile) -> (r: Result<(), Error>)
        requires
            old(self).well_formed(),
        ensures
            final(self).well_formed(),
            r is Ok <==> file.level < MAX_LEVELS && (file.level == 0 || range_ok(file) && forall|i: int|
                0 <= i < old(self).spec_level(file.level as int).len() ==> !overlaps(file, #[trigger] old(self).spec_level(file.level as int)[i])),
            r is Ok && file.level == 0 ==> final(self).spec_level(0) == old(self).spec_level(0).push(file),
            r is Ok ==> exists|p: int| 0 <= p <= old(self).spec_level(file.level as int).len()
                && #[trigger] final(self).spec_level(file.level as int) == old(self).spec_level(file.level as int).insert(p, file),
            forall|l: int| l != file.level ==> #[trigger] final(self).spec_level(l) == old(self).spec_level(l),
            r is Err ==> forall|l: int| #[trigger] final(self).spec_level(l) == old(self).spec_level(l),
            r is Err ==> r.unwrap_err() is Compaction,
    {
        if file.level >= MAX_LEVELS {
            return Err(Error::Compaction(String::from_str("level out of range")));
        }
        let l = file.level as usize;
        let ghost before = self.levels@;
        let mut files: Vec<SstFile> = Vec::new();
        self.levels.set_and_swap(l, &mut files);
        let ghost old_files = files@;
        let ghost mut at: int = old_files.len() as int;
        assert(level_ok(old_files, l as int));
        assert(old_files == old(self).spec_level(l as int));
        if l == 0 {
            files.push(file);
            proof {
                assert(files@ == old_files.insert(old_files.len() as int, file));
                assert forall|i: int| 0 <= i < files@.len() implies (#[trigger] files@[i]).level == 0 by {
                    if i < old_files.len() {
                        assert(files@[i] == old_files[i]);
                    }
                }
            }
        } else {
            let proper = !ends_before_own(&file);
            let spot = if proper { place(&files, &file) } else { None };
            match spot {
                Some(p) => {
                    files.insert(p, file);
                    proof {
                        at = p as int;
                        let g = files@;
                        assert forall|i: int| 0 <= i < g.len() implies (#[trigger] g[i]).level == l && range_ok(g[i]) by {
                            if i < p {
                                assert(g[i] == old_files[i]);
                            } else if i > p {
                                assert(g[i] == old_files[i - 1]);
                            }
                        }
                    }
                },
                None => {
                    self.levels.set_and_swap(l, &mut files);
                    proof {
                        assert(self.levels@ =~= before);
                    }
                    return Err(Error::Compaction(String::from_str("file overlaps the level or has an inverted key range")));
                },
            }
        }
        self.levels.set_and_swap(l, &mut files);
        proof {
            assert(self.spec_level(l as int) == old(self).spec_level(l as int).insert(at, file));
            assert forall|m: int| 0 <= m < MAX_LEVELS implies level_ok(#[trigger] self.levels@[m]@, m) by {
                if m != l {
                    assert(self.levels@[m] == before[m]);
                }
            }
        }
        Ok(())
    }

    /// The files of a level.
    pub fn get_files_at_level(&self, level: u32) -> (r: Vec<&SstFile>)
        requires
            self.well_formed(),
        ensures
            r@.len() == self.spec_level(level as int).len(),
            forall|i: int| 0 <= i < r@.len() ==> *(#[trigger] r@[i]) == self.spec_level(level as int)[i],
            forall|i: int| 0 <= i < r@.len() ==> (#[trigger] r@[i]).level == level,
            level >= 1 ==> forall|i: int, j: int| 0 <= i < j < r@.len() ==> bytes_lt(#[trigger] r@[i].largest_key@, #[trigger] r@[j].smallest_key@),
    {
        let mut out: Vec<&SstFile> = Vec::new();
        if (level as usize) < self.levels.len() {
            let files = &self.levels[level as usize];
            let mut i: usize = 0;
            while i < files.len()
                invariant
                    0 <= i <= files@.len(),
                    files@ == self.spec_level(level as int),
                    out@.len() == i,
                    forall|j: int| 0 <= j < i ==> *(#[trigger] out@[j]) == files@[j],
                decreases files@.len() - i,
            {
                out.push(&files[i]);
                i = i + 1;
            }
        }
        out
    }

    /// The total size of every file, saturating.
    pub fn total_size(&self) -> (r: u64)
        ensures
            r == if self.all_sizes() > u64::MAX { u64::MAX as int } else { self.all_sizes() },
    {
        let mut total: u64 = 0;
        let ghost mut acc: int = 0;
        let mut l: usize = 0;
        while l < self.levels.len()
            invariant
                0 <= l <= self.levels@.len(),
                acc == levels_sum(self.levels@.take(l as int)),
                total == if acc > u64::MAX { u64::MAX as int } else { acc },
                acc >= 0,
            decreases self.levels@.len() - l,
        {
            let files = &self.levels[l];
            let mut i: usize = 0;
            let ghost base = acc;
            while i < files.len()
                invariant
                    0 <= i <= files@.len(),
                    files@ == self.levels@[l as int]@,
                    base >= 0,
                    acc == base + sizes_sum(files@.take(i as int)),
                    total == if acc > u64::MAX { u64::MAX as int } else { acc },
                decreases files@.len() - i,
            {
                proof {
                    assert(files@.take(i + 1).drop_last() =~= files@.take(i as int));
                    lemma_sizes_nonneg(files@.take(i as int));
                }
                let s = files[i].size;
                total = if total > u64::MAX - s { u64::MAX } else { total + s };
                proof {
                    acc = acc + s;
                }
                i = i + 1;
            }
            proof {
                assert(files@.take(i as int) =~= files@);
                assert(self.levels@.take(l + 1).drop_last() =~= self.levels@.take(l as int));
            }
            l = l + 1;
        }
        proof {
            assert(self.levels@.take(l as int) =~= self.levels@);
        }
        total
    }

    pub closed spec fn all_sizes(&self) -> int {
        levels_sum(self.levels@)
    }
}

/// The sum of file sizes over levels.
pub open spec fn levels_sum(levels: Seq<Vec<SstFile>>) -> int
    decreases levels.len(),
{
    if levels.len() == 0 {
        0
    } else {
        levels_sum(levels.drop_last()) + sizes_sum(levels.last()@)
    }
}

proof fn lemma_sizes_nonneg(files: Seq<SstFile>)
    ensures
        sizes_sum(files) >= 0,
    decreases files.len(),
{
    if files.len() > 0 {
        lemma_sizes_nonneg(files.drop_last());
    }
}

/// An immutable sorted table: a run of entries at a level.
#[derive(Debug)]
pub struct SstTable {
    run: SortedRun,
    level: u32,
    id: u64,
}

impl View for SstTable {
    type V = Map<Seq<u8>, EntryModel>;

    closed spec fn view(&self) -> Map<Seq<u8>, EntryModel> {
        self.run@
    }
}

impl SstTable {
    pub closed spec fn spec_run(&self) -> SortedRun {
        self.run
    }

    pub closed spec fn spec_level(&self) -> u32 {
        self.level
    }

    pub closed spec fn spec_id(&self) -> u64 {
        self.id
    }

    pub closed spec fn well_formed(&self) -> bool {
        self.run.well_formed()
    }

    /// Seals a run as a table.
    pub fn new(run: SortedRun, level: u32, id: u64) -> (r: SstTable)
        ensures
            r.spec_run() == run,
            r@ == run@,
            r.well_formed() == run.well_formed(),
            r.spec_level() == level,
            r.spec_id() == id,
    {
        SstTable { run, level, id }
    }

    /// The entry of `key`, if the table has one.
    pub fn get(&self, key: &Key) -> (r: Option<Entry>)
        requires
            self.well_formed(),
        ensures
            r is Some <==> self@.contains_key(key@),
            r is Some ==> r.unwrap()@ == self@[key@],
    {
        self.run.get(key)
    }

    /// The entries in ascending key order.
    pub fn entries(&self) -> (r: &[Entry])
        ensures
            crate::run::entries_map(r@) == self@,
            crate::run::keys_ascending(r@) == self.well_formed(),
    {
        self.run.entries()
    }

    /// Gives up the table for its run.
    pub fn run_part(self) -> (r: SortedRun)
        ensures
            r == self.spec_run(),
            r@ == self@,
            r.well_formed() == self.well_formed(),
    {
        self.run
    }

    /// The table's level.
    pub fn level(&self) -> (r: u32)
        ensures
            r == self.spec_level(),
    {
        self.level
    }

    /// The table's id.
    pub fn id(&self) -> (r: u64)
        ensures
            r == self.spec_id(),
    {
        self.id
    }

    /// The number of entries.
    pub fn len(&self) -> (r: usize)
        requires
            self.well_formed(),
        ensures
            r == self@.len(),
    {
        self.run.len()
    }
}

} // verus!

verus! {

impl SstTable {
    /// A copy of the table's run.
    pub fn run_copy(&self) -> (r: SortedRun)
        requires
            self.well_formed(),
        ensures
            r.well_formed(),
            r@ == self@,
    {
        self.run.duplicate()
    }
}

} // verus!
