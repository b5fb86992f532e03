//! The value log: segments of framed large values addressed by pointers.
//!
//! A segment is a 25-byte header followed by entries, each the length of the entry
//! metadata (always 17), the metadata (stored length, compression byte, CRC-32 of the
//! plaintext, timestamp) and the stored bytes. A pointer addresses the start of an
//! entry. Segments are kept in memory here; the caller writes their new bytes out.
use vstd::prelude::*;
use vstd::pervasive::VecAdditionalExecFns;
use crate::codec::{crc32, crc32_of, get_bytes, get_u32, le_to_u32, le_to_u64, lemma_u32_round_trip, lemma_u64_round_trip, put_bytes, put_u32, put_u64, u32_le, u64_le};
use crate::config::{compression_code, CompressionAlgorithm, ValueLogConfig};
use crate::error::Error;
use crate::storage::{now_millis, Value, ValuePointer};

verus! {

/// The segment magic, "AURADBVL".
pub open spec fn vlog_magic() -> Seq<u8> {
    seq![0x41u8, 0x55u8, 0x52u8, 0x41u8, 0x44u8, 0x42u8, 0x56u8, 0x4Cu8]
}

/// The segment format version this library writes.
pub const VLOG_VERSION: u32 = 1;

/// Length of the encoded segment header.
pub const VLOG_HEADER_LEN: usize = 25;

/// Length of the encoded entry metadata.
pub const VLOG_META_LEN: u32 = 17;

/// Header of a value log segment.
#[derive(Debug, Clone, Copy)]
pub struct VlogHeader {
    pub magic: [u8; 8],
    pub version: u32,
    /// Creation time in milliseconds since the epoch.
    pub created_at: u64,
    /// The one algorithm the segment's entries use.
    pub compression: CompressionAlgorithm,
    /// CRC-32 of magic, version, creation time and compression byte.
    pub checksum: u32,
}

/// The bytes that the segment header checksum covers.
pub open spec fn vlog_header_summed(magic: Seq<u8>, version: u32, created_at: u64, compression: CompressionAlgorithm) -> Seq<u8> {
    magic + u32_le(version) + u64_le(created_at) + seq![compression_code(compression)]
}

/// The bytes of the valid header of a segment created at `created_at`.
pub open spec fn vlog_header_for(created_at: u64, compression: CompressionAlgorithm) -> Seq<u8> {
    vlog_header_summed(vlog_magic(), VLOG_VERSION, created_at, compression) + u32_le(
        crc32_of(vlog_header_summed(vlog_magic(), VLOG_VERSION, created_at, compression)),
    )
}

impl VlogHeader {
    /// Whether the header is one this library wrote and is intact.
    pub open spec fn valid(self) -> bool {
        self.magic@ == vlog_magic() && self.version == VLOG_VERSION && self.checksum == crc32_of(
            vlog_header_summed(self.magic@, self.version, self.created_at, self.compression),
        )
    }

    /// The header bytes.
    pub open spec fn bytes(self) -> Seq<u8> {
        vlog_header_summed(self.magic@, self.version, self.created_at, self.compression) + u32_le(self.checksum)
    }

    /// A header for a segment created now.
    pub fn new(compression: CompressionAlgorithm) -> (r: VlogHeader)
        ensures
            r.valid(),
            r.compression == compression,
    {
        VlogHeader::created(now_millis(), compression)
    }

    /// A header for a segment created at `created_at`, with its checksum.
    pub fn created(created_at: u64, compression: CompressionAlgorithm) -> (r: VlogHeader)
        ensures
            r.valid(),
            r.created_at == created_at,
            r.compression == compression,
            r.bytes() == vlog_header_for(created_at, compression),
    {
        let mut h = VlogHeader {
            magic: [0x41u8, 0x55u8, 0x52u8, 0x41u8, 0x44u8, 0x42u8, 0x56u8, 0x4Cu8],
            version: VLOG_VERSION,
            created_at,
            compression,
            checksum: 0,
        };
        assert(h.magic@ =~= vlog_magic());
        h.checksum = h.calculate_checksum();
        h
    }

    /// The CRC-32 of magic, version, creation time and compression byte.
    pub fn calculate_checksum(&self) -> (r: u32)
        ensures
            r == crc32_of(vlog_header_summed(self.magic@, self.version, self.created_at, self.compression)),
    {
        let mut summed: Vec<u8> = Vec::new();
        put_bytes(&mut summed, &self.magic);
        put_u32(&mut summed, self.version);
        put_u64(&mut summed, self.created_at);
        summed.push(self.compression.code());
        assert(summed@ =~= vlog_header_summed(self.magic@, self.version, self.created_at, self.compression));
        crc32(summed.as_slice())
    }

    /// Whether the header is one this library wrote and is intact.
    pub fn validate(&self) -> (r: bool)
        ensures
            r == self.valid(),
    {
        let m = &self.magic;
        let magic_ok = m[0] == 0x41 && m[1] == 0x55 && m[2] == 0x52 && m[3] == 0x41 && m[4] == 0x44
            && m[5] == 0x42 && m[6] == 0x56 && m[7] == 0x4C;
        assert(magic_ok ==> self.magic@ =~= vlog_magic());
        magic_ok && self.version == VLOG_VERSION && self.checksum == self.calculate_checksum()
    }

    /// The header bytes.
    pub fn to_bytes(&self) -> (r: Vec<u8>)
        ensures
            r@ == self.bytes(),
            r@.len() == VLOG_HEADER_LEN,
    {
        let mut out: Vec<u8> = Vec::new();
        put_bytes(&mut out, &self.magic);
        put_u32(&mut out, self.version);
        put_u64(&mut out, self.created_at);
        out.push(self.compression.code());
        put_u32(&mut out, self.checksum);
        assert(out@ =~= self.bytes());
        out
    }
}

/// Metadata of one value log entry.
#[derive(Debug, Clone, Copy, PartialEq, Eq, Structural)]
pub struct VlogEntry {
    /// Number of stored bytes.
    pub length: u32,
    /// Algorithm the stored bytes are compressed with.
    pub compression: CompressionAlgorithm,
    /// CRC-32 of the plaintext.
    pub checksum: u32,
    /// Write time in milliseconds since the epoch.
    pub timestamp: u64,
}

/// The metadata bytes.
pub open spec fn meta_bytes(e: VlogEntry) -> Seq<u8> {
    u32_le(e.length) + seq![compression_code(e.compression)] + u32_le(e.checksum) + u64_le(e.timestamp)
}

/// The bytes of an entry: metadata length, metadata, stored bytes.
pub open spec fn entry_bytes(e: VlogEntry, stored: Seq<u8>) -> Seq<u8> {
    u32_le(VLOG_META_LEN) + meta_bytes(e) + stored
}

/// The entry stored at `off`: its metadata and stored bytes, if they are all there and
/// well framed.
pub open spec fn stored_entry(s: Seq<u8>, off: int) -> Option<(VlogEntry, Seq<u8>)> {
    if 0 <= off && off + 4 + VLOG_META_LEN <= s.len() && le_to_u32(s.subrange(off, off + 4)) == VLOG_META_LEN
        && s[off + 8] <= 3 {
        let length = le_to_u32(s.subrange(off + 4, off + 8));
        let code = s[off + 8];
        let compression = if code == 0 {
            CompressionAlgorithm::Uncompressed
        } else if code == 1 {
            CompressionAlgorithm::Lz4
        } else if code == 2 {
            CompressionAlgorithm::Zstd
        } else {
            CompressionAlgorithm::Snappy
        };
        let checksum = le_to_u32(s.subrange(off + 9, off + 13));
        let timestamp = le_to_u64(s.subrange(off + 13, off + 21));
        let start = off + 4 + VLOG_META_LEN;
        if start + length <= s.len() {
            Some((VlogEntry { length, compression, checksum, timestamp }, s.subrange(start, start + length)))
        } else {
            None
        }
    } else {
        None
    }
}

/// The value that reading through `p` yields from segment bytes `s`: the entry must
/// be there, agree with the pointer, be stored uncompressed and match its checksum.
pub open spec fn read_at(s: Seq<u8>, p: ValuePointer) -> Option<Seq<u8>> {
    match stored_entry(s, p.offset as int) {
        Some((e, v)) => if e.length == p.length && (p.checksum is None || p.checksum == Some(e.checksum))
            && e.compression == CompressionAlgorithm::Uncompressed && crc32_of(v) == e.checksum {
            Some(v)
        } else {
            None
        },
        None => None,
    }
}

/// An entry appended to segment bytes reads back, through the pointer made for it, as
/// the value written, whatever is appended later.
pub proof fn lemma_read_after_append(s: Seq<u8>, later: Seq<u8>, v: Seq<u8>, timestamp: u64, segment_id: u64)
    requires
        v.len() <= u32::MAX,
        s.len() <= u64::MAX,
    ensures
        ({
            let e = VlogEntry {
                length: v.len() as u32,
                compression: CompressionAlgorithm::Uncompressed,
                checksum: crc32_of(v),
                timestamp,
            };
            let p = ValuePointer {
                segment_id,
                offset: s.len() as u64,
                length: v.len() as u32,
                checksum: Some(crc32_of(v)),
            };
            read_at(s + entry_bytes(e, v) + later, p) == Some(v)
        }),
{
    let e = VlogEntry { length: v.len() as u32, compression: CompressionAlgorithm::Uncompressed, checksum: crc32_of(v), timestamp };
    let t = s + entry_bytes(e, v) + later;
    let o = s.len() as int;
    assert(t.subrange(o, o + 4) =~= u32_le(VLOG_META_LEN));
    assert(t.subrange(o + 4, o + 8) =~= u32_le(e.length));
    assert(t.subrange(o + 9, o + 13) =~= u32_le(e.checksum));
    assert(t.subrange(o + 13, o + 21) =~= u64_le(timestamp));
    assert(t.subrange(o + 21, o + 21 + v.len()) =~= v);
    assert(t[o + 8] == 0u8);
    lemma_u32_round_trip(VLOG_META_LEN);
    lemma_u32_round_trip(e.length);
    lemma_u32_round_trip(e.checksum);
    lemma_u64_round_trip(timestamp);
}

/// Reads the value that `p` addresses in segment bytes `s`.
pub fn read_value_at(s: &[u8], p: &ValuePointer) -> (r: Result<Value, Error>)
    ensures
        r is Ok <==> read_at(s@, *p) is Some,
        r is Ok ==> r.unwrap()@ == read_at(s@, *p).unwrap() && !r.unwrap().compressed,
        r is Err ==> (r.unwrap_err() is ValueLogCorruption || r.unwrap_err() is InvalidValuePointer),
{
    let len = s.len();
    if p.offset > len as u64 {
        return Err(Error::InvalidValuePointer(String::from_str("offset past the end of the segment")));
    }
    let off = p.offset as usize;
    if len - off < 21 {
        return Err(Error::ValueLogCorruption(String::from_str("entry cut short")));
    }
    let meta_len = get_u32(s, off).unwrap();
    if meta_len != VLOG_META_LEN {
        return Err(Error::ValueLogCorruption(String::from_str("bad entry metadata length")));
    }
    let length = get_u32(s, off + 4).unwrap();
    let code = s[off + 8];
    let checksum = get_u32(s, off + 9).unwrap();
    if code > 3 {
        return Err(Error::ValueLogCorruption(String::from_str("unknown compression")));
    }
    let start = off + 21;
    let stored = match get_bytes(s, start, length as usize) {
        Some(b) => b,
        None => return Err(Error::ValueLogCorruption(String::from_str("entry cut short"))),
    };
    if length != p.length {
        return Err(Error::InvalidValuePointer(String::from_str("pointer length disagrees with the entry")));
    }
    match p.checksum {
        Some(c) => {
            if c != checksum {
                return Err(Error::InvalidValuePointer(String::from_str("pointer checksum disagrees with the entry")));
            }
        },
        None => {},
    }
    if code != 0 {
        return Err(Error::ValueLogCorruption(String::from_str("no codec for the entry's compression")));
    }
    if crc32(stored.as_slice()) != checksum {
        return Err(Error::ValueLogCorruption(String::from_str("checksum mismatch")));
    }
    Ok(Value::new(stored))
}

/// What is known of a segment.
#[derive(Debug, Clone)]
pub struct VlogSegmentMeta {
    /// Where the caller keeps the segment.
    pub path: String,
    /// Bytes written, header included.
    pub size: u64,
    /// Entries written.
    pub entry_count: u64,
    /// Offset of the first entry.
    pub first_offset: u64,
    /// Offset just past the last entry.
    pub last_offset: u64,
    /// Creation time in milliseconds since the epoch.
    pub created_at: u64,
    /// Whether the segment is sealed.
    pub closed: bool,
}

/// A value log segment held in memory.
#[derive(Debug)]
pub struct VlogSegment {
    id: u64,
    data: Vec<u8>,
    meta: VlogSegmentMeta,
    max_size: u64,
}

impl VlogSegment {
    pub closed spec fn spec_id(&self) -> u64 {
        self.id
    }

    /// The segment's bytes, header included.
    pub closed spec fn spec_data(&self) -> Seq<u8> {
        self.data@
    }

    pub closed spec fn spec_max_size(&self) -> u64 {
        self.max_size
    }

    pub closed spec fn spec_closed(&self) -> bool {
        self.meta.closed
    }

    /// The segment's bytes fit the pointers' offsets.
    pub closed spec fn well_formed(&self) -> bool {
        self.data@.len() <= u64::MAX && self.meta.size == self.data@.len()
    }

    /// A new segment whose bytes are its header.
    pub fn new(id: u64, compression: CompressionAlgorithm, max_size: u64, now: u64) -> (r: VlogSegment)
        ensures
            r.well_formed(),
            r.spec_id() == id,
            r.spec_max_size() == max_size,
            r.spec_data().len() == VLOG_HEADER_LEN,
            r.spec_data() == vlog_header_for(now, compression),
            !r.spec_closed(),
    {
        let header = VlogHeader::created(now, compression);
        let data = header.to_bytes();
        let meta = VlogSegmentMeta {
            path: String::new(),
            size: VLOG_HEADER_LEN as u64,
            entry_count: 0,
            first_offset: VLOG_HEADER_LEN as u64,
            last_offset: VLOG_HEADER_LEN as u64,
            created_at: now,
            closed: false,
        };
        VlogSegment { id, data, meta, max_size }
    }

    /// The segment's id.
    pub fn id(&self) -> (r: u64)
        ensures
            r == self.spec_id(),
    {
        self.id
    }

    /// The segment's bytes, header included.
    pub fn data(&self) -> (r: &[u8])
        ensures
            r@ == self.spec_data(),
    {
        self.data.as_slice()
    }

    /// What is known of the segment.
    pub fn meta(&self) -> (r: &VlogSegmentMeta)
        ensures
            r.closed == self.spec_closed(),
    {
        &self.meta
    }

    /// Appends a value, stored uncompressed, and returns its pointer.
    pub fn write_value(&mut self, value: &Value, now: u64) -> (r: Result<ValuePointer, Error>)
        requires
            old(self).well_formed(),
        ensures
            final(self).well_formed(),
            final(self).spec_id() == old(self).spec_id(),
            final(self).spec_max_size() == old(self).spec_max_size(),
            final(self).spec_closed() == old(self).spec_closed(),
            r is Ok <==> value@.len() <= u32::MAX && old(self).spec_data().len() + 21 + value@.len() <= u64::MAX,
            r is Err ==> final(self).spec_data() == old(self).spec_data() && r.unwrap_err() is Io,
            r is Ok ==> {
                let p = r.unwrap();
                &&& p == (ValuePointer {
                    segment_id: old(self).spec_id(),
                    offset: old(self).spec_data().len() as u64,
                    length: value@.len() as u32,
                    checksum: Some(crc32_of(value@)),
                })
                &&& final(self).spec_data() == old(self).spec_data() + entry_bytes(
                    VlogEntry {
                        length: value@.len() as u32,
                        compression: CompressionAlgorithm::Uncompressed,
                        checksum: crc32_of(value@),
                        timestamp: now,
                    },
                    value@,
                )
            },
    {
        let n = value.data.len();
        if n > u32::MAX as usize || self.data.len() as u64 > u64::MAX - 21 - n as u64 {
            return Err(Error::Io(String::from_str("segment full")));
        }
        let offset = self.data.len() as u64;
        let checksum = crc32(value.data.as_slice());
        let entry = VlogEntry { length: n as u32, compression: CompressionAlgorithm::Uncompressed, checksum, timestamp: now };
        put_u32(&mut self.data, VLOG_META_LEN);
        put_u32(&mut self.data, entry.length);
        self.data.push(0u8);
        put_u32(&mut self.data, checksum);
        put_u64(&mut self.data, now);
        put_bytes(&mut self.data, value.data.as_slice());
        assert(self.data@ =~= old(self).data@ + entry_bytes(entry, value@));
        self.meta.size = self.data.len() as u64;
        self.meta.entry_count = if self.meta.entry_count == u64::MAX { u64::MAX } else { self.meta.entry_count + 1 };
        self.meta.last_offset = self.meta.size;
        Ok(ValuePointer { segment_id: self.id, offset, length: n as u32, checksum: Some(checksum) })
    }

    /// Reads the value that a pointer into this segment addresses.
    pub fn read_value(&self, p: &ValuePointer) -> (r: Result<Value, Error>)
        ensures
            r is Ok <==> p.segment_id == self.spec_id() && read_at(self.spec_data(), *p) is Some,
            r is Ok ==> r.unwrap()@ == read_at(self.spec_data(), *p).unwrap(),
    {
        if p.segment_id != self.id {
            return Err(Error::InvalidValuePointer(String::from_str("pointer names another segment")));
        }
        read_value_at(self.data.as_slice(), p)
    }

    /// Whether the segment has reached its size limit.
    pub fn should_rotate(&self) -> (r: bool)
        requires
            self.well_formed(),
        ensures
            r == (self.spec_data().len() >= self.spec_max_size()),
    {
        self.meta.size >= self.max_size
    }

    /// Seals the segment.
    pub fn close(&mut self)
        ensures
            final(self).spec_closed(),
            final(self).spec_id() == old(self).spec_id(),
            final(self).spec_data() == old(self).spec_data(),
            final(self).spec_max_size() == old(self).spec_max_size(),
            final(self).well_formed() == old(self).well_formed(),
    {
        self.meta.closed = true;
    }
}

} // verus!

verus! {

/// The value that reading through `p` yields from the segments, where segment `i`
/// has id `i + 1`.
pub open spec fn vlog_read(segments: Seq<Seq<u8>>, p: ValuePointer) -> Option<Seq<u8>> {
    if 1 <= p.segment_id <= segments.len() {
        read_at(segments[p.segment_id - 1], p)
    } else {
        None
    }
}

/// The value log writer: parallel write queues, each appending to its own active
/// segment, which is sealed and replaced when full.
#[derive(Debug)]
pub struct VlogWriter {
    config: ValueLogConfig,
    segments: Vec<VlogSegment>,
    active: Vec<usize>,
    next_queue: usize,
}

impl View for VlogWriter {
    type V = Seq<Seq<u8>>;

    closed spec fn view(&self) -> Seq<Seq<u8>> {
        self.segments@.map_values(|s: VlogSegment| s.spec_data())
    }
}

impl VlogWriter {
    /// Segment `i` has id `i + 1`, every active index names a segment.
    pub closed spec fn well_formed(&self) -> bool {
        &&& self.active@.len() >= 1
        &&& self.segments@.len() < u64::MAX
        &&& forall|i: int| 0 <= i < self.segments@.len() ==> (#[trigger] self.segments@[i]).spec_id() == i + 1
            && self.segments@[i].well_formed() && self.segments@[i].spec_max_size() == self.config.max_segment_size
        &&& forall|q: int| 0 <= q < self.active@.len() ==> #[trigger] self.active@[q] < self.segments@.len()
            && self.segments@[self.active@[q] as int].spec_data().len() >= VLOG_HEADER_LEN
    }

    /// A writer with one empty segment per write queue, at least one.
    pub fn new(config: ValueLogConfig) -> (r: VlogWriter)
        ensures
            r.well_formed(),
            r@.len() <= 1024,
            r.config_max_segment() == config.max_segment_size,
    {
        VlogWriter::created(config, now_millis())
    }

    /// A writer whose first segments are created at `now`.
    pub fn created(config: ValueLogConfig, now: u64) -> (r: VlogWriter)
        ensures
            r.well_formed(),
            r@.len() == if config.write_queues == 0 { 1 } else if config.write_queues < 1024 { config.write_queues as int } else { 1024 },
            r.config_max_segment() == config.max_segment_size,
    {
        let queues: usize = if config.write_queues == 0 { 1 } else if config.write_queues < 1024 { config.write_queues } else { 1024 };
        let mut segments: Vec<VlogSegment> = Vec::new();
        let mut active: Vec<usize> = Vec::new();
        let mut i: usize = 0;
        while i < queues
            invariant
                1 <= queues <= 1024,
                0 <= i <= queues,
                segments@.len() == i,
                active@.len() == i,
                forall|j: int| 0 <= j < i ==> (#[trigger] segments@[j]).spec_id() == j + 1 && segments@[j].well_formed()
                    && segments@[j].spec_max_size() == config.max_segment_size
                    && segments@[j].spec_data().len() == VLOG_HEADER_LEN,
                forall|q: int| 0 <= q < i ==> #[trigger] active@[q] == q,
            decreases queues - i,
        {
            segments.push(VlogSegment::new((i + 1) as u64, config.compression_algorithm, config.max_segment_size, now));
            active.push(i);
            i = i + 1;
        }
        VlogWriter { config, segments, active, next_queue: 0 }
    }

    /// The segment index that queue `q` appends to, after sealing its segment and
    /// opening a fresh one if it was full.
    fn segment_for_queue(&mut self, q: usize, now: u64) -> (r: Result<usize, Error>)
        requires
            old(self).well_formed(),
            q < old(self).active@.len(),
        ensures
            final(self).well_formed(),
            final(self).config_max_segment() == old(self).config_max_segment(),
            final(self).active@.len() == old(self).active@.len(),
            forall|p: ValuePointer| #[trigger] vlog_read(old(self)@, p) is Some ==> vlog_read(final(self)@, p)
                == vlog_read(old(self)@, p),
            r is Ok ==> r.unwrap() < final(self).segments@.len() && (final(self).segments@[r.unwrap() as int].spec_data().len()
                < final(self).config_max_segment() || final(self).segments@[r.unwrap() as int].spec_data().len() == VLOG_HEADER_LEN),
            final(self)@.len() <= old(self)@.len() + 1,
            old(self)@.len() + 1 < u64::MAX ==> r is Ok,
            r is Ok ==> r.unwrap() == final(self).active@[q as int],
    {
        let idx = self.active[q];
        if !self.segments[idx].should_rotate() {
            return Ok(idx);
        }
        if self.segments.len() as u64 >= u64::MAX - 1 {
            return Err(Error::Io(String::from_str("no segment ids left")));
        }
        let ghost before = self@;
        let mut sealed = VlogSegment::placeholder();
        self.segments.set_and_swap(idx, &mut sealed);
        sealed.close();
        self.segments.set_and_swap(idx, &mut sealed);
        assert(self@ =~= before);
        let id = self.segments.len() as u64 + 1;
        let fresh = VlogSegment::new(id, self.config.compression_algorithm, self.config.max_segment_size, now);
        self.segments.push(fresh);
        let fresh_idx = self.segments.len() - 1;
        self.active.set(q, fresh_idx);
        proof {
            assert(self@ =~= before.push(self.segments@[fresh_idx as int].spec_data()));
            assert forall|p: ValuePointer| #[trigger] vlog_read(before, p) is Some implies vlog_read(self@, p) == vlog_read(before, p) by {
                assert(self@[p.segment_id - 1] == before[p.segment_id - 1]);
            }
        }
        Ok(fresh_idx)
    }

    /// Appends a value to segment `idx`.
    fn append_at(&mut self, idx: usize, value: &Value, now: u64) -> (r: Result<ValuePointer, Error>)
        requires
            old(self).well_formed(),
            idx < old(self).segments@.len(),
        ensures
            final(self).well_formed(),
            final(self).config_max_segment() == old(self).config_max_segment(),
            final(self).active@.len() == old(self).active@.len(),
            final(self)@.len() == old(self)@.len(),
            r is Ok ==> vlog_read(final(self)@, r.unwrap()) == Some(value@),
            forall|p: ValuePointer| #[trigger] vlog_read(old(self)@, p) is Some ==> vlog_read(final(self)@, p)
                == vlog_read(old(self)@, p),
            value@.len() <= u32::MAX && old(self).segments@[idx as int].spec_data().len() + 21 + value@.len() <= u64::MAX ==> r is Ok,
            r is Ok ==> r.unwrap() == (ValuePointer {
                segment_id: (idx + 1) as u64,
                offset: old(self).segments@[idx as int].spec_data().len() as u64,
                length: value@.len() as u32,
                checksum: Some(crc32_of(value@)),
            }),
    {
        let ghost mid = self@;
        let mut seg = VlogSegment::placeholder();
        self.segments.set_and_swap(idx, &mut seg);
        let r = seg.write_value(value, now);
        self.segments.set_and_swap(idx, &mut seg);
        proof {
            assert forall|p: ValuePointer| #[trigger] vlog_read(mid, p) is Some implies vlog_read(self@, p) == vlog_read(mid, p) by {
                if p.segment_id - 1 == idx {
                    match r {
                        Ok(_) => {
                            let old_data = mid[idx as int];
                            let added = self@[idx as int].subrange(old_data.len() as int, self@[idx as int].len() as int);
                            assert(self@[idx as int] =~= old_data + added);
                            lemma_read_prefix_kept(old_data, added, p);
                        },
                        Err(_) => {},
                    }
                }
            }
            match r {
                Ok(p) => {
                    let old_data = mid[idx as int];
                    lemma_read_after_append(old_data, Seq::empty(), value@, now, p.segment_id);
                    assert(old_data + entry_bytes(
                        VlogEntry { length: value@.len() as u32, compression: CompressionAlgorithm::Uncompressed, checksum: crc32_of(value@), timestamp: now },
                        value@,
                    ) + Seq::<u8>::empty() =~= self@[idx as int]);
                },
                Err(_) => {},
            }
        }
        r
    }

    /// Appends a value to the next queue's segment, sealing that segment first and
    /// opening a fresh one if it is full, and returns the value's pointer.
    pub fn write_value_sync(&mut self, value: &Value, now: u64) -> (r: Result<ValuePointer, Error>)
        requires
            old(self).well_formed(),
        ensures
            final(self).well_formed(),
            final(self).config_max_segment() == old(self).config_max_segment(),
            final(self)@.len() <= old(self)@.len() + 1,
            r is Ok ==> vlog_read(final(self)@, r.unwrap()) == Some(value@),
            forall|p: ValuePointer| #[trigger] vlog_read(old(self)@, p) is Some ==> vlog_read(final(self)@, p)
                == vlog_read(old(self)@, p),
            value@.len() <= u32::MAX && old(self).config_max_segment() <= 0x4000_0000_0000_0000
                && old(self)@.len() + 1 < u64::MAX ==> r is Ok,
            r is Ok ==> {
                let p = r.unwrap();
                &&& p.checksum == Some(crc32_of(value@))
                &&& p.length == value@.len()
                &&& p.offset >= VLOG_HEADER_LEN
                &&& 1 <= p.segment_id <= final(self)@.len()
            },
    {
        let q = self.next_queue % self.active.len();
        self.next_queue = if self.next_queue == usize::MAX { 0 } else { self.next_queue + 1 };
        let idx = match self.segment_for_queue(q, now) {
            Ok(i) => i,
            Err(e) => return Err(e),
        };
        self.append_at(idx, value, now)
    }

    pub closed spec fn config_max_segment(&self) -> u64 {
        self.config.max_segment_size
    }

    /// Reads the value that a pointer addresses.
    pub fn read_value(&self, p: &ValuePointer) -> (r: Result<Value, Error>)
        requires
            self.well_formed(),
        ensures
            r is Ok <==> vlog_read(self@, *p) is Some,
            r is Ok ==> r.unwrap()@ == vlog_read(self@, *p).unwrap(),
    {
        if p.segment_id == 0 || p.segment_id > self.segments.len() as u64 {
            return Err(Error::InvalidValuePointer(String::from_str("no such segment")));
        }
        let i = (p.segment_id - 1) as usize;
        self.segments[i].read_value(p)
    }

    /// The segments, in id order.
    pub fn segments(&self) -> (r: &[VlogSegment])
        ensures
            r@.map_values(|s: VlogSegment| s.spec_data()) == self@,
    {
        self.segments.as_slice()
    }

    /// What is known of segment `segment_id`, if there is one.
    pub fn get_segment_metadata(&self, segment_id: u64) -> (r: Option<&VlogSegmentMeta>)
        requires
            self.well_formed(),
        ensures
            r is Some <==> 1 <= segment_id <= self@.len(),
    {
        if segment_id == 0 || segment_id > self.segments.len() as u64 {
            None
        } else {
            Some(self.segments[(segment_id - 1) as usize].meta())
        }
    }

    /// Seals every segment.
    pub fn close(&mut self)
        requires
            old(self).well_formed(),
        ensures
            final(self).well_formed(),
            final(self)@ == old(self)@,
    {
        let mut i: usize = 0;
        while i < self.segments.len()
            invariant
                self.well_formed(),
                self@ == old(self)@,
                0 <= i <= self.segments@.len(),
            decreases self.segments@.len() - i,
        {
            let ghost before = self@;
            let mut seg = VlogSegment::placeholder();
            self.segments.set_and_swap(i, &mut seg);
            seg.close();
            self.segments.set_and_swap(i, &mut seg);
            assert(self@ =~= before);
            i = i + 1;
        }
    }
}

/// Bytes appended after an entry leave what reading it yields unchanged.
proof fn lemma_read_prefix_kept(s: Seq<u8>, added: Seq<u8>, p: ValuePointer)
    requires
        read_at(s, p) is Some,
    ensures
        read_at(s + added, p) == read_at(s, p),
{
    let t = s + added;
    let o = p.offset as int;
    assert(t.subrange(o, o + 4) =~= s.subrange(o, o + 4));
    assert(t.subrange(o + 4, o + 8) =~= s.subrange(o + 4, o + 8));
    assert(t.subrange(o + 9, o + 13) =~= s.subrange(o + 9, o + 13));
    assert(t.subrange(o + 13, o + 21) =~= s.subrange(o + 13, o + 21));
    let length = le_to_u32(s.subrange(o + 4, o + 8));
    assert(t.subrange(o + 21, o + 21 + length) =~= s.subrange(o + 21, o + 21 + length));
}

impl VlogSegment {
    /// A stand-in with no bytes, used while a segment is taken out for mutation.
    fn placeholder() -> (r: VlogSegment) {
        VlogSegment {
            id: 0,
            data: Vec::new(),
            meta: VlogSegmentMeta {
                path: String::new(),
                size: 0,
                entry_count: 0,
                first_offset: 0,
                last_offset: 0,
                created_at: 0,
                closed: false,
            },
            max_size: 0,
        }
    }
}

} // verus!

verus! {

impl VlogSegment {
    /// A segment whose bytes were read back from storage.
    pub fn restore(id: u64, data: Vec<u8>, max_size: u64) -> (r: VlogSegment)
        ensures
            r.well_formed(),
            r.spec_id() == id,
            r.spec_data() == data@,
            r.spec_max_size() == max_size,
    {
        let size = data.len() as u64;
        VlogSegment {
            id,
            data,
            meta: VlogSegmentMeta {
                path: String::new(),
                size,
                entry_count: 0,
                first_offset: VLOG_HEADER_LEN as u64,
                last_offset: size,
                created_at: 0,
                closed: true,
            },
            max_size,
        }
    }
}

impl VlogWriter {
    /// A writer over segments read back from storage, segment `i` having id `i + 1`,
    /// with one fresh segment appended to write to.
    pub fn restore(config: ValueLogConfig, segments: Vec<Vec<u8>>, now: u64) -> (r: VlogWriter)
        requires
            segments@.len() + 2 < u64::MAX,
        ensures
            r.well_formed(),
            r@.len() == segments@.len() + 1,
            forall|i: int| 0 <= i < segments@.len() ==> #[trigger] r@[i] == segments@[i]@,
            r.config_max_segment() == config.max_segment_size,
    {
        let mut restored: Vec<VlogSegment> = Vec::new();
        let mut rest = segments;
        let ghost all = rest@;
        let n = rest.len();
        let mut i: usize = 0;
        while i < n
            invariant
                n == all.len(),
                0 <= i <= n,
                n + 2 < u64::MAX,
                rest@ == all.skip(i as int),
                restored@.len() == i,
                forall|j: int| 0 <= j < i ==> (#[trigger] restored@[j]).spec_id() == j + 1 && restored@[j].well_formed()
                    && restored@[j].spec_max_size() == config.max_segment_size && restored@[j].spec_data() == all[j]@,
            decreases n - i,
        {
            let data = rest.remove(0);
            proof {
                assert(data == all[i as int]);
                assert(rest@ =~= all.skip(i + 1));
            }
            restored.push(VlogSegment::restore(i as u64 + 1, data, config.max_segment_size));
            i = i + 1;
        }
        let fresh = VlogSegment::new(n as u64 + 1, config.compression_algorithm, config.max_segment_size, now);
        restored.push(fresh);
        let mut active: Vec<usize> = Vec::new();
        active.push(n);
        let r = VlogWriter { config, segments: restored, active, next_queue: 0 };
        proof {
            assert forall|i: int| 0 <= i < all.len() implies #[trigger] r@[i] == all[i]@ by {
                assert(r.segments@[i].spec_data() == all[i]@);
            }
        }
        r
    }
}

} // verus!

verus! {

/// Requests to a value log write queue.
#[derive(Debug)]
pub enum VlogRequest {
    /// Append a value.
    Write(Value),
    /// Append what is queued and force it to disk.
    Sync,
    /// Drain and stop.
    Shutdown,
}

/// What a value log write queue does after a request.
#[derive(Debug)]
pub enum VlogAction {
    /// Nothing yet: the value waits for more.
    Queued,
    /// Append these values, in order, to the queue's segment.
    Flush(Vec<Value>),
    /// Append these values and stop.
    Stop(Vec<Value>),
}

/// The models of values, in order.
pub open spec fn values_view(v: Seq<Value>) -> Seq<Seq<u8>> {
    v.map_values(|x: Value| x@)
}

/// One write queue of the value log: values wait until a batch is full or a sync comes.
#[derive(Debug)]
pub struct VlogQueue {
    items: Vec<Value>,
    batch_size: usize,
    stopping: bool,
}

impl VlogQueue {
    pub closed spec fn spec_items(&self) -> Seq<Seq<u8>> {
        values_view(self.items@)
    }

    pub closed spec fn spec_batch_size(&self) -> usize {
        self.batch_size
    }

    pub closed spec fn spec_stopping(&self) -> bool {
        self.stopping
    }

    /// An empty queue flushing every `batch_size` values.
    pub fn new(batch_size: usize) -> (r: VlogQueue)
        ensures
            r.spec_items().len() == 0,
            r.spec_batch_size() == batch_size,
            !r.spec_stopping(),
    {
        let r = VlogQueue { items: Vec::new(), batch_size, stopping: false };
        assert(values_view(r.items@) =~= Seq::<Seq<u8>>::empty());
        r
    }

    fn take_all(&mut self) -> (r: Vec<Value>)
        ensures
            values_view(r@) == old(self).spec_items(),
            final(self).spec_items().len() == 0,
            final(self).spec_batch_size() == old(self).spec_batch_size(),
            final(self).spec_stopping() == old(self).spec_stopping(),
    {
        let mut out: Vec<Value> = Vec::new();
        core::mem::swap(&mut out, &mut self.items);
        assert(values_view(self.items@) =~= Seq::<Seq<u8>>::empty());
        out
    }

    /// Handles one request: a value is queued, and the queue flushed once it holds a
    /// batch; a sync flushes; a shutdown drains and stops the queue. A write to a
    /// stopping queue is refused.
    pub fn handle(&mut self, request: VlogRequest) -> (r: Result<VlogAction, Error>)
        ensures
            final(self).spec_batch_size() == old(self).spec_batch_size(),
            r is Err ==> r.unwrap_err() is Concurrency && final(self).spec_items() == old(self).spec_items()
                && final(self).spec_stopping() == old(self).spec_stopping(),
            match request {
                VlogRequest::Write(v) => {
                    &&& (r is Err <==> old(self).spec_stopping())
                    &&& r is Ok ==> {
                        let all = old(self).spec_items().push(v@);
                        if all.len() >= old(self).spec_batch_size() {
                            r.unwrap() is Flush && values_view(r.unwrap()->Flush_0@) == all
                                && final(self).spec_items().len() == 0
                        } else {
                            r.unwrap() is Queued && final(self).spec_items() == all
                        }
                    }
                    &&& final(self).spec_stopping() == old(self).spec_stopping()
                },
                VlogRequest::Sync => {
                    &&& r is Ok && r.unwrap() is Flush
                    &&& values_view(r.unwrap()->Flush_0@) == old(self).spec_items()
                    &&& final(self).spec_items().len() == 0
                    &&& final(self).spec_stopping() == old(self).spec_stopping()
                },
                VlogRequest::Shutdown => {
                    &&& r is Ok && r.unwrap() is Stop
                    &&& values_view(r.unwrap()->Stop_0@) == old(self).spec_items()
                    &&& final(self).spec_items().len() == 0
                    &&& final(self).spec_stopping()
                },
            },
    {
        match request {
            VlogRequest::Write(v) => {
                if self.stopping {
                    return Err(Error::Concurrency(String::from_str("shutdown in progress")));
                }
                let ghost before = self.items@;
                self.items.push(v);
                proof {
                    assert(values_view(self.items@) =~= values_view(before).push(self.items@.last()@));
                }
                if self.items.len() >= self.batch_size {
                    Ok(VlogAction::Flush(self.take_all()))
                } else {
                    Ok(VlogAction::Queued)
                }
            },
            VlogRequest::Sync => Ok(VlogAction::Flush(self.take_all())),
            VlogRequest::Shutdown => {
                self.stopping = true;
                Ok(VlogAction::Stop(self.take_all()))
            },
        }
    }
}

} // verus!
