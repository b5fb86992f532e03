//! The write-ahead log: file header, record framing, recovery and the writer's
//! decisions (when to open a new file, when to force records to disk).
//!
//! A file is a 24-byte header followed by frames, each a four-byte payload length and
//! the payload. The caller performs the file operations that the writer asks for.
use vstd::prelude::*;
use crate::codec::{crc32, crc32_of, get_u32, get_u64, le_to_u32, lemma_u32_round_trip, put_bytes, put_u32, put_u64, u32_le, u64_le};
use crate::config::{WalConfig, WalSyncPolicy};
use crate::error::Error;
use crate::storage::{now_millis, Entry};
use crate::wal_record::{decode_payload, decode_record, encode_record, lemma_record_round_trip, record_bytes, RecordModel, WalRecord};

verus! {

/// The file magic, "AURADBWA".
pub open spec fn wal_magic() -> Seq<u8> {
    seq![0x41u8, 0x55u8, 0x52u8, 0x41u8, 0x44u8, 0x42u8, 0x57u8, 0x41u8]
}

/// The format version this library writes.
pub const WAL_VERSION: u32 = 1;

/// Length of the encoded header.
pub const WAL_HEADER_LEN: usize = 24;

/// Header of a write-ahead log file.
#[derive(Debug, Clone, Copy)]
pub struct WalHeader {
    pub magic: [u8; 8],
    pub version: u32,
    /// Creation time in milliseconds since the epoch.
    pub created_at: u64,
    /// CRC-32 of magic, version and creation time.
    pub checksum: u32,
}

/// The bytes that the header checksum covers.
pub open spec fn wal_header_summed(magic: Seq<u8>, version: u32, created_at: u64) -> Seq<u8> {
    magic + u32_le(version) + u64_le(created_at)
}

impl WalHeader {
    /// Whether the header is one this library wrote and is intact.
    pub open spec fn valid(self) -> bool {
        self.magic@ == wal_magic() && self.version == WAL_VERSION && self.checksum == crc32_of(
            wal_header_summed(self.magic@, self.version, self.created_at),
        )
    }

    /// The header bytes.
    pub open spec fn bytes(self) -> Seq<u8> {
        self.magic@ + u32_le(self.version) + u64_le(self.created_at) + u32_le(self.checksum)
    }

    /// A header for a file created now.
    pub fn new() -> (r: WalHeader)
        ensures
            r.valid(),
    {
        WalHeader::created(now_millis())
    }

    /// A header for a file created at `created_at`, with its checksum.
    pub fn created(created_at: u64) -> (r: WalHeader)
        ensures
            r.valid(),
            r.created_at == created_at,
    {
        let mut h = WalHeader {
            magic: [0x41u8, 0x55u8, 0x52u8, 0x41u8, 0x44u8, 0x42u8, 0x57u8, 0x41u8],
            version: WAL_VERSION,
            created_at,
            checksum: 0,
        };
        assert(h.magic@ =~= wal_magic());
        h.checksum = h.calculate_checksum();
        h
    }

    /// The CRC-32 of magic, version and creation time.
    pub fn calculate_checksum(&self) -> (r: u32)
        ensures
            r == crc32_of(wal_header_summed(self.magic@, self.version, self.created_at)),
    {
        let mut summed: Vec<u8> = Vec::new();
        put_bytes(&mut summed, &self.magic);
        put_u32(&mut summed, self.version);
        put_u64(&mut summed, self.created_at);
        crc32(summed.as_slice())
    }

    /// Whether the header is one this library wrote and is intact.
    pub fn validate(&self) -> (r: bool)
        ensures
            r == self.valid(),
    {
        let m = &self.magic;
        let magic_ok = m[0] == 0x41 && m[1] == 0x55 && m[2] == 0x52 && m[3] == 0x41 && m[4] == 0x44
            && m[5] == 0x42 && m[6] == 0x57 && m[7] == 0x41;
        assert(magic_ok ==> self.magic@ =~= wal_magic());
        magic_ok && self.version == WAL_VERSION && self.checksum == self.calculate_checksum()
    }

    /// The header bytes.
    pub fn to_bytes(&self) -> (r: Vec<u8>)
        ensures
            r@ == self.bytes(),
            r@.len() == WAL_HEADER_LEN,
    {
        let mut out: Vec<u8> = Vec::new();
        put_bytes(&mut out, &self.magic);
        put_u32(&mut out, self.version);
        put_u64(&mut out, self.created_at);
        put_u32(&mut out, self.checksum);
        out
    }

    /// The header at the start of `buf`, if `buf` holds the header's length.
    pub fn from_bytes(buf: &[u8]) -> (r: Option<WalHeader>)
        ensures
            r is Some <==> buf@.len() >= WAL_HEADER_LEN,
            r is Some ==> r.unwrap().bytes() == buf@.subrange(0, WAL_HEADER_LEN as int),
    {
        if buf.len() < WAL_HEADER_LEN {
            return None;
        }
        let magic: [u8; 8] = [buf[0], buf[1], buf[2], buf[3], buf[4], buf[5], buf[6], buf[7]];
        let version = get_u32(buf, 8).unwrap();
        let created_at = get_u64(buf, 12).unwrap();
        let checksum = get_u32(buf, 20).unwrap();
        let h = WalHeader { magic, version, created_at, checksum };
        proof {
            let s = buf@;
            lemma_u32_round_trip(version);
            crate::codec::lemma_u64_round_trip(created_at);
            lemma_u32_round_trip(checksum);
            lemma_le_bytes_u32(s.subrange(8, 12));
            lemma_le_bytes_u64(s.subrange(12, 20));
            lemma_le_bytes_u32(s.subrange(20, 24));
            assert(h.bytes() =~= s.subrange(0, 24));
        }
        Some(h)
    }
}

/// Four bytes are the little-endian form of the integer they stand for.
pub proof fn lemma_le_bytes_u32(s: Seq<u8>)
    requires
        s.len() == 4,
    ensures
        u32_le(le_to_u32(s)) == s,
{
    let (b0, b1, b2, b3) = (s[0], s[1], s[2], s[3]);
    let x = le_to_u32(s);
    assert(x as u8 == b0 && (x >> 8u32) as u8 == b1 && (x >> 16u32) as u8 == b2 && (x >> 24u32) as u8
        == b3) by (bit_vector)
        requires
            x == (b0 as u32) | ((b1 as u32) << 8u32) | ((b2 as u32) << 16u32) | ((b3 as u32) << 24u32),
    ;
    assert(u32_le(x) =~= s);
}

/// Eight bytes are the little-endian form of the integer they stand for.
pub proof fn lemma_le_bytes_u64(s: Seq<u8>)
    requires
        s.len() == 8,
    ensures
        u64_le(crate::codec::le_to_u64(s)) == s,
{
    let (b0, b1, b2, b3, b4, b5, b6, b7) = (s[0], s[1], s[2], s[3], s[4], s[5], s[6], s[7]);
    let x = crate::codec::le_to_u64(s);
    assert(x as u8 == b0 && (x >> 8u64) as u8 == b1 && (x >> 16u64) as u8 == b2 && (x >> 24u64) as u8
        == b3 && (x >> 32u64) as u8 == b4 && (x >> 40u64) as u8 == b5 && (x >> 48u64) as u8 == b6
        && (x >> 56u64) as u8 == b7) by (bit_vector)
        requires
            x == (b0 as u64) | ((b1 as u64) << 8u64) | ((b2 as u64) << 16u64) | ((b3 as u64) << 24u64)
                | ((b4 as u64) << 32u64) | ((b5 as u64) << 40u64) | ((b6 as u64) << 48u64) | ((
            b7 as u64) << 56u64),
    ;
    assert(u64_le(x) =~= s);
}

} // verus!

verus! {

/// A record that fits a frame: well formed, with a payload whose length fits in four
/// bytes.
pub open spec fn frameable(m: RecordModel) -> bool {
    m.well_formed() && record_bytes(m).len() <= u32::MAX
}

/// The frame of a record: payload length, then payload.
pub open spec fn frame_bytes(m: RecordModel) -> Seq<u8> {
    u32_le(record_bytes(m).len() as u32) + record_bytes(m)
}

/// The frames of records, one after the other.
pub open spec fn frames_bytes(ms: Seq<RecordModel>) -> Seq<u8>
    decreases ms.len(),
{
    if ms.len() == 0 {
        Seq::empty()
    } else {
        frame_bytes(ms[0]) + frames_bytes(ms.drop_first())
    }
}

/// The records that recovery reads from the frames of a file: frame after frame,
/// stopping at the first frame that is cut short or whose payload does not decode.
pub open spec fn replay_frames(s: Seq<u8>) -> Seq<RecordModel>
    decreases s.len(),
{
    if s.len() < 4 {
        Seq::empty()
    } else {
        let n = le_to_u32(s.subrange(0, 4)) as int;
        if 4 + n > s.len() {
            Seq::empty()
        } else {
            match decode_payload(s.subrange(4, 4 + n)) {
                Some(m) => seq![m] + replay_frames(s.subrange(4 + n, s.len() as int)),
                None => Seq::empty(),
            }
        }
    }
}

/// Frames written in full are read back in order, whatever follows them.
pub proof fn lemma_replay_frames_prefix(ms: Seq<RecordModel>, rest: Seq<u8>)
    requires
        forall|i: int| 0 <= i < ms.len() ==> frameable(#[trigger] ms[i]),
    ensures
        replay_frames(frames_bytes(ms) + rest) == ms + replay_frames(rest),
    decreases ms.len(),
{
    if ms.len() == 0 {
        assert(frames_bytes(ms) + rest =~= rest);
        assert(ms + replay_frames(rest) =~= replay_frames(rest));
    } else {
        let m = ms[0];
        let tail = ms.drop_first();
        assert(forall|i: int| 0 <= i < tail.len() ==> #[trigger] tail[i] == ms[i + 1]);
        assert(frameable(m));
        let p = record_bytes(m);
        let n = p.len() as u32;
        let s = frames_bytes(ms) + rest;
        let after = frames_bytes(tail) + rest;
        assert(s =~= u32_le(n) + p + after);
        assert(s.subrange(0, 4) =~= u32_le(n));
        lemma_u32_round_trip(n);
        assert(s.subrange(4, 4 + p.len() as int) =~= p);
        lemma_record_round_trip(m);
        assert(s.subrange(4 + p.len() as int, s.len() as int) =~= after);
        lemma_replay_frames_prefix(tail, rest);
        assert(seq![m] + (tail + replay_frames(rest)) =~= ms + replay_frames(rest));
    }
}

/// A frame that was cut short yields no record.
pub proof fn lemma_replay_torn_frame(m: RecordModel, cut: int)
    requires
        frameable(m),
        0 <= cut < frame_bytes(m).len(),
    ensures
        replay_frames(frame_bytes(m).take(cut)) == Seq::<RecordModel>::empty(),
{
    let f = frame_bytes(m);
    let t = f.take(cut);
    if cut >= 4 {
        assert(t.subrange(0, 4) =~= u32_le(record_bytes(m).len() as u32));
        lemma_u32_round_trip(record_bytes(m).len() as u32);
    }
}

/// After a crash, recovery reads back exactly the records whose frames reached the
/// file in full, in order; a record whose frame was cut short by the crash is not
/// read.
pub proof fn lemma_crash_recovery(written: Seq<RecordModel>, torn: RecordModel, cut: int)
    requires
        forall|i: int| 0 <= i < written.len() ==> frameable(#[trigger] written[i]),
        frameable(torn),
        0 <= cut < frame_bytes(torn).len(),
    ensures
        replay_frames(frames_bytes(written) + frame_bytes(torn).take(cut)) == written,
{
    lemma_replay_frames_prefix(written, frame_bytes(torn).take(cut));
    lemma_replay_torn_frame(torn, cut);
    assert(written + Seq::<RecordModel>::empty() =~= written);
}

/// The models of a sequence of records.
pub open spec fn records_view(v: Seq<WalRecord>) -> Seq<RecordModel> {
    v.map_values(|x: WalRecord| x@)
}

/// The frame of a record, or an error when its payload is too long for a frame.
pub fn encode_frame(record: &WalRecord) -> (r: Result<Vec<u8>, Error>)
    requires
        record@.well_formed(),
    ensures
        r is Ok <==> frameable(record@),
        r is Ok ==> r.unwrap()@ == frame_bytes(record@),
        r is Err ==> r.unwrap_err() is Serialization,
{
    let payload = encode_record(record);
    if payload.len() > u32::MAX as usize {
        return Err(Error::Serialization(String::from_str("record too large for a frame")));
    }
    let mut out: Vec<u8> = Vec::new();
    put_u32(&mut out, payload.len() as u32);
    put_bytes(&mut out, payload.as_slice());
    Ok(out)
}

/// The records that recovery reads from `buf`, starting at `start`.
pub fn read_frames(buf: &[u8], start: usize) -> (r: Vec<WalRecord>)
    requires
        start <= buf@.len(),
    ensures
        records_view(r@) == replay_frames(buf@.subrange(start as int, buf@.len() as int)),
{
    let ghost whole = replay_frames(buf@.subrange(start as int, buf@.len() as int));
    let mut out: Vec<WalRecord> = Vec::new();
    let mut pos: usize = start;
    let len = buf.len();
    loop
        invariant
            start <= pos <= buf@.len(),
            len == buf@.len(),
            whole == replay_frames(buf@.subrange(start as int, buf@.len() as int)),
            whole == records_view(out@) + replay_frames(buf@.subrange(pos as int, buf@.len() as int)),
        decreases buf@.len() - pos,
    {
        let ghost s = buf@.subrange(pos as int, buf@.len() as int);
        if len - pos < 4 {
            assert(s.len() == len - pos);
            assert(replay_frames(s) =~= Seq::<RecordModel>::empty());
            assert(records_view(out@) + replay_frames(s) =~= records_view(out@));
            return out;
        }
        let n = get_u32(buf, pos).unwrap();
        assert(s.subrange(0, 4) =~= buf@.subrange(pos as int, pos + 4));
        if (n as usize) > len - pos - 4 {
            assert(le_to_u32(s.subrange(0, 4)) == n);
            assert(replay_frames(s) =~= Seq::<RecordModel>::empty());
            assert(records_view(out@) + replay_frames(s) =~= records_view(out@));
            return out;
        }
        let end = pos + 4 + n as usize;
        let payload = &buf[pos + 4..end];
        assert(payload@ =~= s.subrange(4, 4 + n));
        match decode_record(payload) {
            Some(rec) => {
                let ghost before = records_view(out@);
                proof {
                    assert(s.subrange(4 + n, s.len() as int) =~= buf@.subrange(end as int, buf@.len() as int));
                }
                out.push(rec);
                proof {
                    assert(records_view(out@) =~= before.push(rec@));
                    let later = replay_frames(buf@.subrange(end as int, buf@.len() as int));
                    assert(before + (seq![rec@] + later) =~= before.push(rec@) + later);
                }
                pos = end;
            },
            None => {
                assert(records_view(out@) + replay_frames(s) =~= records_view(out@));
                return out;
            },
        }
    }
}

} // verus!

verus! {

/// The records of a whole log file: none when the header is short or damaged.
pub fn recover_file(buf: &[u8]) -> (r: Vec<WalRecord>)
    ensures
        buf@.len() < WAL_HEADER_LEN ==> r@.len() == 0,
        buf@.len() >= WAL_HEADER_LEN ==> {
            let h = WalHeader::from_bytes_spec(buf@);
            if h.valid() {
                records_view(r@) == replay_frames(buf@.subrange(WAL_HEADER_LEN as int, buf@.len() as int))
            } else {
                r@.len() == 0
            }
        },
{
    match WalHeader::from_bytes(buf) {
        Some(h) => {
            proof {
                WalHeader::lemma_bytes_determine(h, WalHeader::from_bytes_spec(buf@), buf@);
            }
            if h.validate() {
                read_frames(buf, WAL_HEADER_LEN)
            } else {
                Vec::new()
            }
        },
        None => Vec::new(),
    }
}

impl WalHeader {
    /// The header that the first bytes of `s` hold.
    pub open spec fn from_bytes_spec(s: Seq<u8>) -> WalHeader {
        choose|h: WalHeader| h.bytes() == s.subrange(0, WAL_HEADER_LEN as int)
    }

    /// Two headers with the same bytes are valid alike.
    pub proof fn lemma_bytes_determine(a: WalHeader, b: WalHeader, s: Seq<u8>)
        requires
            s.len() >= WAL_HEADER_LEN,
            a.bytes() == s.subrange(0, WAL_HEADER_LEN as int),
            b == WalHeader::from_bytes_spec(s),
        ensures
            a.valid() == b.valid(),
    {
        assert(b.bytes() == s.subrange(0, WAL_HEADER_LEN as int));
        let x = a.bytes();
        assert(a.magic@ =~= x.subrange(0, 8));
        assert(b.magic@ =~= x.subrange(0, 8));
        assert(u32_le(a.version) =~= x.subrange(8, 12));
        assert(u32_le(b.version) =~= x.subrange(8, 12));
        lemma_u32_round_trip(a.version);
        lemma_u32_round_trip(b.version);
        assert(u64_le(a.created_at) =~= x.subrange(12, 20));
        assert(u64_le(b.created_at) =~= x.subrange(12, 20));
        crate::codec::lemma_u64_round_trip(a.created_at);
        crate::codec::lemma_u64_round_trip(b.created_at);
        assert(u32_le(a.checksum) =~= x.subrange(20, 24));
        assert(u32_le(b.checksum) =~= x.subrange(20, 24));
        lemma_u32_round_trip(a.checksum);
        lemma_u32_round_trip(b.checksum);
    }
}

/// What the writer knows of a log file.
#[derive(Debug, Clone)]
pub struct WalFileMeta {
    /// Where the caller keeps the file.
    pub path: String,
    /// Bytes written, header included.
    pub size: u64,
    /// Sequence of the first record in the file.
    pub first_sequence: u64,
    /// Sequence of the last record in the file.
    pub last_sequence: u64,
    /// Creation time in milliseconds since the epoch.
    pub created_at: u64,
    /// Whether the file is sealed.
    pub closed: bool,
    /// Records in the file.
    pub record_count: u64,
}

/// Requests to a background log writer.
#[derive(Debug)]
pub enum AsyncWriteRequest {
    /// Append a record.
    Write(WalRecord),
    /// Force the current file to disk.
    Sync,
    /// Drain and stop.
    Shutdown,
}

/// What the caller must do for one record: seal the current file and open a new one
/// starting with `new_file`'s bytes, if given; append `frame`; force it to disk if
/// `sync`.
#[derive(Debug)]
pub struct WalAppend {
    pub new_file: Option<WalHeader>,
    pub frame: Vec<u8>,
    pub sync: bool,
    /// Sequence number the log gave the record.
    pub sequence: u64,
}

/// Whether the policy forces a file to disk once it holds `count` records.
pub open spec fn sync_due(policy: WalSyncPolicy, count: u64) -> bool {
    match policy {
        WalSyncPolicy::EveryWrite => true,
        WalSyncPolicy::EveryNWrites(n) => n == 0 || count % n == 0,
        WalSyncPolicy::EveryNMs(_) => false,
        WalSyncPolicy::Manual => false,
    }
}

/// `a + b`, or the largest `u64` when the sum does not fit.
pub open spec fn sat_add(a: u64, b: int) -> u64 {
    if a + b > u64::MAX {
        u64::MAX
    } else {
        (a + b) as u64
    }
}

/// The write-ahead log writer: it numbers records, frames them and decides when a file
/// is sealed and when records are forced to disk.
#[derive(Debug)]
pub struct WalWriter {
    config: WalConfig,
    sequence: u64,
    current: Option<WalFileMeta>,
}

impl WalWriter {
    pub closed spec fn spec_sequence(&self) -> u64 {
        self.sequence
    }

    pub closed spec fn spec_config(&self) -> WalConfig {
        self.config
    }

    pub closed spec fn spec_current(&self) -> Option<WalFileMeta> {
        self.current
    }

    /// Whether the next record goes to a new file: there is none yet, or the current
    /// one has reached the size limit.
    pub open spec fn rotation_due(&self) -> bool {
        match self.spec_current() {
            None => true,
            Some(f) => f.size >= self.spec_config().max_file_size,
        }
    }

    /// A writer with no file open; records are numbered from zero.
    pub fn new(config: WalConfig) -> (r: WalWriter)
        ensures
            r.spec_sequence() == 0,
            r.spec_current() is None,
            r.spec_config().max_file_size == config.max_file_size,
            r.spec_config().sync_policy == config.sync_policy,
    {
        WalWriter { config, sequence: 0, current: None }
    }

    /// Whether the next record goes to a new file.
    fn should_rotate(&self) -> (r: bool)
        ensures
            r == self.rotation_due(),
    {
        match &self.current {
            None => true,
            Some(f) => f.size >= self.config.max_file_size,
        }
    }

    /// Numbers and frames a record, and says which file operations it needs.
    pub fn write_record(&mut self, record: &WalRecord, now: u64) -> (r: Result<WalAppend, Error>)
        requires
            record@.well_formed(),
        ensures
            old(self).spec_sequence() == u64::MAX ==> r is Err && r.unwrap_err() is Concurrency,
            old(self).spec_sequence() < u64::MAX && !frameable(record@) ==> r is Err
                && r.unwrap_err() is Serialization,
            r is Err ==> *final(self) == *old(self),
            r is Ok <==> old(self).spec_sequence() < u64::MAX && frameable(record@),
            r is Ok ==> {
                let a = r.unwrap();
                let f = final(self).spec_current().unwrap();
                let before = if old(self).rotation_due() {
                    WAL_HEADER_LEN as u64
                } else {
                    old(self).spec_current().unwrap().size
                };
                &&& a.sequence == old(self).spec_sequence()
                &&& final(self).spec_sequence() == old(self).spec_sequence() + 1
                &&& final(self).spec_config() == old(self).spec_config()
                &&& a.frame@ == frame_bytes(record@)
                &&& (a.new_file is Some <==> old(self).rotation_due())
                &&& a.new_file is Some ==> a.new_file.unwrap().valid() && a.new_file.unwrap().created_at == now
                &&& final(self).spec_current() is Some
                &&& f.size == sat_add(before, a.frame@.len() as int)
                &&& a.sync == sync_due(old(self).spec_config().sync_policy, f.record_count)
                &&& f.last_sequence == a.sequence
            },
    {
        if self.sequence == u64::MAX {
            return Err(Error::Concurrency(String::from_str("sequence numbers exhausted")));
        }
        let frame = match encode_frame(record) {
            Ok(f) => f,
            Err(e) => return Err(e),
        };
        let sequence = self.sequence;
        let rotate = self.should_rotate();
        let mut meta = if rotate {
            WalFileMeta {
                path: String::new(),
                size: WAL_HEADER_LEN as u64,
                first_sequence: sequence,
                last_sequence: sequence,
                created_at: now,
                closed: false,
                record_count: 0,
            }
        } else {
            self.current.take().unwrap()
        };
        let len = frame.len() as u64;
        meta.size = if meta.size > u64::MAX - len { u64::MAX } else { meta.size + len };
        meta.last_sequence = sequence;
        meta.record_count = if meta.record_count == u64::MAX { u64::MAX } else { meta.record_count + 1 };
        let sync = match self.config.sync_policy {
            WalSyncPolicy::EveryWrite => true,
            WalSyncPolicy::EveryNWrites(n) => n == 0 || meta.record_count % n == 0,
            WalSyncPolicy::EveryNMs(_) => false,
            WalSyncPolicy::Manual => false,
        };
        let new_file = if rotate { Some(WalHeader::created(now)) } else { None };
        self.current = Some(meta);
        self.sequence = sequence + 1;
        Ok(WalAppend { new_file, frame, sync, sequence })
    }

    /// Frames a batch of entries as one record, applied all or nothing on recovery.
    pub fn write_batch(&mut self, entries: &[Entry], now: u64) -> (r: Result<WalAppend, Error>)
        ensures
            r is Ok <==> old(self).spec_sequence() < u64::MAX && frameable(batch_model(entries@, old(self).spec_sequence(), now)),
            r is Err ==> *final(self) == *old(self),
            r is Ok ==> r.unwrap().frame@ == frame_bytes(batch_model(entries@, old(self).spec_sequence(), now))
                && r.unwrap().sequence == old(self).spec_sequence()
                && final(self).spec_sequence() == old(self).spec_sequence() + 1,
    {
        let record = batch_record(entries, self.sequence, now);
        self.write_record(&record, now)
    }

    /// Whether a file is open, so that the caller has one to force to disk.
    pub fn sync(&self) -> (r: bool)
        ensures
            r == self.spec_current() is Some,
    {
        self.current.is_some()
    }

    /// The sequence number the next record gets.
    pub fn current_sequence(&self) -> (r: u64)
        ensures
            r == self.spec_sequence(),
    {
        self.sequence
    }

    /// Seals the current file and returns what is known of it.
    pub fn close(&mut self) -> (r: Option<WalFileMeta>)
        ensures
            final(self).spec_current() is None,
            final(self).spec_sequence() == old(self).spec_sequence(),
            final(self).spec_config() == old(self).spec_config(),
            r is Some <==> old(self).spec_current() is Some,
            r is Some ==> r.unwrap().closed && r.unwrap().size == old(self).spec_current().unwrap().size,
    {
        match self.current.take() {
            Some(mut f) => {
                f.closed = true;
                Some(f)
            },
            None => None,
        }
    }
}

/// The record that stands for one entry in a batch.
pub open spec fn entry_model(e: Entry) -> RecordModel {
    match e.value {
        Some(v) => RecordModel::Put { key: e.key@, value: v@, sequence: e.sequence, timestamp: e.timestamp },
        None => match e.value_pointer {
            Some(p) => RecordModel::PutPointer { key: e.key@, value_pointer: p, sequence: e.sequence, timestamp: e.timestamp },
            None => RecordModel::Delete { key: e.key@, sequence: e.sequence, timestamp: e.timestamp },
        },
    }
}

/// The batch record for entries.
pub open spec fn batch_model(entries: Seq<Entry>, sequence: u64, timestamp: u64) -> RecordModel {
    RecordModel::Batch { operations: entries.map_values(|e: Entry| entry_model(e)), sequence, timestamp }
}

/// The record for one entry of a batch.
pub fn entry_record(e: &Entry) -> (r: WalRecord)
    ensures
        r@ == entry_model(*e),
        !(r is Batch),
        r@.flat_well_formed(),
{
    let key = crate::bytes::copy_bytes(e.key.data.as_slice());
    proof {
        vstd::std_specs::vec::axiom_spec_len(&key);
    }
    match &e.value {
        Some(v) => {
            let value = crate::bytes::copy_bytes(v.data.as_slice());
            proof {
                vstd::std_specs::vec::axiom_spec_len(&value);
            }
            WalRecord::Put { key, value, sequence: e.sequence, timestamp: e.timestamp }
        },
        None => match e.value_pointer {
            Some(p) => WalRecord::PutPointer {
                key,
                value_pointer: p,
                sequence: e.sequence,
                timestamp: e.timestamp,
            },
            None => WalRecord::Delete {
                key,
                sequence: e.sequence,
                timestamp: e.timestamp,
            },
        },
    }
}

/// The batch record for entries, with their order kept.
pub fn batch_record(entries: &[Entry], sequence: u64, timestamp: u64) -> (r: WalRecord)
    ensures
        r@ == batch_model(entries@, sequence, timestamp),
        r@.well_formed(),
{
    let mut operations: Vec<WalRecord> = Vec::new();
    let mut i: usize = 0;
    while i < entries.len()
        invariant
            0 <= i <= entries@.len(),
            operations@.len() == i,
            forall|j: int| 0 <= j < i ==> #[trigger] operations@[j]@ == entry_model(entries@[j]) && !(operations@[j] is Batch)
                && operations@[j]@.flat_well_formed(),
        decreases entries@.len() - i,
    {
        operations.push(entry_record(&entries[i]));
        i = i + 1;
    }
    let r = WalRecord::Batch { operations, sequence, timestamp };
    proof {
        let ops = operations@.map_values(|o: WalRecord| crate::wal_record::flat_view(o));
        assert forall|j: int| 0 <= j < ops.len() implies ops[j] == entry_model(entries@[j]) by {
            assert(operations@[j]@ == crate::wal_record::flat_view(operations@[j]));
        }
        assert(ops =~= entries@.map_values(|e: Entry| entry_model(e)));
        assert forall|j: int| 0 <= j < ops.len() implies #[trigger] ops[j].flat_well_formed() by {
            assert(operations@[j]@ == crate::wal_record::flat_view(operations@[j]));
        }
    }
    r
}

} // verus!

verus! {

/// What the background log writer does after a request.
#[derive(Debug)]
pub enum QueueAction {
    /// Nothing yet: the record waits for more.
    Queued,
    /// Append these records, in order, then force them to disk as the policy says.
    Flush(Vec<WalRecord>),
    /// Append these records, force them to disk, and stop.
    Stop(Vec<WalRecord>),
}

/// The bounded queue between writers and the background log writer, which appends
/// records in batches.
#[derive(Debug)]
pub struct WriteQueue {
    items: Vec<WalRecord>,
    capacity: usize,
    batch_size: usize,
    stopping: bool,
}

impl WriteQueue {
    /// The records waiting, in arrival order.
    pub closed spec fn spec_items(&self) -> Seq<RecordModel> {
        records_view(self.items@)
    }

    pub closed spec fn spec_capacity(&self) -> usize {
        self.capacity
    }

    pub closed spec fn spec_batch_size(&self) -> usize {
        self.batch_size
    }

    pub closed spec fn spec_stopping(&self) -> bool {
        self.stopping
    }

    /// An empty queue holding at most `capacity` records and flushing every
    /// `batch_size` of them.
    pub fn new(capacity: usize, batch_size: usize) -> (r: WriteQueue)
        ensures
            r.spec_items().len() == 0,
            r.spec_capacity() == capacity,
            r.spec_batch_size() == batch_size,
            !r.spec_stopping(),
    {
        let r = WriteQueue { items: Vec::new(), capacity, batch_size, stopping: false };
        assert(records_view(r.items@) =~= Seq::<RecordModel>::empty());
        r
    }

    fn take_all(&mut self) -> (r: Vec<WalRecord>)
        ensures
            records_view(r@) == old(self).spec_items(),
            final(self).spec_items().len() == 0,
            final(self).spec_capacity() == old(self).spec_capacity(),
            final(self).spec_batch_size() == old(self).spec_batch_size(),
            final(self).spec_stopping() == old(self).spec_stopping(),
    {
        let mut out: Vec<WalRecord> = Vec::new();
        core::mem::swap(&mut out, &mut self.items);
        assert(records_view(self.items@) =~= Seq::<RecordModel>::empty());
        out
    }

    /// Handles one request: a write is queued, and the queue flushed once it holds a
    /// batch; a sync flushes; a shutdown drains the queue and stops it. A write is
    /// refused when the queue is full or stopping.
    pub fn handle(&mut self, request: AsyncWriteRequest) -> (r: Result<QueueAction, Error>)
        ensures
            final(self).spec_capacity() == old(self).spec_capacity(),
            final(self).spec_batch_size() == old(self).spec_batch_size(),
            r is Err ==> r.unwrap_err() is Concurrency && final(self).spec_items() == old(self).spec_items()
                && final(self).spec_stopping() == old(self).spec_stopping(),
            match request {
                AsyncWriteRequest::Write(rec) => {
                    &&& (r is Err <==> old(self).spec_stopping() || old(self).spec_items().len() >= old(self).spec_capacity())
                    &&& r is Ok ==> {
                        let all = old(self).spec_items().push(rec@);
                        if all.len() >= old(self).spec_batch_size() {
                            r.unwrap() is Flush && records_view(r.unwrap()->Flush_0@) == all
                                && final(self).spec_items().len() == 0
                        } else {
                            r.unwrap() is Queued && final(self).spec_items() == all
                        }
                    }
                    &&& final(self).spec_stopping() == old(self).spec_stopping()
                },
                AsyncWriteRequest::Sync => {
                    &&& r is Ok && r.unwrap() is Flush
                    &&& records_view(r.unwrap()->Flush_0@) == old(self).spec_items()
                    &&& final(self).spec_items().len() == 0
                    &&& final(self).spec_stopping() == old(self).spec_stopping()
                },
                AsyncWriteRequest::Shutdown => {
                    &&& r is Ok && r.unwrap() is Stop
                    &&& records_view(r.unwrap()->Stop_0@) == old(self).spec_items()
                    &&& final(self).spec_items().len() == 0
                    &&& final(self).spec_stopping()
                },
            },
    {
        match request {
            AsyncWriteRequest::Write(rec) => {
                if self.stopping {
                    return Err(Error::Concurrency(String::from_str("shutdown in progress")));
                }
                if self.items.len() >= self.capacity {
                    return Err(Error::Concurrency(String::from_str("write queue full")));
                }
                let ghost before = self.items@;
                self.items.push(rec);
                proof {
                    assert(records_view(self.items@) =~= records_view(before).push(self.items@.last()@));
                }
                if self.items.len() >= self.batch_size {
                    Ok(QueueAction::Flush(self.take_all()))
                } else {
                    Ok(QueueAction::Queued)
                }
            },
            AsyncWriteRequest::Sync => Ok(QueueAction::Flush(self.take_all())),
            AsyncWriteRequest::Shutdown => {
                self.stopping = true;
                Ok(QueueAction::Stop(self.take_all()))
            },
        }
    }
}

} // verus!
