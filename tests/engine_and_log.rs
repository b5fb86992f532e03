use auradb::api::AuraEngine;
use auradb::config::{Config, WalConfig, WalSyncPolicy};
use auradb::engine::{create_engine, AdvancedEngineBuilder, EngineBuilder};
use auradb::error::Error;
use auradb::storage::{Batch, Entry, Key, Range, Value};
use auradb::wal::{read_frames, recover_file, AsyncWriteRequest, QueueAction, WalHeader, WalWriter, WriteQueue, WAL_HEADER_LEN};
use auradb::wal_record::{decode_record, encode_record, WalRecord};

fn engine() -> AuraEngine {
    AuraEngine::new(Config::default())
}

fn key(s: &str) -> Key {
    Key::new(s.as_bytes().to_vec())
}

fn value(s: &str) -> Value {
    Value::new(s.as_bytes().to_vec())
}

#[test]
fn test_wal_record_serialization() {
    let record = WalRecord::Put {
        key: b"test_key".to_vec(),
        value: b"test_value".to_vec(),
        sequence: 1,
        timestamp: 1234567890,
    };

    let serialized = encode_record(&record);
    let deserialized: WalRecord = decode_record(&serialized).unwrap();

    match deserialized {
        WalRecord::Put { key, value, sequence, timestamp } => {
            assert_eq!(key, b"test_key");
            assert_eq!(value, b"test_value");
            assert_eq!(sequence, 1);
            assert_eq!(timestamp, 1234567890);
        }
        _ => panic!("Unexpected record type"),
    }
}

#[test]
fn test_wal_writer_creation() {
    let config = WalConfig { wal_path: String::from("wal"), ..Default::default() };
    let writer = WalWriter::new(config);
    assert_eq!(writer.current_sequence(), 0);
}

#[test]
fn test_advanced_builder() {
    let engine = AdvancedEngineBuilder::new().with_db_path(String::from("db")).build();
    assert!(engine.is_ok());
    let mut bad = Config::default();
    bad.wal.max_file_size = 0;
    let r = AdvancedEngineBuilder::new().with_wal_config(bad.wal).build();
    assert!(matches!(r, Err(Error::Config(_))));
    assert!(EngineBuilder::new().path(String::from("db")).build().is_ok());
}

#[test]
fn put_then_get_returns_value() {
    let mut e = engine();
    e.put(key("k"), value("v")).unwrap();
    assert_eq!(e.get(&key("k")).unwrap().unwrap().data, b"v".to_vec());
    assert_eq!(e.get(&key("other")).unwrap(), None);
}

#[test]
fn put_delete_get_returns_none() {
    let mut e = engine();
    e.put(key("k"), value("v")).unwrap();
    e.delete(&key("k")).unwrap();
    assert_eq!(e.get(&key("k")).unwrap(), None);
}

#[test]
fn batch_of_two_puts_is_visible() {
    let mut e = engine();
    let mut batch = Batch::new();
    batch.add(Entry::new(key("k1"), value("v1"), 0));
    batch.add(Entry::new(key("k2"), value("v2"), 0));
    e.write_batch(&batch).unwrap();
    assert_eq!(e.get(&key("k1")).unwrap().unwrap().data, b"v1".to_vec());
    assert_eq!(e.get(&key("k2")).unwrap().unwrap().data, b"v2".to_vec());
    let appends = e.take_pending();
    assert_eq!(appends.len(), 1);
}

#[test]
fn batch_with_empty_key_is_rejected_whole() {
    let mut e = engine();
    let mut batch = Batch::new();
    batch.add(Entry::new(key("k1"), value("v1"), 0));
    batch.add(Entry::new(key(""), value("v2"), 0));
    assert!(e.write_batch(&batch).is_err());
    assert_eq!(e.get(&key("k1")).unwrap(), None);
}

#[test]
fn torn_batch_frame_replays_nothing() {
    let mut w = WalWriter::new(WalConfig::default());
    let entries = vec![Entry::new(key("k1"), value("v1"), 1), Entry::new(key("k2"), value("v2"), 2)];
    let first = w.write_record(&WalRecord::Delete { key: b"x".to_vec(), sequence: 0, timestamp: 0 }, 1).unwrap();
    let batch = w.write_batch(&entries, 2).unwrap();
    let mut bytes = first.frame.clone();
    bytes.extend_from_slice(&batch.frame[..batch.frame.len() - 1]);
    assert_eq!(read_frames(&bytes, 0).len(), 1);
    bytes.push(*batch.frame.last().unwrap());
    let records = read_frames(&bytes, 0);
    assert_eq!(records.len(), 2);
    match &records[1] {
        WalRecord::Batch { operations, .. } => assert_eq!(operations.len(), 2),
        _ => panic!("Unexpected record type"),
    }
}

#[test]
fn value_below_threshold_stays_inline_and_at_threshold_separates() {
    let mut e = engine();
    e.put(key("small"), Value::new(vec![7; 1023])).unwrap();
    e.put(key("large"), Value::new(vec![8; 1024])).unwrap();
    assert_eq!(e.is_separated(&key("small")), Some(false));
    assert_eq!(e.is_separated(&key("large")), Some(true));
    assert_eq!(e.get(&key("large")).unwrap().unwrap().data, vec![8; 1024]);
}

#[test]
fn wal_rotates_once_size_reaches_limit() {
    let record = WalRecord::Delete { key: b"k".to_vec(), sequence: 0, timestamp: 0 };
    let frame_len = 4 + encode_record(&record).len() as u64;
    let config = WalConfig { max_file_size: WAL_HEADER_LEN as u64 + frame_len, ..Default::default() };
    let mut w = WalWriter::new(config);
    let a = w.write_record(&record, 1).unwrap();
    assert!(a.new_file.is_some());
    let b = w.write_record(&record, 2).unwrap();
    assert!(b.new_file.is_some());
    let config2 = WalConfig { max_file_size: WAL_HEADER_LEN as u64 + frame_len + 1, ..Default::default() };
    let mut w2 = WalWriter::new(config2);
    w2.write_record(&record, 1).unwrap();
    assert!(w2.write_record(&record, 2).unwrap().new_file.is_none());
}

#[test]
fn empty_or_inverted_scan_is_empty() {
    let mut e = engine();
    e.put(key("m"), value("1")).unwrap();
    assert!(e.scan(&Range::new(key("m"), key("m"))).unwrap().is_empty());
    assert!(e.scan(&Range::new(key("z"), key("a"))).unwrap().is_empty());
}

#[test]
fn failed_write_leaves_view_unchanged() {
    let mut e = engine();
    e.put(key("a"), value("1")).unwrap();
    assert!(e.put(key(""), value("2")).is_err());
    e.close().unwrap();
    assert!(matches!(e.put(key("b"), value("2")), Err(Error::Concurrency(_))));
    assert_eq!(e.get(&key("b")).unwrap(), None);
    assert!(!e.health_check().healthy);
}

#[test]
fn scenario_name_and_version() {
    let mut e = engine();
    e.put_str("name", "AuraDB").unwrap();
    e.put_str("version", "0.1").unwrap();
    assert_eq!(e.get_str("name").unwrap(), Some(String::from("AuraDB")));
    let pairs = e.scan_str("a", "z").unwrap();
    assert_eq!(
        pairs,
        vec![(String::from("name"), String::from("AuraDB")), (String::from("version"), String::from("0.1"))]
    );
}

#[test]
fn scenario_one_mebibyte_value_is_separated() {
    let mut e = engine();
    let big: Vec<u8> = (0..1024 * 1024).map(|i| (i % 251) as u8).collect();
    e.put(key("big"), Value::new(big.clone())).unwrap();
    assert_eq!(e.get(&key("big")).unwrap().unwrap().data, big);
    let appends = e.take_pending();
    let wal_bytes: usize = WAL_HEADER_LEN + appends.iter().map(|a| a.frame.len()).sum::<usize>();
    assert!(wal_bytes < 2048);
    let holding: Vec<usize> = e.vlog().segments().iter().map(|s| s.data().len()).filter(|n| *n > 1024 * 1024).collect();
    assert_eq!(holding.len(), 1);
}

#[test]
fn scenario_crash_keeps_exactly_acknowledged_writes() {
    let mut e = engine();
    let mut log = WalHeader::created(1).to_bytes();
    for i in 0..10_000u32 {
        e.put(Key::new(format!("key{:05}", i).into_bytes()), Value::new(vec![(i % 256) as u8; 1024])).unwrap();
        for a in e.take_pending() {
            if i < 5_000 {
                log.extend_from_slice(&a.frame);
            } else if i == 5_000 {
                log.extend_from_slice(&a.frame[..a.frame.len() / 2]);
            }
        }
    }
    let records = recover_file(&log);
    assert_eq!(records.len(), 5_000);
    let segments: Vec<Vec<u8>> = e.vlog().segments().iter().map(|s| s.data().to_vec()).collect();
    let recovered = AuraEngine::recover(Config::default(), segments, &records).unwrap();
    assert_eq!(recovered.get(&Key::new(b"key04999".to_vec())).unwrap().unwrap().data, vec![(4999 % 256) as u8; 1024]);
    assert_eq!(recovered.get(&Key::new(b"key05000".to_vec())).unwrap(), None);
    assert!(recovered.next_sequence() > 5_000);
}

#[test]
fn scenario_compaction_keeps_one_entry_with_last_value() {
    let mut e = engine();
    for i in 0..10u8 {
        e.put(key("k"), Value::new(vec![i])).unwrap();
        e.flush();
    }
    assert!(e.table_count() > 1);
    e.compact().unwrap();
    assert_eq!(e.table_count(), 1);
    assert_eq!(e.tables_holding(&key("k")), 1);
    assert_eq!(e.get(&key("k")).unwrap().unwrap().data, vec![9]);
}

#[test]
fn scenario_snapshot_sees_first_hundred() {
    let mut e = engine();
    for i in 0..100 {
        e.put(Key::new(format!("a{:03}", i).into_bytes()), value("x")).unwrap();
    }
    let snap = e.snapshot().unwrap();
    for i in 0..100 {
        e.put(Key::new(format!("b{:03}", i).into_bytes()), value("y")).unwrap();
    }
    assert_eq!(snap.len(), 100);
    assert!(snap.get(&Key::new(b"b000".to_vec())).is_none());
    assert_eq!(snap.get(&Key::new(b"a042".to_vec())).unwrap().data, b"x".to_vec());
    assert_eq!(e.snapshot().unwrap().len(), 200);
}

#[test]
fn scenario_every_write_sync_survives_kill() {
    let mut config = Config::default();
    config.wal.sync_policy = WalSyncPolicy::EveryWrite;
    let mut e = AuraEngine::new(config);
    let mut log = WalHeader::created(3).to_bytes();
    for i in 0..50u8 {
        e.put(Key::new(vec![b'k', i]), Value::new(vec![i])).unwrap();
        for a in e.take_pending() {
            assert!(a.sync);
            log.extend_from_slice(&a.frame);
        }
    }
    let records = recover_file(&log);
    let recovered = AuraEngine::recover(Config::default(), vec![], &records).unwrap();
    for i in 0..50u8 {
        assert_eq!(recovered.get(&Key::new(vec![b'k', i])).unwrap().unwrap().data, vec![i]);
    }
}

#[test]
fn damaged_header_skips_file() {
    let mut log = WalHeader::created(3).to_bytes();
    log[20] ^= 1;
    let frame = WalWriter::new(WalConfig::default())
        .write_record(&WalRecord::Delete { key: b"k".to_vec(), sequence: 0, timestamp: 0 }, 1)
        .unwrap()
        .frame;
    log.extend_from_slice(&frame);
    assert!(recover_file(&log).is_empty());
    assert!(!WalHeader::from_bytes(&log).unwrap().validate());
    assert!(WalHeader::new().validate());
    assert_ne!(WalHeader::created(1).checksum, WalHeader::created(2).checksum);
}

#[test]
fn pointer_record_round_trips() {
    let record = WalRecord::PutPointer {
        key: b"k".to_vec(),
        value_pointer: auradb::storage::ValuePointer::with_checksum(2, 25, 9, 77),
        sequence: 4,
        timestamp: 5,
    };
    match decode_record(&encode_record(&record)).unwrap() {
        WalRecord::PutPointer { value_pointer, sequence, .. } => {
            assert_eq!(value_pointer.checksum, Some(77));
            assert_eq!(value_pointer.offset, 25);
            assert_eq!(sequence, 4);
        }
        _ => panic!("Unexpected record type"),
    }
    assert!(decode_record(&[9, 0, 0, 0]).is_none());
}

#[test]
fn scan_honours_limit_and_bounds() {
    let mut e = create_engine(String::from("db")).unwrap();
    for k in ["a", "b", "c", "d"] {
        e.put(key(k), value(k)).unwrap();
    }
    let r = e.scan(&Range::new(key("b"), key("d")).with_limit(1)).unwrap();
    assert_eq!(r.len(), 1);
    assert_eq!(r[0].0.data, b"b".to_vec());
    let all = e.scan(&Range::new(key("b"), key("d"))).unwrap();
    assert_eq!(all.len(), 2);
    assert_eq!(e.get_bytes(b"c").unwrap(), Some(b"c".to_vec()));
    e.write_pairs(&[(b"x".to_vec(), b"1".to_vec())]).unwrap();
    assert_eq!(e.get_bytes(b"x").unwrap(), Some(b"1".to_vec()));
}

#[test]
fn entries_carry_a_clock_timestamp_and_config_counts_cpus() {
    let e = Entry::new(key("k"), value("v"), 1);
    assert!(e.timestamp > 0);
    assert!(auradb::config::PerformanceConfig::default().worker_threads >= 1);
}

#[test]
fn write_queue_batches_and_refuses_when_full() {
    let rec = |s: u64| WalRecord::Delete { key: b"k".to_vec(), sequence: s, timestamp: 0 };
    let mut q = WriteQueue::new(2, 3);
    assert!(matches!(q.handle(AsyncWriteRequest::Write(rec(1))), Ok(QueueAction::Queued)));
    assert!(matches!(q.handle(AsyncWriteRequest::Write(rec(2))), Ok(QueueAction::Queued)));
    assert!(matches!(q.handle(AsyncWriteRequest::Write(rec(3))), Err(Error::Concurrency(_))));
    match q.handle(AsyncWriteRequest::Sync) {
        Ok(QueueAction::Flush(v)) => assert_eq!(v.len(), 2),
        _ => panic!("Unexpected action"),
    }
    let mut q2 = WriteQueue::new(10, 2);
    q2.handle(AsyncWriteRequest::Write(rec(1))).unwrap();
    assert!(matches!(q2.handle(AsyncWriteRequest::Write(rec(2))), Ok(QueueAction::Flush(ref v)) if v.len() == 2));
    q2.handle(AsyncWriteRequest::Write(rec(3))).unwrap();
    assert!(matches!(q2.handle(AsyncWriteRequest::Shutdown), Ok(QueueAction::Stop(ref v)) if v.len() == 1));
    assert!(matches!(q2.handle(AsyncWriteRequest::Write(rec(4))), Err(Error::Concurrency(_))));
}

#[test]
fn later_write_wins_and_sequences_increase() {
    let mut e = engine();
    let s0 = e.next_sequence();
    e.put(key("k"), value("old")).unwrap();
    e.put(key("k"), value("new")).unwrap();
    assert_eq!(e.next_sequence(), s0 + 2);
    assert_eq!(e.get(&key("k")).unwrap().unwrap().data, b"new".to_vec());
}

#[test]
fn sync_policy_every_n_writes() {
    let config = WalConfig { sync_policy: WalSyncPolicy::EveryNWrites(2), ..Default::default() };
    let mut w = WalWriter::new(config);
    let rec = WalRecord::Delete { key: b"k".to_vec(), sequence: 0, timestamp: 0 };
    assert!(!w.write_record(&rec, 1).unwrap().sync);
    assert!(w.write_record(&rec, 1).unwrap().sync);
    let manual = WalConfig { sync_policy: WalSyncPolicy::Manual, ..Default::default() };
    assert!(!WalWriter::new(manual).write_record(&rec, 1).unwrap().sync);
}

#[test]
fn acknowledged_writes_hand_out_their_frames() {
    let mut e = engine();
    e.put(key("a"), value("1")).unwrap();
    e.delete(&key("a")).unwrap();
    let mut batch = Batch::new();
    batch.add(Entry::new(key("b"), value("2"), 0));
    e.write_batch(&batch).unwrap();
    let appends = e.take_pending();
    assert_eq!(appends.len(), 3);
    assert!(appends.iter().all(|a| a.sync));
    assert!(e.take_pending().is_empty());
    let mut log = WalHeader::created(1).to_bytes();
    for a in &appends {
        log.extend_from_slice(&a.frame);
    }
    let records = recover_file(&log);
    assert!(matches!(records[0], WalRecord::Put { .. }));
    assert!(matches!(records[1], WalRecord::Delete { .. }));
    assert!(matches!(records[2], WalRecord::Batch { .. }));
    let recovered = AuraEngine::recover(Config::default(), vec![], &records).unwrap();
    assert_eq!(recovered.get(&key("a")).unwrap(), None);
    assert_eq!(recovered.get(&key("b")).unwrap().unwrap().data, b"2".to_vec());
}

#[test]
fn compaction_manager_merges_to_one_table() {
    let mut e = engine();
    for i in 0..10u8 {
        e.put(key("k"), Value::new(vec![i])).unwrap();
        e.flush();
    }
    let mut m = auradb::compactor::CompactionManager::new();
    m.run_compaction(&mut e).unwrap();
    assert_eq!(e.table_count(), 1);
    assert_eq!(e.tables_holding(&key("k")), 1);
    assert_eq!(e.get(&key("k")).unwrap().unwrap().data, vec![9]);
}

#[test]
fn batch_record_flags_bad_nesting() {
    let inner = WalRecord::Delete { key: b"k".to_vec(), sequence: 0, timestamp: 0 };
    let flat = WalRecord::Batch { operations: vec![inner], sequence: 1, timestamp: 0 };
    assert!(flat.is_well_formed());
    let nested = WalRecord::Batch { operations: vec![flat], sequence: 2, timestamp: 0 };
    assert!(!nested.is_well_formed());
}
