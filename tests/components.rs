use auradb::cache::UnifiedCache;
use auradb::compactor::{CompactionManager, CompactionTask, RlCompactionAgent};
use auradb::config::{
    CompactionStrategy, CompressionAlgorithm, Config, EvictionPolicy, MemtableImpl, ModelType, ValueLogConfig, WalConfig,
};
use auradb::error::Error;
use auradb::gc::{select_segments, GcManager, GcTask, SegmentUsage};
use auradb::index::{lookup, LearnedIndex};
use auradb::memtable::{create_memtable, Memtable};
use auradb::metrics::MetricsCollector;
use auradb::sst::{SstFile, SstManager, SstReader, SstWriter};
use auradb::storage::{Entry, Key, Value, ValuePointer};
use auradb::telemetry::TelemetryManager;
use auradb::vlog::{read_value_at, VlogHeader, VlogSegment, VlogWriter};

#[test]
fn test_cache_creation() {
    let cache = UnifiedCache::new(1024, EvictionPolicy::Lru);
    let stats = cache.stats();
    assert_eq!(stats.capacity, 1024);
}

#[test]
fn test_compaction_manager_creation() {
    let manager = CompactionManager::new();
    assert!(manager.get_pending_tasks().is_empty());
}

#[test]
fn test_rl_agent_creation() {
    let agent = RlCompactionAgent::new();
    assert!(matches!(agent.select_action(), CompactionStrategy::Leveled));
}

#[test]
fn test_gc_manager_creation() {
    let manager = GcManager::new();
    let stats = manager.stats();
    assert_eq!(stats.segments_processed, 0);
}

#[test]
fn test_learned_index_creation() {
    let index = LearnedIndex::new(ModelType::PiecewiseLinear);
    assert!(index.predict(b"test").is_ok());
}

#[test]
fn test_sst_manager_creation() {
    let manager = SstManager::new();
    assert_eq!(manager.total_size(), 0);
}

#[test]
fn test_vlog_header_validation() {
    let header = VlogHeader::new(CompressionAlgorithm::Lz4);
    assert!(header.validate());
}

#[test]
fn test_compression_decompression() {
    let data = b"Hello, World! This is a test string for compression testing.";
    let config = ValueLogConfig::default();
    let mut segment = VlogSegment::new(1, config.compression_algorithm, config.max_segment_size, 7);
    let pointer = segment.write_value(&Value::new(data.to_vec()), 7).unwrap();
    let decompressed = segment.read_value(&pointer).unwrap();
    assert_eq!(data, &decompressed.data[..]);
}

#[test]
fn test_vlog_writer_creation() {
    let writer = VlogWriter::new(ValueLogConfig::default());
    assert_eq!(writer.segments().len(), 4);
}

#[test]
fn test_btree_memtable_insert_get() {
    let mut memtable = Memtable::new(MemtableImpl::BTree, 1 << 20, 800);
    let key = Key::new(b"test_key".to_vec());
    let value = Value::new(b"test_value".to_vec());
    let entry = Entry::new(key.clone(), value, 1);

    memtable.insert(entry.clone());
    let retrieved = memtable.get(&key).unwrap();
    assert_eq!(retrieved.key, entry.key);
    assert_eq!(retrieved.value, entry.value);
}

#[test]
fn test_btree_memtable_delete() {
    let mut memtable = Memtable::new(MemtableImpl::BTree, 1 << 20, 800);
    let key = Key::new(b"test_key".to_vec());
    let value = Value::new(b"test_value".to_vec());
    let entry = Entry::new(key.clone(), value, 1);

    memtable.insert(entry);
    assert!(memtable.get(&key).is_some());

    memtable.delete(&key, 2);
    let retrieved = memtable.get(&key).unwrap();
    assert!(retrieved.is_delete());
}

#[test]
fn test_memtable_factory() {
    let memtable = create_memtable(MemtableImpl::BTree, 1024, 800);

    assert!(memtable.is_empty());
    assert_eq!(memtable.max_size(), 1024);
    assert_eq!(memtable.flush_threshold_permille(), 800);
}

#[test]
fn test_metrics_collector_creation() {
    let collector = MetricsCollector::new();
    let snapshot = collector.snapshot();
    assert!(snapshot.histograms.is_empty());
}

#[test]
fn test_telemetry_manager_creation() {
    let manager = TelemetryManager::new();
    let metrics = manager.get_metrics();
    assert_eq!(metrics.operation_count, 0);
}

#[test]
fn memtable_iterates_in_key_order_and_charges_bytes() {
    let mut m = Memtable::new(MemtableImpl::SkipList, 100, 500);
    m.insert(Entry::new(Key::new(b"b".to_vec()), Value::new(vec![1; 10]), 1));
    m.insert(Entry::new(Key::new(b"a".to_vec()), Value::new(vec![2; 20]), 2));
    m.insert(Entry::new(Key::new(b"c".to_vec()), Value::new(vec![3; 30]), 3));
    let keys: Vec<Vec<u8>> = m.iter().into_iter().map(|e| e.key.data).collect();
    assert_eq!(keys, vec![b"a".to_vec(), b"b".to_vec(), b"c".to_vec()]);
    assert_eq!(m.memory_usage(), 63);
    assert!(m.should_flush());
    assert!(!m.is_full());
    m.insert(Entry::new(Key::new(b"a".to_vec()), Value::new(vec![2; 5]), 4));
    assert_eq!(m.memory_usage(), 48);
    assert_eq!(m.len(), 3);
    let taken = m.take_entries();
    assert_eq!(taken.len(), 3);
    assert!(m.is_empty());
    assert_eq!(m.memory_usage(), 0);
}

#[test]
fn value_pointer_validity_and_end() {
    assert!(ValuePointer::new(1, 25, 10).is_valid());
    assert!(!ValuePointer::new(0, 25, 10).is_valid());
    assert!(!ValuePointer::new(1, 0, 10).is_valid());
    assert!(!ValuePointer::new(1, 25, 0).is_valid());
    assert_eq!(ValuePointer::with_checksum(1, 25, 10, 9).end_offset(), 35);
    assert!(Value::new(vec![0; 4]).is_large(4));
    assert!(!Value::new(vec![0; 3]).is_large(4));
}

#[test]
fn vlog_read_rejects_bad_pointer_and_corruption() {
    let mut segment = VlogSegment::new(3, CompressionAlgorithm::Uncompressed, 1 << 20, 1);
    let p = segment.write_value(&Value::new(b"payload".to_vec()), 1).unwrap();
    assert_eq!(p.segment_id, 3);
    assert_eq!(p.offset, 25);
    assert_eq!(p.length, 7);
    assert_eq!(p.checksum, Some(crc32fast::hash(b"payload")));
    let wrong_len = ValuePointer { length: 6, ..p };
    assert!(matches!(segment.read_value(&wrong_len), Err(Error::InvalidValuePointer(_))));
    let other_segment = ValuePointer { segment_id: 4, ..p };
    assert!(matches!(segment.read_value(&other_segment), Err(Error::InvalidValuePointer(_))));
    let mut bytes = segment.data().to_vec();
    let last = bytes.len() - 1;
    bytes[last] ^= 0xff;
    assert!(matches!(read_value_at(&bytes, &p), Err(Error::ValueLogCorruption(_))));
}

#[test]
fn vlog_writer_reads_back_every_pointer() {
    let mut config = ValueLogConfig::default();
    config.write_queues = 2;
    config.max_segment_size = 64;
    let mut w = VlogWriter::new(config);
    let mut pointers = Vec::new();
    for i in 0..6u8 {
        pointers.push(w.write_value_sync(&Value::new(vec![i; 30]), 5).unwrap());
    }
    for (i, p) in pointers.iter().enumerate() {
        assert_eq!(w.read_value(p).unwrap().data, vec![i as u8; 30]);
    }
    assert!(w.segments().len() > 2);
}

#[test]
fn cache_evicts_least_recently_used() {
    let mut cache = UnifiedCache::new(10, EvictionPolicy::Lru);
    cache.put(b"a".to_vec(), vec![1; 4]).unwrap();
    cache.put(b"b".to_vec(), vec![2; 4]).unwrap();
    assert_eq!(cache.get(b"a"), Some(vec![1; 4]));
    cache.put(b"c".to_vec(), vec![3; 4]).unwrap();
    assert_eq!(cache.get(b"b"), None);
    assert_eq!(cache.get(b"a"), Some(vec![1; 4]));
    assert_eq!(cache.get(b"c"), Some(vec![3; 4]));
    let stats = cache.stats();
    assert_eq!(stats.hits, 3);
    assert_eq!(stats.misses, 1);
    assert_eq!(stats.size, 8);
    assert!(matches!(cache.put(b"d".to_vec(), vec![0; 11]), Err(Error::Cache(_))));
}

#[test]
fn sst_blocks_round_trip_and_detect_corruption() {
    let mut w = SstWriter::new("sst_0_1.sst").unwrap();
    let b1 = w.write_block(b"first block").unwrap();
    let b2 = w.write_block(b"second").unwrap();
    assert_eq!(b1.offset, 0);
    assert_eq!(b2.offset, 11);
    assert_eq!(b2.checksum, crc32fast::hash(b"second"));
    w.add_entry(b"apple").unwrap();
    w.add_entry(b"kiwi").unwrap();
    assert!(matches!(w.add_entry(b"banana"), Err(Error::SstCorruption(_))));
    let file = w.finish().unwrap();
    assert_eq!(file.size, 17);
    assert_eq!(file.entry_count, 2);
    assert_eq!(file.smallest_key, b"apple".to_vec());
    assert_eq!(file.largest_key, b"kiwi".to_vec());
    let r = SstReader::new(w.bytes().to_vec()).unwrap();
    assert_eq!(r.read_block(&b2).unwrap(), b"second".to_vec());
    let mut bad = w.bytes().to_vec();
    bad[12] ^= 1;
    let r2 = SstReader::new(bad).unwrap();
    assert!(matches!(r2.read_block(&b2), Err(Error::SstCorruption(_))));
}

#[test]
fn sst_manager_sums_sizes_by_level() {
    let mut m = SstManager::new();
    let f = |level: u32, size: u64| SstFile {
        path: String::new(),
        size,
        level,
        entry_count: 0,
        smallest_key: vec![],
        largest_key: vec![],
    };
    m.add_file(f(0, 10)).unwrap();
    m.add_file(f(0, 5)).unwrap();
    m.add_file(f(2, 7)).unwrap();
    let g = |level: u32, lo: &[u8], hi: &[u8]| SstFile {
        path: String::new(),
        size: 1,
        level,
        entry_count: 1,
        smallest_key: lo.to_vec(),
        largest_key: hi.to_vec(),
    };
    m.add_file(g(1, b"m", b"p")).unwrap();
    m.add_file(g(1, b"a", b"c")).unwrap();
    assert!(matches!(m.add_file(g(1, b"b", b"n")), Err(Error::Compaction(_))));
    assert!(matches!(m.add_file(g(1, b"z", b"x")), Err(Error::Compaction(_))));
    let level1 = m.get_files_at_level(1);
    assert_eq!(level1[0].smallest_key, b"a".to_vec());
    assert_eq!(level1[1].smallest_key, b"m".to_vec());
    assert!(matches!(m.add_file(f(7, 1)), Err(Error::Compaction(_))));
    assert_eq!(m.get_files_at_level(0).len(), 2);
    assert_eq!(m.get_files_at_level(2)[0].size, 7);
    assert_eq!(m.total_size(), 24);
}

#[test]
fn compaction_queue_orders_by_priority() {
    let mut m = CompactionManager::new();
    let t = |id: u64, priority: u32| CompactionTask {
        id,
        source_level: 0,
        target_level: 1,
        input_files: vec![],
        output_file: String::new(),
        priority,
    };
    m.schedule_task(t(1, 1)).unwrap();
    m.schedule_task(t(2, 5)).unwrap();
    m.schedule_task(t(3, 1)).unwrap();
    let ids: Vec<u64> = m.get_pending_tasks().iter().map(|x| x.id).collect();
    assert_eq!(ids, vec![2, 1, 3]);
    let mut engine = auradb::api::AuraEngine::new(Config::default());
    m.run_compaction(&mut engine).unwrap();
    assert!(m.get_pending_tasks().is_empty());
    assert_eq!(m.completed_tasks(), 3);
    let mut agent = RlCompactionAgent::new();
    agent.set_policy(CompactionStrategy::Tiered);
    assert!(matches!(agent.select_action(), CompactionStrategy::Tiered));
}

#[test]
fn gc_selects_segments_below_threshold() {
    let usage = [
        SegmentUsage { segment_id: 1, live_bytes: 10, total_bytes: 100 },
        SegmentUsage { segment_id: 2, live_bytes: 50, total_bytes: 100 },
        SegmentUsage { segment_id: 3, live_bytes: 0, total_bytes: 0 },
    ];
    assert_eq!(select_segments(&usage, 500), vec![1]);
    let mut engine = auradb::api::AuraEngine::new(Config::default());
    engine.put(Key::new(b"big".to_vec()), Value::new(vec![1; 2048])).unwrap();
    let mut m = GcManager::new();
    let mut referenced = 0;
    for id in 1..=4u64 {
        if engine.segment_referenced(id) {
            referenced += 1;
        }
        m.schedule_task(GcTask { id, segment_id: id, priority: 0 }).unwrap();
    }
    assert_eq!(referenced, 1);
    let free = m.run_gc(&engine).unwrap();
    assert_eq!(free.len(), 3);
    assert_eq!(m.stats().segments_processed, 4);
    engine.delete(&Key::new(b"big".to_vec())).unwrap();
    m.schedule_task(GcTask { id: 9, segment_id: 1, priority: 0 }).unwrap();
    m.schedule_task(GcTask { id: 10, segment_id: 2, priority: 0 }).unwrap();
    assert_eq!(m.run_gc(&engine).unwrap().len(), 2);
}

#[test]
fn learned_index_predicts_and_lookup_falls_back() {
    let keys = vec![b"b".to_vec(), b"d".to_vec(), b"f".to_vec()];
    let mut index = LearnedIndex::new(ModelType::PiecewiseLinear);
    index.train(&keys, &[10, 20, 30]).unwrap();
    assert_eq!(index.predict(b"e").unwrap(), 20);
    assert_eq!(index.predict(b"a").unwrap(), 0);
    assert_eq!(lookup(&keys, b"f", 0, 0), Some(2));
    assert_eq!(lookup(&keys, b"c", 1, 1), None);
    let unsorted = vec![b"b".to_vec(), b"a".to_vec()];
    assert!(matches!(index.train(&unsorted, &[1, 2]), Err(Error::LearnedIndex(_))));
    assert!(matches!(index.train(&keys, &[1]), Err(Error::LearnedIndex(_))));
}

#[test]
fn metrics_and_telemetry_count() {
    let mut c = MetricsCollector::new();
    c.increment_counter("puts").unwrap();
    c.increment_counter("puts").unwrap();
    c.increment_counter("gets").unwrap();
    c.record_histogram("latency", 5).unwrap();
    c.record_histogram("latency", 9).unwrap();
    let s = c.snapshot();
    assert_eq!(s.counters.len(), 2);
    assert_eq!(s.counters[0].value, 2);
    assert_eq!(s.histograms[0].count, 2);
    assert_eq!(s.histograms[0].min, 5);
    assert_eq!(s.histograms[0].max, 9);
    let mut t = TelemetryManager::new();
    t.record_metric("op", 10).unwrap();
    t.record_metric("op", 20).unwrap();
    assert_eq!(t.get_metrics().avg_latency, 15);
}

#[test]
fn learned_index_validation_counts_exact_predictions() {
    let keys = vec![b"b".to_vec(), b"d".to_vec()];
    let mut index = LearnedIndex::new(ModelType::Rmi);
    index.train(&keys, &[1, 2]).unwrap();
    assert_eq!(index.validate(&[b"b".to_vec(), b"c".to_vec()], &[1, 5]).unwrap(), 500);
    assert_eq!(index.validate(&[], &[]).unwrap(), 0);
    assert!(matches!(index.validate(&[b"b".to_vec()], &[]), Err(Error::LearnedIndex(_))));
}

#[test]
fn config_builders_and_validation() {
    let c = Config::new().with_db_path(String::from("x")).with_wal(WalConfig { max_file_size: 0, ..Default::default() });
    assert_eq!(c.db_path, "x");
    assert!(c.validate().is_err());
    assert!(Config::new().validate().is_ok());
}

#[test]
fn vlog_queue_flushes_batches_and_stops() {
    use_vlog_queue();
}

fn use_vlog_queue() {
    let mut q = auradb::vlog::VlogQueue::new(2);
    let v = |b: u8| auradb::vlog::VlogRequest::Write(Value::new(vec![b]));
    assert!(matches!(q.handle(v(1)), Ok(auradb::vlog::VlogAction::Queued)));
    match q.handle(v(2)) {
        Ok(auradb::vlog::VlogAction::Flush(values)) => assert_eq!(values.len(), 2),
        _ => panic!("Unexpected action"),
    }
    q.handle(v(3)).unwrap();
    match q.handle(auradb::vlog::VlogRequest::Shutdown) {
        Ok(auradb::vlog::VlogAction::Stop(values)) => assert_eq!(values[0].data, vec![3]),
        _ => panic!("Unexpected action"),
    }
    assert!(matches!(q.handle(v(4)), Err(Error::Concurrency(_))));
}
