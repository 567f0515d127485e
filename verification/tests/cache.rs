//! End-to-end exercises of the cache engine against a simulated file
//! store: a map from relative paths to file contents, playing the role of
//! the cache directory.

use std::collections::HashMap;

use simple_disk_cache::config::CacheConfig;
use simple_disk_cache::config::CacheStrategy;
use simple_disk_cache::config::DataEncoding;
use simple_disk_cache::CacheError;
use simple_disk_cache::PutOutcome;
use simple_disk_cache::SimpleCache;

/// The simulated cache directory.
type Store = HashMap<String, Vec<u8>>;

fn ledger_file(encoding: &DataEncoding) -> String {
    encoding.filename("cache_data")
}

/// Perform the filesystem effects of one `put` on the store.
fn apply_put(store: &mut Store, ledger: &str, out: PutOutcome) {
    store.insert(out.data_path, out.data_contents);
    for p in out.evicted_paths {
        store.remove(&p);
    }
    store.insert(ledger.to_string(), out.ledger_contents);
}

fn put_value(cache: &mut SimpleCache, store: &mut Store, ledger: &str, key: u32, value: u64) {
    let out = cache.put(key, value).expect("put failed");
    apply_put(store, ledger, out);
}

fn get_value(cache: &mut SimpleCache, store: &mut Store, ledger: &str, key: u32) -> Option<u64> {
    let path = match cache.lookup(key) {
        Some(p) => p,
        None => return None,
    };
    let loaded = match store.get(&path) {
        Some(b) => Ok(b.clone()),
        None => Err(std::io::Error::new(std::io::ErrorKind::NotFound, "no such file")),
    };
    match cache.get(key, loaded) {
        Ok(Some(g)) => {
            store.insert(ledger.to_string(), g.ledger_contents);
            Some(g.value)
        }
        Ok(None) => None,
        Err(e) => panic!("get failed: {:?}", e),
    }
}

fn config_with(encoding: DataEncoding, max_bytes: u64, subdirs_per_level: u32) -> CacheConfig {
    CacheConfig { max_bytes, encoding, strategy: CacheStrategy::LRU, subdirs_per_level }
}

fn basic_usage(encoding: DataEncoding) {
    let config = config_with(encoding, 10 * 1024 * 1024, 3);
    let ledger = ledger_file(&config.encoding);
    let mut store: Store = HashMap::new();
    let mut cache = SimpleCache::initialize(config, None).expect("failed initializing cache.");

    for k in 5..41 {
        let v = (k * 2) as u64;
        put_value(&mut cache, &mut store, &ledger, k, v);
    }

    for k in 5..41 {
        let v_expected = (k * 2) as u64;
        let v = get_value(&mut cache, &mut store, &ledger, k);
        assert_eq!(v, Some(v_expected));
    }
}

#[test]
fn basic_usage_json() {
    basic_usage(DataEncoding::Json)
}

#[test]
fn basic_usage_bincode() {
    basic_usage(DataEncoding::Bincode)
}

/// Tests writing the cache and then restoring it again.
fn restore_cache(encoding: DataEncoding) {
    let config1 = config_with(encoding, 10 * 1024 * 1024, 3);
    let config2 = config1.clone();
    let ledger = ledger_file(&config1.encoding);
    let mut store: Store = HashMap::new();
    let mut cache = SimpleCache::initialize(config1, None).expect("failed initializing cache.");

    for k in 5..41 {
        let v = (k * 2) as u64;
        put_value(&mut cache, &mut store, &ledger, k, v);
    }

    drop(cache);
    let stored = store.get(&ledger).cloned();
    let mut cache = SimpleCache::initialize(config2, stored).expect("failed initializing cache.");

    for k in 5..41 {
        let v_expected = (k * 2) as u64;
        let v = get_value(&mut cache, &mut store, &ledger, k);
        assert_eq!(v, Some(v_expected));
    }
}

#[test]
fn restore_cache_json() {
    restore_cache(DataEncoding::Json)
}

#[test]
fn restore_cache_bincode() {
    restore_cache(DataEncoding::Bincode)
}

/// A bincode-encoded u64 payload occupies exactly 8 bytes, so a budget of
/// 24 bytes holds exactly three entries.
#[test]
fn eviction_is_oldest_first() {
    let config = config_with(DataEncoding::Bincode, 24, 3);
    let ledger = ledger_file(&config.encoding);
    let mut store: Store = HashMap::new();
    let mut cache = SimpleCache::initialize(config, None).expect("init");

    for k in 1..4 {
        let out = cache.put(k, 100 + k as u64).expect("put");
        assert!(out.evicted_paths.is_empty());
        apply_put(&mut store, &ledger, out);
    }
    assert_eq!(cache.current_size(), 24);
    assert_eq!(cache.entry_count(), 3);

    // the fourth insert pushes the total to 32, so exactly the least
    // recently used entry (key 1, id 0) must go
    let out = cache.put(4, 104).expect("put");
    assert_eq!(out.evicted_paths, vec!["0/0/data_0.bincode".to_string()]);
    apply_put(&mut store, &ledger, out);
    assert_eq!(cache.current_size(), 24);
    assert!(!store.contains_key("0/0/data_0.bincode"));

    assert_eq!(get_value(&mut cache, &mut store, &ledger, 1), None);
    assert_eq!(get_value(&mut cache, &mut store, &ledger, 2), Some(102));
    assert_eq!(get_value(&mut cache, &mut store, &ledger, 3), Some(103));
    assert_eq!(get_value(&mut cache, &mut store, &ledger, 4), Some(104));
}

/// A budget forcing several evictions at once removes the head entries in
/// queue order.
#[test]
fn eviction_removes_several_in_order() {
    let config = config_with(DataEncoding::Bincode, 31, 3);
    let ledger = ledger_file(&config.encoding);
    let mut store: Store = HashMap::new();
    let mut cache = SimpleCache::initialize(config, None).expect("init");

    for k in 1..4 {
        put_value(&mut cache, &mut store, &ledger, k, k as u64);
    }
    // 24 bytes held; a fourth 8-byte entry totals 32 > 31, and after key 1
    // leaves, 24 <= 31 holds again; then two more: 32 > 31 again
    let out = cache.put(4, 4).expect("put");
    assert_eq!(out.evicted_paths, vec!["0/0/data_0.bincode".to_string()]);
    apply_put(&mut store, &ledger, out);
    let out = cache.put(5, 5).expect("put");
    assert_eq!(out.evicted_paths, vec!["1/0/data_1.bincode".to_string()]);
    apply_put(&mut store, &ledger, out);
    assert_eq!(cache.entry_count(), 3);
}

/// Reading a key via `get` moves it to the most recently used position,
/// so it outlives keys not accessed since.
#[test]
fn get_refreshes_recency() {
    let config = config_with(DataEncoding::Bincode, 24, 3);
    let ledger = ledger_file(&config.encoding);
    let mut store: Store = HashMap::new();
    let mut cache = SimpleCache::initialize(config, None).expect("init");

    for k in 1..4 {
        put_value(&mut cache, &mut store, &ledger, k, 100 + k as u64);
    }
    // touch key 1: the queue order becomes 2, 3, 1
    assert_eq!(get_value(&mut cache, &mut store, &ledger, 1), Some(101));

    // pressure now evicts key 2, not key 1
    let out = cache.put(4, 104).expect("put");
    assert_eq!(out.evicted_paths, vec!["1/0/data_1.bincode".to_string()]);
    apply_put(&mut store, &ledger, out);

    assert_eq!(get_value(&mut cache, &mut store, &ledger, 2), None);
    assert_eq!(get_value(&mut cache, &mut store, &ledger, 1), Some(101));
}

/// Overwriting a key replaces its value in place, adjusts the running
/// size by the size delta, and creates no second entry.
#[test]
fn overwrite_adjusts_size_by_delta() {
    let config = config_with(DataEncoding::Json, 1000, 3);
    let ledger = ledger_file(&config.encoding);
    let mut store: Store = HashMap::new();
    let mut cache = SimpleCache::initialize(config, None).expect("init");

    // "5" is one byte of JSON, "123456" six
    put_value(&mut cache, &mut store, &ledger, 7, 5);
    assert_eq!(cache.current_size(), 1);
    put_value(&mut cache, &mut store, &ledger, 9, 88);
    assert_eq!(cache.current_size(), 3);

    let out = cache.put(7, 123456).expect("put");
    // the same id, hence the same file, is reused
    assert_eq!(out.data_path, "0/0/data_0.json".to_string());
    apply_put(&mut store, &ledger, out);
    assert_eq!(cache.current_size(), 8);
    assert_eq!(cache.entry_count(), 2);
    assert_eq!(get_value(&mut cache, &mut store, &ledger, 7), Some(123456));

    // shrinking the value shrinks the total accordingly
    put_value(&mut cache, &mut store, &ledger, 7, 1);
    assert_eq!(cache.current_size(), 3);
}

/// The sharded layout: `subdir_1 = id % s`, `subdir_2 = (id / s) % s`.
#[test]
fn sharded_paths_follow_id() {
    let config = config_with(DataEncoding::Bincode, 1 << 20, 3);
    let ledger = ledger_file(&config.encoding);
    let mut store: Store = HashMap::new();
    let mut cache = SimpleCache::initialize(config, None).expect("init");

    let mut paths: Vec<String> = Vec::new();
    for k in 0..8 {
        let out = cache.put(k, k as u64).expect("put");
        paths.push(out.data_path.clone());
        apply_put(&mut store, &ledger, out);
    }
    assert_eq!(paths[0], "0/0/data_0.bincode");
    assert_eq!(paths[1], "1/0/data_1.bincode");
    assert_eq!(paths[2], "2/0/data_2.bincode");
    assert_eq!(paths[3], "0/1/data_3.bincode");
    assert_eq!(paths[4], "1/1/data_4.bincode");
    assert_eq!(paths[5], "2/1/data_5.bincode");
    assert_eq!(paths[6], "0/2/data_6.bincode");
    assert_eq!(paths[7], "1/2/data_7.bincode");
}

/// One subdirectory per level collapses both shard levels to `0/0`.
#[test]
fn single_subdir_collapses_layout() {
    let config = config_with(DataEncoding::Json, 1000, 1);
    let ledger = ledger_file(&config.encoding);
    let mut store: Store = HashMap::new();
    let mut cache = SimpleCache::initialize(config, None).expect("init");

    for k in 0..4 {
        let out = cache.put(k, k as u64).expect("put");
        assert_eq!(out.data_path, format!("0/0/data_{}.json", k));
        apply_put(&mut store, &ledger, out);
    }
}

/// A budget smaller than a single entry evicts that entry immediately
/// after its own insertion: the cache stays consistent at capacity zero.
#[test]
fn budget_below_entry_size_evicts_immediately() {
    let config = config_with(DataEncoding::Bincode, 7, 3);
    let ledger = ledger_file(&config.encoding);
    let mut store: Store = HashMap::new();
    let mut cache = SimpleCache::initialize(config, None).expect("init");

    let out = cache.put(1, 11).expect("put");
    assert_eq!(out.evicted_paths, vec![out.data_path.clone()]);
    apply_put(&mut store, &ledger, out);
    assert_eq!(cache.entry_count(), 0);
    assert_eq!(cache.current_size(), 0);
    assert_eq!(get_value(&mut cache, &mut store, &ledger, 1), None);
}

/// The exact bytes of both encodings, for one value: JSON is the decimal
/// text, bincode the fixed-width little-endian form.
#[test]
fn payload_bytes_are_exact() {
    let mut cache =
        SimpleCache::initialize(config_with(DataEncoding::Json, 1000, 3), None).expect("init");
    let out = cache.put(1, 10).expect("put");
    assert_eq!(out.data_contents, b"10".to_vec());

    let mut cache =
        SimpleCache::initialize(config_with(DataEncoding::Bincode, 1000, 3), None).expect("init");
    let out = cache.put(1, 10).expect("put");
    assert_eq!(out.data_contents, vec![10, 0, 0, 0, 0, 0, 0, 0]);
}

/// The persisted ledger under the JSON encoding is the plain triple
/// `[current_size, counter, [[key, size, id], ...]]`.
#[test]
fn ledger_bytes_are_exact_json() {
    let mut cache =
        SimpleCache::initialize(config_with(DataEncoding::Json, 1000, 3), None).expect("init");
    let out = cache.put(5, 10).expect("put");
    assert_eq!(out.ledger_contents, b"[2,1,[[5,2,0]]]".to_vec());
}

/// The persisted ledger under the bincode encoding is the fixed-width
/// little-endian triple: size, counter, then the rows behind their count.
#[test]
fn ledger_bytes_are_exact_bincode() {
    let mut cache =
        SimpleCache::initialize(config_with(DataEncoding::Bincode, 1000, 3), None).expect("init");
    let out = cache.put(5, 10).expect("put");
    let expected: Vec<u8> = vec![
        8, 0, 0, 0, 0, 0, 0, 0, // current size: the 8-byte payload
        1, 0, 0, 0, 0, 0, 0, 0, // counter: one id handed out
        1, 0, 0, 0, 0, 0, 0, 0, // one row follows
        5, 0, 0, 0, // key 5
        8, 0, 0, 0, 0, 0, 0, 0, // entry size 8
        0, 0, 0, 0, 0, 0, 0, 0, // entry id 0
    ];
    assert_eq!(out.ledger_contents, expected);
}

/// The decimal formatter behind the path layout writes plain base-ten
/// text with no leading zeros.
#[test]
fn decimal_formatting_is_exact() {
    assert_eq!(simple_disk_cache::layout::u64_to_decimal(0), "0");
    assert_eq!(simple_disk_cache::layout::u64_to_decimal(12034), "12034");
    assert_eq!(
        simple_disk_cache::layout::u64_to_decimal(u64::MAX),
        "18446744073709551615"
    );
}

/// The byte-counting adapter accumulates what is reported to it.
#[test]
fn write_counter_accumulates() {
    let sink: Vec<u8> = Vec::new();
    let mut wc = simple_disk_cache::encoding::WriteCounter::new(sink);
    assert_eq!(wc.counter, 0);
    wc.record(3);
    wc.record(4);
    assert_eq!(wc.counter, 7);
}

/// A configuration with no subdirectories is rejected at construction.
#[test]
fn zero_subdirs_is_rejected() {
    let r = SimpleCache::initialize(config_with(DataEncoding::Json, 1000, 0), None);
    assert!(matches!(r, Err(CacheError::InvalidConfiguration)));
}

/// Stored bytes that do not decode as a ledger are surfaced as a decode
/// failure, not repaired.
#[test]
fn garbage_metadata_is_rejected() {
    let r = SimpleCache::initialize(
        config_with(DataEncoding::Json, 1000, 3),
        Some(b"not a ledger".to_vec()),
    );
    assert!(matches!(r, Err(CacheError::DeserializeMetadata(_))));
}

/// A ledger that decodes but contradicts the size accounting is rejected
/// as corrupt.
#[test]
fn inconsistent_metadata_is_rejected() {
    // an empty ledger whose recorded size claims five bytes
    let rows: Vec<(u32, u64, u64)> = Vec::new();
    let bytes = serde_json::to_vec(&(5u64, 0u64, rows)).expect("encode");
    let r = SimpleCache::initialize(config_with(DataEncoding::Json, 1000, 3), Some(bytes));
    assert!(matches!(r, Err(CacheError::CorruptMetadata)));
}

/// A ledger with a duplicated key is rejected as corrupt.
#[test]
fn duplicate_key_metadata_is_rejected() {
    let rows: Vec<(u32, u64, u64)> = vec![(1, 2, 0), (1, 2, 1)];
    let bytes = serde_json::to_vec(&(4u64, 2u64, rows)).expect("encode");
    let r = SimpleCache::initialize(config_with(DataEncoding::Json, 1000, 3), Some(bytes));
    assert!(matches!(r, Err(CacheError::CorruptMetadata)));
}

/// With the id counter already at the top of its range (restored from a
/// consistent but exhausted ledger), a fresh key cannot be assigned an id.
#[test]
fn exhausted_id_counter_is_surfaced() {
    let rows: Vec<(u32, u64, u64)> = Vec::new();
    let bytes = serde_json::to_vec(&(0u64, u64::MAX, rows)).expect("encode");
    let mut cache = SimpleCache::initialize(config_with(DataEncoding::Json, 1000, 3), Some(bytes))
        .expect("init");
    let r = cache.put(1, 10);
    assert!(matches!(r, Err(CacheError::CounterExhausted)));
    assert_eq!(cache.entry_count(), 0);
}

/// A failed read drops the entry: the payload is treated as lost, and the
/// size accounting follows.
#[test]
fn failed_read_drops_entry() {
    let config = config_with(DataEncoding::Json, 1000, 3);
    let ledger = ledger_file(&config.encoding);
    let mut store: Store = HashMap::new();
    let mut cache = SimpleCache::initialize(config, None).expect("init");
    put_value(&mut cache, &mut store, &ledger, 1, 10);
    put_value(&mut cache, &mut store, &ledger, 2, 20);
    assert_eq!(cache.current_size(), 4);

    let io = std::io::Error::new(std::io::ErrorKind::NotFound, "vanished");
    let r = cache.get(1, Err(io));
    assert!(matches!(r, Err(CacheError::ReadCacheFile(_))));
    assert_eq!(cache.lookup(1), None);
    assert_eq!(cache.current_size(), 2);
    assert_eq!(get_value(&mut cache, &mut store, &ledger, 2), Some(20));
}

/// Bytes that do not decode as a value drop the entry as well.
#[test]
fn failed_decode_drops_entry() {
    let config = config_with(DataEncoding::Json, 1000, 3);
    let ledger = ledger_file(&config.encoding);
    let mut store: Store = HashMap::new();
    let mut cache = SimpleCache::initialize(config, None).expect("init");
    put_value(&mut cache, &mut store, &ledger, 1, 10);

    let r = cache.get(1, Ok(b"oops".to_vec()));
    assert!(matches!(r, Err(CacheError::DeserializeValue(_))));
    assert_eq!(cache.lookup(1), None);
    assert_eq!(cache.current_size(), 0);
}

/// Durability survives eviction and recency traffic: a reopened cache
/// answers exactly as the one that wrote the directory.
#[test]
fn restore_after_eviction_and_access() {
    let config = config_with(DataEncoding::Bincode, 24, 2);
    let config2 = config.clone();
    let ledger = ledger_file(&config.encoding);
    let mut store: Store = HashMap::new();
    let mut cache = SimpleCache::initialize(config, None).expect("init");

    for k in 1..4 {
        put_value(&mut cache, &mut store, &ledger, k, 100 + k as u64);
    }
    assert_eq!(get_value(&mut cache, &mut store, &ledger, 1), Some(101));
    put_value(&mut cache, &mut store, &ledger, 4, 104);

    drop(cache);
    let stored = store.get(&ledger).cloned();
    let mut cache = SimpleCache::initialize(config2, stored).expect("reinit");
    assert_eq!(get_value(&mut cache, &mut store, &ledger, 2), None);
    assert_eq!(get_value(&mut cache, &mut store, &ledger, 3), Some(103));
    assert_eq!(get_value(&mut cache, &mut store, &ledger, 1), Some(101));
    assert_eq!(get_value(&mut cache, &mut store, &ledger, 4), Some(104));
    assert_eq!(cache.current_size(), 24);
}
