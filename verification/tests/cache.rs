use fault_proof::errors::PreimageOracleError;
use fault_proof::key::PreimageKey;
use fault_proof::lru::LruCache;
use fault_proof::oracle::{
    exact, CachingOracle, HintWriterClient, PreimageOracleClient, ORACLE_LRU_SIZE,
};

/// A channel that answers every key with eight bytes made from its index and
/// counts how often it is asked.
struct CountingOracle {
    reads: usize,
    answer_len: usize,
    fail: bool,
}

impl PreimageOracleClient for CountingOracle {
    fn get_exact(&mut self, key: PreimageKey, _len: usize) -> Result<Vec<u8>, PreimageOracleError> {
        self.reads += 1;
        if self.fail {
            return Err(PreimageOracleError::Other("channel closed".to_string()));
        }
        Ok(key.digest[31 - self.answer_len..].to_vec())
    }
}

struct NoHints;

impl HintWriterClient for NoHints {
    fn write(&mut self, _hint: &str) -> Result<(), PreimageOracleError> {
        Ok(())
    }
}

fn oracle(capacity: usize) -> CachingOracle<CountingOracle, NoHints> {
    CachingOracle::new(capacity, CountingOracle { reads: 0, answer_len: 8, fail: false }, NoHints)
}

fn key(i: u64) -> PreimageKey {
    PreimageKey::new_local(i)
}

#[test]
fn cached_bytes_are_returned_without_a_wire_read() {
    let mut oracle = oracle(1024);
    let first = oracle.get_exact(key(7), 8).unwrap();
    assert_eq!(first, 7u64.to_be_bytes().to_vec());
    assert_eq!(oracle.oracle.reads, 1);
    for _ in 0..10 {
        assert_eq!(oracle.get_exact(key(7), 8), Ok(first.clone()));
    }
    assert_eq!(oracle.oracle.reads, 1);
}

#[test]
fn a_key_is_still_cached_after_fewer_other_reads_than_the_capacity() {
    let mut oracle = oracle(ORACLE_LRU_SIZE);
    oracle.get_exact(key(0), 8).unwrap();
    for i in 1..1024 {
        oracle.get_exact(key(i), 8).unwrap();
    }
    assert_eq!(oracle.oracle.reads, 1024);
    assert_eq!(oracle.get_exact(key(0), 8), Ok(0u64.to_be_bytes().to_vec()));
    assert_eq!(oracle.oracle.reads, 1024);
}

#[test]
fn a_key_survives_any_number_of_reads_of_fewer_keys_than_the_capacity() {
    let mut oracle = oracle(8);
    oracle.get_exact(key(0), 8).unwrap();
    for round in 0..50 {
        for i in 1..8 {
            oracle.get_exact(key((i * 3 + round) % 7 + 1), 8).unwrap();
        }
    }
    assert_eq!(oracle.oracle.reads, 8);
    assert_eq!(oracle.get_exact(key(0), 8), Ok(0u64.to_be_bytes().to_vec()));
    assert_eq!(oracle.oracle.reads, 8);

    // One more distinct key in between, and key 0 is read from the wire again.
    for i in 1..=8 {
        oracle.get_exact(key(i), 8).unwrap();
    }
    assert_eq!(oracle.oracle.reads, 9);
    assert!(!oracle.cache.contains(&key(0)));
    oracle.get_exact(key(0), 8).unwrap();
    assert_eq!(oracle.oracle.reads, 10);
    assert_eq!(oracle.cache.len(), 8);
}

#[test]
fn one_key_beyond_capacity_evicts_the_least_recently_used() {
    assert_eq!(ORACLE_LRU_SIZE, 1024);
    let mut oracle = oracle(ORACLE_LRU_SIZE);
    for i in 0..1024 {
        oracle.get_exact(key(i), 8).unwrap();
    }
    assert_eq!(oracle.oracle.reads, 1024);
    assert_eq!(oracle.cache.len(), 1024);
    // Everything is still there: the newest first, so that key 0 stays the oldest.
    for i in (1..1024).rev() {
        oracle.get_exact(key(i), 8).unwrap();
    }
    assert_eq!(oracle.oracle.reads, 1024);

    // The 1025th distinct key pushes key 0 out.
    oracle.get_exact(key(1024), 8).unwrap();
    assert_eq!(oracle.oracle.reads, 1025);
    assert_eq!(oracle.cache.len(), 1024);
    assert!(!oracle.cache.contains(&key(0)));
    assert!(oracle.cache.contains(&key(1)));
    assert!(oracle.cache.contains(&key(1024)));

    // Its next read goes to the wire again.
    assert_eq!(oracle.get_exact(key(0), 8), Ok(0u64.to_be_bytes().to_vec()));
    assert_eq!(oracle.oracle.reads, 1026);
}

#[test]
fn a_read_renews_an_entry() {
    let mut oracle = oracle(2);
    oracle.get_exact(key(1), 8).unwrap();
    oracle.get_exact(key(2), 8).unwrap();
    oracle.get_exact(key(1), 8).unwrap();
    oracle.get_exact(key(3), 8).unwrap();
    assert_eq!(oracle.oracle.reads, 3);
    assert!(oracle.cache.contains(&key(1)));
    assert!(!oracle.cache.contains(&key(2)));
    assert!(oracle.cache.contains(&key(3)));
}

#[test]
fn cached_bytes_of_another_length_fail_the_read() {
    let mut oracle = oracle(4);
    oracle.get_exact(key(1), 8).unwrap();
    assert_eq!(
        oracle.get_exact(key(1), 32),
        Err(PreimageOracleError::BufferLengthMismatch(32, 8))
    );
    assert_eq!(oracle.oracle.reads, 1);
    assert_eq!(oracle.get_exact(key(1), 8), Ok(1u64.to_be_bytes().to_vec()));
}

#[test]
fn an_answer_of_the_wrong_length_is_a_protocol_violation() {
    let mut oracle =
        CachingOracle::new(4, CountingOracle { reads: 0, answer_len: 4, fail: false }, NoHints);
    assert_eq!(
        oracle.get_exact(key(1), 8),
        Err(PreimageOracleError::BufferLengthMismatch(8, 4))
    );
    assert_eq!(oracle.cache.len(), 0);
    assert_eq!(oracle.get_exact(key(1), 4), Ok(vec![0, 0, 0, 1]));
    assert_eq!(oracle.cache.len(), 1);
}

#[test]
fn a_channel_failure_is_passed_on_and_not_cached() {
    let mut oracle =
        CachingOracle::new(4, CountingOracle { reads: 0, answer_len: 8, fail: true }, NoHints);
    let failure = PreimageOracleError::Other("channel closed".to_string());
    assert_eq!(oracle.get_exact(key(1), 8), Err(failure.clone()));
    assert_eq!(oracle.get_exact(key(1), 8), Err(failure));
    assert_eq!(oracle.oracle.reads, 2);
    assert_eq!(oracle.cache.len(), 0);
}

#[test]
fn complete_read_takes_each_answer() {
    let mut oracle = oracle(4);
    assert_eq!(oracle.complete_read(key(1), 2, Ok(vec![1, 2])), Ok(vec![1, 2]));
    assert!(oracle.cache.contains(&key(1)));
    assert_eq!(
        oracle.complete_read(key(2), 2, Ok(vec![1, 2, 3])),
        Err(PreimageOracleError::BufferLengthMismatch(2, 3))
    );
    assert_eq!(
        oracle.complete_read(key(2), 2, Err(PreimageOracleError::Timeout)),
        Err(PreimageOracleError::Timeout)
    );
    assert!(!oracle.cache.contains(&key(2)));
    assert_eq!(oracle.oracle.reads, 0);
}

#[test]
fn exact_checks_the_length() {
    assert_eq!(exact(vec![], 0), Ok(vec![]));
    assert_eq!(exact(vec![1, 2], 2), Ok(vec![1, 2]));
    assert_eq!(exact(vec![1, 2], 3), Err(PreimageOracleError::BufferLengthMismatch(3, 2)));
}

#[test]
fn hints_pass_through_the_cache() {
    let mut oracle = oracle(4);
    assert_eq!(oracle.write("l1-blob 00"), Ok(()));
    assert_eq!(oracle.cache.len(), 0);
    assert_eq!(oracle.oracle.reads, 0);
}

#[test]
fn lru_cache_orders_by_use() {
    let mut cache = LruCache::new(3);
    assert_eq!(cache.capacity(), 3);
    cache.put(key(1), vec![1]);
    cache.put(key(2), vec![2]);
    cache.put(key(3), vec![3]);
    assert_eq!(cache.len(), 3);
    assert_eq!(cache.get(&key(1)), Some(vec![1]));
    cache.put(key(4), vec![4]);
    assert_eq!(cache.get(&key(2)), None);
    assert_eq!(cache.get(&key(1)), Some(vec![1]));
    assert_eq!(cache.get(&key(3)), Some(vec![3]));
    assert_eq!(cache.get(&key(4)), Some(vec![4]));
    assert_eq!(cache.len(), 3);
}

#[test]
fn lru_put_on_a_cached_key_replaces_and_renews() {
    let mut cache = LruCache::new(2);
    cache.put(key(1), vec![1]);
    cache.put(key(2), vec![2]);
    cache.put(key(1), vec![9]);
    assert_eq!(cache.len(), 2);
    cache.put(key(3), vec![3]);
    assert!(!cache.contains(&key(2)));
    assert_eq!(cache.get(&key(1)), Some(vec![9]));
}

#[test]
fn lru_cache_of_one() {
    let mut cache = LruCache::new(1);
    cache.put(key(1), vec![1]);
    cache.put(key(2), vec![2]);
    assert_eq!(cache.get(&key(1)), None);
    assert_eq!(cache.get(&key(2)), Some(vec![2]));
    assert_eq!(cache.len(), 1);
}
