//! Integration tests of the constant database writer and reader.

use std::collections::HashSet;

use ldoce5viewer_tui::data::cdb::{CDBMaker, CDBReader};

fn build_cdb(pairs: &[(&[u8], &[u8])]) -> Vec<u8> {
    let mut maker = CDBMaker::new();
    for &(k, v) in pairs {
        maker.add(k, v);
    }
    maker.finalize()
}

#[test]
fn test_round_trip_single() {
    let bytes = build_cdb(&[(b"hello", b"world")]);
    let reader = CDBReader::open(bytes).unwrap();
    assert_eq!(reader.get(b"hello"), Some(b"world".to_vec()));
}

#[test]
fn test_round_trip_many() {
    let pairs: Vec<(Vec<u8>, Vec<u8>)> =
        (0u32..100).map(|i| (format!("key{i}").into_bytes(), format!("value{i}").into_bytes())).collect();
    let bpairs: Vec<(&[u8], &[u8])> = pairs.iter().map(|(k, v)| (k.as_slice(), v.as_slice())).collect();
    let reader = CDBReader::open(build_cdb(&bpairs)).unwrap();
    for (k, v) in &pairs {
        assert_eq!(reader.get(k), Some(v.clone()), "key {:?} missing", k);
    }
}

#[test]
fn test_cdb_test_missing_key_returns_none() {
    let reader = CDBReader::open(build_cdb(&[(b"a", b"b")])).unwrap();
    assert_eq!(reader.get(b"nonexistent"), None);
}

#[test]
fn test_empty_cdb() {
    let reader = CDBReader::open(build_cdb(&[])).unwrap();
    assert_eq!(reader.get(b"anything"), None);
}

#[test]
fn test_binary_keys_and_values() {
    let key = vec![0u8, 1, 2, 3, 255];
    let val = vec![10u8, 20, 30];
    let reader = CDBReader::open(build_cdb(&[(&key, &val)])).unwrap();
    assert_eq!(reader.get(&key), Some(val));
}

#[test]
fn test_iteration() {
    let reader = CDBReader::open(build_cdb(&[(b"a", b"1"), (b"b", b"2"), (b"c", b"3")])).unwrap();
    let items = reader.iter_items();
    let keys: HashSet<Vec<u8>> = items.iter().map(|(k, _v)| k.clone()).collect();
    assert!(keys.contains(b"a".as_ref()));
    assert!(keys.contains(b"b".as_ref()));
    assert!(keys.contains(b"c".as_ref()));
    assert_eq!(keys.len(), 3);
}

#[test]
fn test_hash_collision_resilience() {
    let pairs: Vec<(Vec<u8>, Vec<u8>)> =
        (0u32..300).map(|i| (format!("k{i:04}").into_bytes(), format!("v{i}").into_bytes())).collect();
    let bpairs: Vec<(&[u8], &[u8])> = pairs.iter().map(|(k, v)| (k.as_slice(), v.as_slice())).collect();
    let reader = CDBReader::open(build_cdb(&bpairs)).unwrap();
    for (k, v) in &pairs {
        assert_eq!(reader.get(k), Some(v.clone()), "missing key {:?}", std::str::from_utf8(k).unwrap());
    }
}

#[test]
fn test_large_values() {
    let large_val: Vec<u8> = (0..10_000u32).map(|i| (i & 0xFF) as u8).collect();
    let reader = CDBReader::open(build_cdb(&[(b"bigkey", &large_val)])).unwrap();
    assert_eq!(reader.get(b"bigkey"), Some(large_val));
}
