//! Unit tests of the constant database.

use std::collections::HashMap;

use ldoce5viewer_tui::data::cdb::{cdb_bytes, cdb_hash, CDBError, CDBMaker, CDBReader};

fn round_trip(pairs: &[(&[u8], &[u8])]) -> CDBReader {
    let mut maker = CDBMaker::new();
    for &(k, v) in pairs {
        maker.add(k, v);
    }
    let bytes = maker.finalize();
    CDBReader::open(bytes).unwrap()
}

#[test]
fn test_single_entry() {
    let reader = round_trip(&[(b"hello", b"world")]);
    assert_eq!(reader.get(b"hello"), Some(b"world".to_vec()));
}

#[test]
fn test_multiple_entries() {
    let pairs: Vec<(Vec<u8>, Vec<u8>)> =
        (0..50u8).map(|i| (format!("key{i}").into_bytes(), format!("val{i}").into_bytes())).collect();
    let refs: Vec<(&[u8], &[u8])> = pairs.iter().map(|(k, v)| (k.as_slice(), v.as_slice())).collect();
    let reader = round_trip(&refs);
    for (k, v) in &pairs {
        assert_eq!(reader.get(k), Some(v.clone()), "key {:?}", k);
    }
}

#[test]
fn cdb_test_missing_key_returns_none() {
    let reader = round_trip(&[(b"exists", b"yes")]);
    assert_eq!(reader.get(b"nope"), None);
}

#[test]
fn test_contains() {
    let reader = round_trip(&[(b"present", b"1")]);
    assert!(reader.contains(b"present"));
    assert!(!reader.contains(b"absent"));
}

#[test]
fn test_iter_items() {
    let mut expected: HashMap<Vec<u8>, Vec<u8>> = HashMap::new();
    expected.insert(b"k1".to_vec(), b"v1".to_vec());
    expected.insert(b"k2".to_vec(), b"v2".to_vec());
    expected.insert(b"k3".to_vec(), b"v3".to_vec());
    let refs: Vec<(&[u8], &[u8])> = expected.iter().map(|(k, v)| (k.as_slice(), v.as_slice())).collect();
    let reader = round_trip(&refs);
    let got: HashMap<Vec<u8>, Vec<u8>> = reader.iter_items().into_iter().collect();
    assert_eq!(got, expected);
}

#[test]
fn test_empty_value() {
    let reader = round_trip(&[(b"k", b"")]);
    assert_eq!(reader.get(b"k"), Some(vec![]));
}

#[test]
fn test_binary_key_and_value() {
    let key: Vec<u8> = (0u8..=255).collect();
    let val: Vec<u8> = (0u8..=255).rev().collect();
    let reader = round_trip(&[(&key, &val)]);
    assert_eq!(reader.get(&key), Some(val));
}

#[test]
fn test_file_too_small() {
    assert!(matches!(CDBReader::open(vec![0u8; 10]), Err(CDBError::TooSmall)));
}

#[test]
fn test_hash_determinism() {
    assert_eq!(cdb_hash(b"hello"), cdb_hash(b"hello"));
    assert_ne!(cdb_hash(b"hello"), cdb_hash(b"world"));
}

#[test]
fn cdb_hash_known_values() {
    // h = 5381, then h = (h * 33 mod 2^32) xor byte for each byte.
    assert_eq!(cdb_hash(b""), 5381);
    assert_eq!(cdb_hash(b"a"), 177604);
    assert_eq!(cdb_hash(b"ab"), 177604u32.wrapping_mul(33) ^ 98);
}

#[test]
fn cdb_first_value_wins() {
    let reader = round_trip(&[(b"k", b"first"), (b"k", b"second")]);
    assert_eq!(reader.get(b"k"), Some(b"first".to_vec()));
}

#[test]
fn cdb_bytes_first_value_wins() {
    let items = vec![
        (b"k".to_vec(), b"one".to_vec()),
        (b"other".to_vec(), b"x".to_vec()),
        (b"k".to_vec(), b"two".to_vec()),
    ];
    let reader = CDBReader::open(cdb_bytes(&items)).unwrap();
    assert_eq!(reader.get(b"k"), Some(b"one".to_vec()));
    assert_eq!(reader.get(b"other"), Some(b"x".to_vec()));
    assert_eq!(reader.get(b"none"), None);
    assert_eq!(reader.iter_items(), items);
}
