use hulykvs::memory::MemoryKeyValueStore;
use hulykvs::{KeyValueStore, Slice};

fn key(bytes: &[u8]) -> Slice {
    Slice::new(bytes)
}

#[test]
fn insert_then_get_returns_value() {
    let mut store = MemoryKeyValueStore::new();
    store.insert(key(b"test_key"), key(b"test_value")).unwrap();
    let entry = store.get(&key(b"test_key")).unwrap().unwrap();
    assert_eq!(entry.value.bytes, b"test_value".to_vec());
    assert_eq!(entry.key.bytes, b"test_key".to_vec());
    assert!(entry.md5.is_none());
}

#[test]
fn remove_absent_is_false_and_keeps_state() {
    let mut store = MemoryKeyValueStore::new();
    store.insert(key(b"kept"), key(b"v")).unwrap();
    assert!(!store.remove(&key(b"absent")).unwrap());
    let entry = store.get(&key(b"kept")).unwrap().unwrap();
    assert_eq!(entry.value.bytes, b"v".to_vec());
}

#[test]
fn remove_after_insert_is_true_then_absent() {
    let mut store = MemoryKeyValueStore::new();
    store.insert(key(b"delete_key"), key(b"delete_value")).unwrap();
    assert!(store.contains(&key(b"delete_key")).unwrap());
    assert!(store.remove(&key(b"delete_key")).unwrap());
    assert!(!store.contains(&key(b"delete_key")).unwrap());
    assert!(store.get(&key(b"delete_key")).unwrap().is_none());
    assert!(!store.remove(&key(b"delete_key")).unwrap());
}

#[test]
fn contains_tracks_inserts() {
    let mut store = MemoryKeyValueStore::new();
    assert!(!store.contains(&key(b"exists_key")).unwrap());
    store.insert(key(b"exists_key"), key(b"some_value")).unwrap();
    assert!(store.contains(&key(b"exists_key")).unwrap());
    assert!(!store.contains(&key(b"non_existent")).unwrap());
}

fn sorted_keys(keys: Vec<Slice>) -> Vec<Vec<u8>> {
    let mut out: Vec<Vec<u8>> = keys.into_iter().map(|k| k.bytes).collect();
    out.sort();
    out
}

#[test]
fn list_filters_by_byte_prefix() {
    let mut store = MemoryKeyValueStore::new();
    for k in [
        b"prefix_one".to_vec(),
        b"prefix_two".to_vec(),
        b"prefix_three".to_vec(),
        b"other_one".to_vec(),
        b"other_two".to_vec(),
    ] {
        store.insert(Slice::new(&k), key(b"value")).unwrap();
    }

    let all = store.list(&key(b"")).unwrap();
    assert_eq!(all.len(), 5);

    let filtered = sorted_keys(store.list(&key(b"prefix")).unwrap());
    assert_eq!(
        filtered,
        vec![
            b"prefix_one".to_vec(),
            b"prefix_three".to_vec(),
            b"prefix_two".to_vec(),
        ]
    );

    let none = store.list(&key(b"prefix_zzz")).unwrap();
    assert!(none.is_empty());
}

#[test]
fn list_is_independent_of_insertion_order() {
    let mut forward = MemoryKeyValueStore::new();
    let mut backward = MemoryKeyValueStore::new();
    let keys = [b"pa".to_vec(), b"pb".to_vec(), b"pc".to_vec(), b"q".to_vec()];
    for k in keys.iter() {
        forward.insert(Slice::new(k), key(b"v")).unwrap();
    }
    for k in keys.iter().rev() {
        backward.insert(Slice::new(k), key(b"v")).unwrap();
    }
    assert_eq!(
        sorted_keys(forward.list(&key(b"p")).unwrap()),
        sorted_keys(backward.list(&key(b"p")).unwrap()),
    );
}

#[test]
fn overwrite_keeps_last_value() {
    let mut store = MemoryKeyValueStore::new();
    store.insert(key(b"overwrite_key"), key(b"first_value")).unwrap();
    store.insert(key(b"overwrite_key"), key(b"second_value")).unwrap();
    let entry = store.get(&key(b"overwrite_key")).unwrap().unwrap();
    assert_eq!(entry.value.bytes, b"second_value".to_vec());
    assert_eq!(store.list(&key(b"overwrite")).unwrap().len(), 1);
}

#[test]
fn empty_key_and_empty_value_are_ordinary() {
    let mut store = MemoryKeyValueStore::new();
    store.insert(key(b"key"), key(b"")).unwrap();
    let entry = store.get(&key(b"key")).unwrap().unwrap();
    assert!(entry.value.bytes.is_empty());

    store.insert(key(b""), key(b"value")).unwrap();
    let entry = store.get(&key(b"")).unwrap().unwrap();
    assert_eq!(entry.value.bytes, b"value".to_vec());
}

#[test]
fn get_non_existent_is_none() {
    let store = MemoryKeyValueStore::default();
    assert!(store.get(&key(b"non_existent")).unwrap().is_none());
}

#[test]
fn slice_conversions_round_trip() {
    let s: Slice = vec![1u8, 2, 3].into();
    assert_eq!(s.bytes, vec![1, 2, 3]);
    let v: Vec<u8> = s.into();
    assert_eq!(v, vec![1, 2, 3]);
}
