use kv_collections::store::{Entry, MemStore, Write};

fn sorted(mut found: Vec<Entry>) -> Vec<(Vec<u8>, Vec<u8>)> {
    found.sort_by(|a, b| a.key.cmp(&b.key));
    found.into_iter().map(|e| (e.key, e.value)).collect()
}

#[test]
fn new_store_is_empty() {
    let store = MemStore::new();
    assert_eq!(store.len(), 0);
    assert_eq!(store.get(b"a"), None);
    assert!(store.scan(b"").is_empty());
}

#[test]
fn put_then_get() {
    let mut store = MemStore::new();
    store.put(b"a".to_vec(), b"1".to_vec());
    store.put(b"b".to_vec(), b"2".to_vec());
    assert_eq!(store.get(b"a"), Some(b"1".to_vec()));
    assert_eq!(store.get(b"b"), Some(b"2".to_vec()));
    assert_eq!(store.get(b"c"), None);
    assert_eq!(store.len(), 2);
}

#[test]
fn put_replaces_the_value() {
    let mut store = MemStore::new();
    store.put(b"a".to_vec(), b"1".to_vec());
    store.put(b"a".to_vec(), b"2".to_vec());
    assert_eq!(store.get(b"a"), Some(b"2".to_vec()));
    assert_eq!(store.len(), 1);
}

#[test]
fn delete_removes_only_that_key() {
    let mut store = MemStore::new();
    store.put(b"a".to_vec(), b"1".to_vec());
    store.put(b"b".to_vec(), b"2".to_vec());
    store.delete(b"a");
    store.delete(b"zz");
    assert_eq!(store.get(b"a"), None);
    assert_eq!(store.get(b"b"), Some(b"2".to_vec()));
    assert_eq!(store.len(), 1);
}

#[test]
fn scan_returns_exactly_the_prefixed_pairs() {
    let mut store = MemStore::new();
    store.put(b"ab1".to_vec(), b"x".to_vec());
    store.put(b"b".to_vec(), b"y".to_vec());
    store.put(b"ab2".to_vec(), b"z".to_vec());
    store.put(b"a".to_vec(), b"w".to_vec());
    assert_eq!(
        sorted(store.scan(b"ab")),
        vec![(b"ab1".to_vec(), b"x".to_vec()), (b"ab2".to_vec(), b"z".to_vec())]
    );
    assert_eq!(sorted(store.scan(b"")).len(), 4);
    assert!(store.scan(b"abc").is_empty());
}

#[test]
fn apply_carries_out_writes_in_order() {
    let mut store = MemStore::new();
    store.apply(&vec![
        Write::Put(b"a".to_vec(), b"1".to_vec()),
        Write::Put(b"b".to_vec(), b"2".to_vec()),
        Write::Delete(b"a".to_vec()),
        Write::Put(b"b".to_vec(), b"3".to_vec()),
    ]);
    assert_eq!(store.get(b"a"), None);
    assert_eq!(store.get(b"b"), Some(b"3".to_vec()));
    store.apply(&Vec::new());
    assert_eq!(store.len(), 1);
}
