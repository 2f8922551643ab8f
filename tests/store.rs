use pastebin::{get_paste, id_chars, store, store_paste, BoundedStore, PasteStore};

fn key(i: usize) -> String {
    format!("k{}", i)
}

#[test]
fn capacity_never_exceeded() {
    let mut s = BoundedStore::new(3);
    for i in 0..20 {
        s.put(key(i % 7), vec![i as u8]);
        assert!(s.len() <= 3);
    }
    assert_eq!(s.capacity(), 3);
}

#[test]
fn fifo_eviction_drops_first() {
    let n = 4;
    let mut s = BoundedStore::new(n);
    for i in 0..=n {
        s.put(key(i), vec![i as u8, 1]);
    }
    assert_eq!(s.get("k0"), None);
    for i in 1..=n {
        assert_eq!(s.get(&key(i)), Some(vec![i as u8, 1]));
    }
    assert_eq!(s.len(), n);
}

#[test]
fn read_after_write_is_exact() {
    let mut s = BoundedStore::new(10);
    let content: Vec<u8> = (0..=255).collect();
    s.put("abc".to_string(), content.clone());
    assert_eq!(s.get("abc"), Some(content));
}

#[test]
fn empty_content_is_stored() {
    let mut s = BoundedStore::new(2);
    s.put("x".to_string(), Vec::new());
    assert_eq!(s.get("x"), Some(Vec::new()));
}

#[test]
fn miss_is_none() {
    let mut s = BoundedStore::new(5);
    assert_eq!(s.get("nope"), None);
    s.put("a1b".to_string(), vec![1, 2, 3]);
    assert_eq!(s.get("nope"), None);
    assert_eq!(s.get(""), None);
}

#[test]
fn zero_capacity_stays_empty() {
    let mut s = BoundedStore::new(0);
    for i in 0..10 {
        s.put(key(i), vec![7]);
        assert_eq!(s.len(), 0);
        assert_eq!(s.get(&key(i)), None);
    }
}

#[test]
fn overwrite_replaces_content() {
    let mut s = BoundedStore::new(3);
    s.put("id".to_string(), b"A".to_vec());
    s.put("id".to_string(), b"B".to_vec());
    assert_eq!(s.get("id"), Some(b"B".to_vec()));
    assert_eq!(s.len(), 1);
}

#[test]
fn overwrite_keeps_eviction_position() {
    let mut s = BoundedStore::new(2);
    s.put("a".to_string(), b"1".to_vec());
    s.put("b".to_string(), b"2".to_vec());
    s.put("a".to_string(), b"3".to_vec());
    s.put("c".to_string(), b"4".to_vec());
    assert_eq!(s.get("a"), None);
    assert_eq!(s.get("b"), Some(b"2".to_vec()));
    assert_eq!(s.get("c"), Some(b"4".to_vec()));
}

#[test]
fn shared_store_bounded_after_many_puts() {
    let n = 8;
    let shared = PasteStore::new(n / 2);
    for i in 0..n {
        store_paste(&shared, key(i), vec![i as u8; 16]);
    }
    let mut present = 0;
    for i in 0..n {
        if let Some(c) = get_paste(&shared, &key(i)) {
            assert_eq!(c, vec![i as u8; 16]);
            present += 1;
        }
    }
    assert_eq!(present, n / 2);
    assert_eq!(get_paste(&shared, "k0"), None);
    assert_eq!(get_paste(&shared, "k7"), Some(vec![7u8; 16]));
    assert_eq!(shared.capacity(), n / 2);
}

#[test]
fn store_returns_identifier_for_content() {
    let shared = PasteStore::new(1000);
    let id = store(&shared, b"hello".to_vec());
    assert_eq!(id.chars().count(), 3);
    assert_eq!(get_paste(&shared, &id), Some(b"hello".to_vec()));
}

#[test]
fn id_chars_exact() {
    assert_eq!(id_chars(0, 9, true, 0), vec!['0', '9', 'a']);
    assert_eq!(id_chars(4, 2, false, 25), vec!['4', '2', 'Z']);
    assert_eq!(id_chars(7, 7, true, 25), vec!['7', '7', 'z']);
}
