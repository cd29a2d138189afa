use omnipaxos_kv::kv::{KVSnapshot, KeyValue};
use omnipaxos_kv::kv_map::KvMap;

fn kv(key: &str, value: u64) -> KeyValue {
    KeyValue { key: String::from(key), value }
}

#[test]
fn empty_map_holds_nothing() {
    let m = KvMap::new();
    assert_eq!(m.len(), 0);
    assert_eq!(m.get(&String::from("a")), None);
    assert!(!m.contains_key(&String::from("a")));
    assert!(m.to_vec().is_empty());
}

#[test]
fn insert_then_get() {
    let mut m = KvMap::new();
    m.insert(String::from("a"), 2);
    m.insert(String::from("b"), 7);
    assert_eq!(m.len(), 2);
    assert_eq!(m.get(&String::from("a")), Some(2));
    assert_eq!(m.get(&String::from("b")), Some(7));
    assert_eq!(m.get(&String::from("c")), None);
    assert!(m.contains_key(&String::from("b")));
}

#[test]
fn insert_overwrites_and_keeps_one_entry() {
    let mut m = KvMap::new();
    m.insert(String::from("a"), 2);
    m.insert(String::from("b"), 3);
    m.insert(String::from("a"), 5);
    assert_eq!(m.len(), 2);
    assert_eq!(m.get(&String::from("a")), Some(5));
    assert_eq!(m.get(&String::from("b")), Some(3));
    let entries = m.to_vec();
    assert_eq!(entries.len(), 2);
    assert_eq!(entries[0].key, "a");
    assert_eq!(entries[0].value, 5);
    assert_eq!(entries[1].key, "b");
    assert_eq!(entries[1].value, 3);
}

#[test]
fn empty_key_is_a_key() {
    let mut m = KvMap::new();
    m.insert(String::new(), 9);
    assert_eq!(m.get(&String::new()), Some(9));
    assert_eq!(m.len(), 1);
}

#[test]
fn merge_prefers_the_other_map() {
    let mut left = KvMap::new();
    left.insert(String::from("a"), 1);
    left.insert(String::from("b"), 2);
    let mut right = KvMap::new();
    right.insert(String::from("b"), 20);
    right.insert(String::from("c"), 30);
    left.merge(&right);
    assert_eq!(left.len(), 3);
    assert_eq!(left.get(&String::from("a")), Some(1));
    assert_eq!(left.get(&String::from("b")), Some(20));
    assert_eq!(left.get(&String::from("c")), Some(30));
    assert_eq!(right.len(), 2);
}

#[test]
fn from_entries_lets_the_later_entry_win() {
    let entries = vec![kv("a", 1), kv("b", 2), kv("a", 3)];
    let m = KvMap::from_entries(&entries);
    assert_eq!(m.len(), 2);
    assert_eq!(m.get(&String::from("a")), Some(3));
    assert_eq!(m.get(&String::from("b")), Some(2));
}

#[test]
fn clone_keeps_the_entries() {
    let mut m = KvMap::new();
    m.insert(String::from("a"), 1);
    let mut copy = m.clone();
    copy.insert(String::from("a"), 2);
    assert_eq!(m.get(&String::from("a")), Some(1));
    assert_eq!(copy.get(&String::from("a")), Some(2));
}

#[test]
fn snapshot_create_compacts_entries() {
    let entries = vec![kv("a", 1), kv("a", 2), kv("b", 5), kv("a", 4)];
    let snapshot = KVSnapshot::create(&entries);
    assert_eq!(snapshot.snapshotted.len(), 2);
    assert_eq!(snapshot.snapshotted.get(&String::from("a")), Some(4));
    assert_eq!(snapshot.snapshotted.get(&String::from("b")), Some(5));
}

#[test]
fn snapshot_create_of_nothing_is_empty() {
    let snapshot = KVSnapshot::create(&[]);
    assert_eq!(snapshot.snapshotted.len(), 0);
}

#[test]
fn snapshot_merge_overwrites_with_delta() {
    let mut base = KVSnapshot::create(&[kv("a", 1), kv("b", 2)]);
    let delta = KVSnapshot::create(&[kv("b", 9), kv("c", 3)]);
    base.merge(delta);
    assert_eq!(base.snapshotted.len(), 3);
    assert_eq!(base.snapshotted.get(&String::from("a")), Some(1));
    assert_eq!(base.snapshotted.get(&String::from("b")), Some(9));
    assert_eq!(base.snapshotted.get(&String::from("c")), Some(3));
}

#[test]
fn snapshot_of_concatenation_is_merge_of_snapshots() {
    let first = vec![kv("a", 1), kv("b", 2)];
    let second = vec![kv("b", 7), kv("c", 8), kv("a", 9)];
    let mut all = first.clone();
    all.extend(second.iter().cloned());
    let whole = KVSnapshot::create(&all);
    let mut merged = KVSnapshot::create(&first);
    merged.merge(KVSnapshot::create(&second));
    for key in ["a", "b", "c", "d"] {
        let key = String::from(key);
        assert_eq!(whole.snapshotted.get(&key), merged.snapshotted.get(&key));
    }
    assert_eq!(whole.snapshotted.len(), merged.snapshotted.len());
}

#[test]
fn snapshots_are_in_use() {
    assert!(KVSnapshot::use_snapshots());
}
