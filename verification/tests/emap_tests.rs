use artop::emf_common::emap::BasicEMap;

#[test]
fn basic_map_ops() {
    let mut m = BasicEMap::new();
    assert!(m.put("a".to_string(), 1).is_none());
    assert_eq!(m.put("a".to_string(), 2), Some(1));
    assert_eq!(m.get(&"a".to_string()), Some(&2));
    assert!(m.contains_key(&"a".to_string()));
    assert!(!m.contains_key(&"b".to_string()));
    assert_eq!(m.remove_key(&"a".to_string()), Some(2));
    assert!(!m.contains_key(&"a".to_string()));
    assert!(m.is_empty());
}

#[test]
fn sealed_lookup_fast_path() {
    let mut m = BasicEMap::new();
    for i in 0..100 {
        m.put(format!("k{i}"), i);
    }
    m.seal();
    assert_eq!(m.get(&"k42".to_string()), Some(&42));
    assert_eq!(m.index_of_key(&"k99".to_string()), Some(99));
}

#[test]
fn index_of_key_finds_position() {
    let mut m = BasicEMap::new();
    m.put("a".to_string(), 1);
    m.put("b".to_string(), 2);
    m.put("c".to_string(), 3);
    assert_eq!(m.index_of_key(&"a".to_string()), Some(0));
    assert_eq!(m.index_of_key(&"c".to_string()), Some(2));
    assert_eq!(m.index_of_key(&"z".to_string()), None);
}

#[test]
fn contains_key_and_value() {
    let mut m = BasicEMap::new();
    m.put("x".to_string(), 10);
    m.put("y".to_string(), 20);
    assert!(m.contains_key(&"x".to_string()));
    assert!(!m.contains_key(&"missing".to_string()));
    assert!(m.contains_value(&20));
    assert!(!m.contains_value(&99));
}

#[test]
fn iteration_preserves_insertion_order() {
    let mut m = BasicEMap::new();
    m.put("a".to_string(), 1);
    m.put("b".to_string(), 2);
    m.put("c".to_string(), 3);
    let keys: Vec<String> = m.keys().cloned().collect();
    let vals: Vec<i32> = m.values().cloned().collect();
    assert_eq!(keys, ["a", "b", "c"]);
    assert_eq!(vals, [1, 2, 3]);
    assert_eq!(m.entries().len(), 3);
}

#[test]
fn foreach_key_value() {
    let mut m = BasicEMap::new();
    m.put("k1".to_string(), 1);
    m.put("k2".to_string(), 2);
    let mut sum = 0;
    for e in m.entries() {
        if e.key.starts_with('k') {
            sum += e.value;
        }
    }
    assert_eq!(sum, 3);
}

#[test]
fn update_existing_key_replaces_value() {
    let mut m = BasicEMap::new();
    assert!(m.put("k".to_string(), 1).is_none());
    assert_eq!(m.put("k".to_string(), 42), Some(1));
    assert_eq!(m.get(&"k".to_string()), Some(&42));
    assert_eq!(m.len(), 1);
}

#[test]
fn remove_key_removes_entry() {
    let mut m = BasicEMap::new();
    m.put("a".to_string(), 1);
    m.put("b".to_string(), 2);
    assert_eq!(m.remove_key(&"a".to_string()), Some(1));
    assert!(!m.contains_key(&"a".to_string()));
    assert_eq!(m.len(), 1);
    assert_eq!(m.remove_key(&"missing".to_string()), None);
}

#[test]
fn clear_wipes_all_entries() {
    let mut m = BasicEMap::new();
    m.put("a".to_string(), 1);
    m.put("b".to_string(), 2);
    m.clear();
    assert!(m.is_empty());
    assert_eq!(m.len(), 0);
    assert!(!m.contains_key(&"a".to_string()));
}

#[test]
fn basic_emap_put_get() {
    let mut m = BasicEMap::new();
    m.put("a".to_string(), 1);
    m.put("b".to_string(), 2);
    assert_eq!(*m.get(&"a".to_string()).unwrap(), 1);
    assert_eq!(*m.get(&"b".to_string()).unwrap(), 2);
    assert_eq!(m.len(), 2);
}

#[test]
fn basic_emap_update_existing_key() {
    let mut m = BasicEMap::new();
    m.put("a".to_string(), 1);
    let old = m.put("a".to_string(), 99).unwrap();
    assert_eq!(old, 1);
    assert_eq!(*m.get(&"a".to_string()).unwrap(), 99);
    assert_eq!(m.len(), 1);
}

#[test]
fn basic_emap_contains_key_value() {
    let mut m = BasicEMap::new();
    m.put(1, "one".to_string());
    m.put(2, "two".to_string());
    assert!(m.contains_key(&1));
    assert!(!m.contains_key(&3));
    assert!(m.contains_value(&"two".to_string()));
    assert!(!m.contains_value(&"three".to_string()));
}

#[test]
fn basic_emap_remove_key() {
    let mut m = BasicEMap::new();
    m.put("a".to_string(), 1);
    m.put("b".to_string(), 2);
    m.put("c".to_string(), 3);
    assert!(m.remove_key(&"b".to_string()).is_some());
    assert_eq!(m.len(), 2);
    assert!(!m.contains_key(&"b".to_string()));
}

#[test]
fn basic_emap_index_of_key() {
    let mut m = BasicEMap::new();
    m.put("a".to_string(), 1);
    m.put("b".to_string(), 2);
    m.put("c".to_string(), 3);
    assert_eq!(m.index_of_key(&"a".to_string()), Some(0));
    assert_eq!(m.index_of_key(&"b".to_string()), Some(1));
    assert_eq!(m.index_of_key(&"c".to_string()), Some(2));
    assert_eq!(m.index_of_key(&"z".to_string()), None);
}

#[test]
fn basic_emap_clear() {
    let mut m = BasicEMap::new();
    m.put("a".to_string(), 1);
    m.put("b".to_string(), 2);
    m.clear();
    assert_eq!(m.len(), 0);
    assert!(!m.contains_key(&"a".to_string()));
}

#[test]
fn basic_emap_foreach_key_value() {
    let mut m = BasicEMap::new();
    m.put(1, "one".to_string());
    m.put(2, "two".to_string());
    m.put(3, "three".to_string());
    let key_sum: i32 = m.keys().sum();
    assert_eq!(key_sum, 6);
    let all_values: String = m.values().map(|s| s.clone()).collect();
    assert_eq!(all_values, "onetwothree");
}

#[test]
fn basic_emap_iteration() {
    let mut m = BasicEMap::new();
    m.put("a".to_string(), 1);
    m.put("b".to_string(), 2);
    let count = m.keys().count();
    assert_eq!(count, 2);
}

// Own tests: laws on concrete values.

#[test]
fn put_then_get_reads_back_and_keeps_other_keys() {
    let mut m = BasicEMap::new();
    m.put(1u32, 10u32);
    m.put(2u32, 20u32);
    m.put(1u32, 11u32);
    assert_eq!(m.get(&1), Some(&11));
    assert_eq!(m.get(&2), Some(&20));
    assert_eq!(m.index_of_key(&1), Some(0));
    assert_eq!(m.len(), 2);
}

#[test]
fn remove_then_get_is_none_and_order_kept() {
    let mut m = BasicEMap::new();
    m.put(1u32, 10u32);
    m.put(2u32, 20u32);
    m.put(3u32, 30u32);
    assert_eq!(m.remove_key(&2), Some(20));
    assert_eq!(m.get(&2), None);
    let keys: Vec<u32> = m.keys().copied().collect();
    assert_eq!(keys, [1, 3]);
}

#[test]
fn put_after_seal_still_found() {
    let mut m = BasicEMap::new();
    m.put(1u32, 1u32);
    m.seal();
    m.put(2u32, 2u32);
    assert_eq!(m.get(&2), Some(&2));
    assert_eq!(m.index_of_key(&2), Some(1));
}

#[test]
fn seal_twice_keeps_lookups() {
    let mut m: BasicEMap<String, i32> = BasicEMap::new();
    m.put("a".to_string(), 1);
    m.put("b".to_string(), 2);
    m.seal();
    m.seal();
    assert_eq!(m.len(), 2);
    assert_eq!(m.get(&"b".to_string()), Some(&2));
    assert_eq!(m.index_of_key(&"a".to_string()), Some(0));
    assert!(!m.contains_key(&"c".to_string()));
}
