use indexmap_nostd::map::{Entry, Iter};
use indexmap_nostd::IndexMap;

fn pairs(mut it: Iter<'_, &'static str, i32>) -> Vec<(&'static str, i32)> {
    let mut out = Vec::new();
    while let Some((k, v)) = it.next() {
        out.push((*k, *v));
    }
    out
}

#[test]
fn scenario_insert_update_iterate() {
    let mut m = IndexMap::new();
    assert_eq!(m.insert("a", 1), None);
    assert_eq!(m.insert("b", 2), None);
    assert_eq!(m.insert("a", 3), Some(1));
    assert_eq!(pairs(m.iter()), vec![("a", 3), ("b", 2)]);
    assert_eq!(m.len(), 2);
}

#[test]
fn update_keeps_position() {
    let mut m = IndexMap::new();
    m.insert("k1", 1);
    m.insert("k2", 2);
    m.insert("k3", 3);
    m.insert("k1", 10);
    assert_eq!(pairs(m.iter()), vec![("k1", 10), ("k2", 2), ("k3", 3)]);
}

#[test]
fn update_semantics() {
    let mut m = IndexMap::new();
    assert_eq!(m.insert(7u32, "v1"), None);
    assert_eq!(m.insert(7u32, "v2"), Some("v1"));
    assert_eq!(m.get(&7), Some(&"v2"));
    assert_eq!(m.len(), 1);
}

#[test]
fn clear_resets() {
    let mut m = IndexMap::new();
    m.insert("x", 1);
    m.insert("y", 2);
    m.clear();
    assert_eq!(m.len(), 0);
    assert!(m.is_empty());
    assert_eq!(m.get(&"x"), None);
    m.insert("z", 9);
    assert_eq!(pairs(m.iter()), vec![("z", 9)]);
}

#[test]
fn new_map_is_empty() {
    let m: IndexMap<u8, u8> = IndexMap::new();
    assert!(m.is_empty());
    assert_eq!(m.len(), 0);
    let d: IndexMap<u8, u8> = IndexMap::default();
    assert!(d.is_empty());
}

#[test]
fn non_empty_map_is_not_empty() {
    let mut m = IndexMap::new();
    m.insert(1u8, 1u8);
    assert!(!m.is_empty());
}

#[test]
fn round_trip_construction() {
    let input = vec![("c", 3), ("a", 1), ("b", 2)];
    let m = IndexMap::from_vec(input.clone());
    assert_eq!(pairs(m.iter()), input);
}

#[test]
fn construction_later_duplicate_wins() {
    let m = IndexMap::from_vec(vec![("a", 1), ("b", 2), ("a", 5)]);
    assert_eq!(pairs(m.iter()), vec![("a", 5), ("b", 2)]);
}

#[test]
fn extend_appends_and_updates() {
    let mut m = IndexMap::new();
    m.insert("a", 1);
    m.extend(vec![("b", 2), ("a", 4), ("c", 3)]);
    assert_eq!(pairs(m.iter()), vec![("a", 4), ("b", 2), ("c", 3)]);
}

#[test]
fn get_missing_is_none() {
    let mut m = IndexMap::new();
    m.insert(1u64, 100u64);
    assert_eq!(m.get(&2), None);
    assert!(!m.contains_key(&2));
    assert!(m.contains_key(&1));
}

#[test]
fn index_present_key() {
    let mut m = IndexMap::new();
    m.insert(1u64, 100u64);
    m.insert(2u64, 200u64);
    assert_eq!(m[&2], 200);
    assert_eq!(m[&1], 100);
}

#[test]
fn string_keys() {
    let mut m = IndexMap::new();
    m.insert(String::from("one"), 1);
    m.insert(String::from("two"), 2);
    assert_eq!(m.get(&String::from("two")), Some(&2));
    assert_eq!(m.get(&String::from("three")), None);
}

#[test]
fn iter_both_ends_and_len() {
    let mut m = IndexMap::new();
    m.insert("a", 1);
    m.insert("b", 2);
    m.insert("c", 3);
    let mut it = m.iter();
    assert_eq!(it.len(), 3);
    assert_eq!(it.size_hint(), (3, Some(3)));
    assert_eq!(it.next_back(), Some((&"c", &3)));
    assert_eq!(it.next(), Some((&"a", &1)));
    assert_eq!(it.len(), 1);
    assert_eq!(it.clone().count(), 1);
    assert_eq!(it.next(), Some((&"b", &2)));
    assert_eq!(it.next(), None);
    assert_eq!(it.next_back(), None);
    assert_eq!(it.len(), 0);
}

#[test]
fn iter_restarts() {
    let mut m = IndexMap::new();
    m.insert("a", 1);
    let mut it = m.iter();
    it.next();
    assert_eq!(it.len(), 0);
    assert_eq!(m.iter().len(), 1);
}

#[test]
fn iter_mut_writes_values() {
    let mut m = IndexMap::new();
    m.insert("a", 1);
    m.insert("b", 2);
    m.insert("c", 3);
    {
        let mut it = m.iter_mut();
        assert_eq!(it.len(), 3);
        assert_eq!(it.size_hint(), (3, Some(3)));
        let (k, v) = it.next().unwrap();
        assert_eq!(*k, "a");
        *v += 10;
        let (k, v) = it.next_back().unwrap();
        assert_eq!(*k, "c");
        *v += 30;
        assert_eq!(it.count(), 1);
    }
    assert_eq!(pairs(m.iter()), vec![("a", 11), ("b", 2), ("c", 33)]);
}

#[test]
fn iter_mut_exhausts() {
    let mut m = IndexMap::new();
    m.insert(1u8, 1u8);
    let mut it = m.iter_mut();
    assert!(it.next().is_some());
    assert!(it.next().is_none());
    assert!(it.next_back().is_none());
}

#[test]
fn entry_classifies() {
    let mut m = IndexMap::new();
    m.insert("a", 1);
    assert!(matches!(m.entry("a"), Entry::Occupied(_)));
    assert!(matches!(m.entry("b"), Entry::Vacant(_)));
    assert_eq!(m.entry("b").key(), &"b");
    assert_eq!(m.entry("a").key(), &"a");
    assert_eq!(m.len(), 1);
}

#[test]
fn entry_or_insert_matches_get_then_insert() {
    let mut a = IndexMap::new();
    let mut b = IndexMap::new();
    for (k, v) in [("x", 1), ("y", 2)] {
        a.insert(k, v);
        b.insert(k, v);
    }
    for (k, d) in [("y", 20), ("z", 30)] {
        *a.entry(k).or_insert(d) += 100;
        if b.get(&k).is_none() {
            b.insert(k, d);
        }
        let current = *b.get(&k).unwrap();
        b.insert(k, current + 100);
    }
    assert_eq!(pairs(a.iter()), pairs(b.iter()));
    assert_eq!(pairs(a.iter()), vec![("x", 1), ("y", 102), ("z", 130)]);
}

#[test]
fn entry_or_insert_returns_existing() {
    let mut m = IndexMap::new();
    m.insert("a", 1);
    assert_eq!(*m.entry("a").or_insert(5), 1);
    assert_eq!(*m.entry("b").or_insert(5), 5);
    assert_eq!(pairs(m.iter()), vec![("a", 1), ("b", 5)]);
}

#[test]
fn entry_or_insert_with_variants() {
    let mut m: IndexMap<&'static str, usize> = IndexMap::new();
    assert_eq!(*m.entry("abc").or_insert_with(|| 7), 7);
    assert_eq!(*m.entry("abc").or_insert_with(|| 8), 7);
    assert_eq!(*m.entry("hello").or_insert_with_key(|k| k.len()), 5);
    assert_eq!(*m.entry("hello").or_insert_with_key(|_| 0), 5);
    assert_eq!(*m.entry("zero").or_default(), 0);
    assert_eq!(m.len(), 3);
}

#[test]
fn entry_and_modify() {
    let mut m = IndexMap::new();
    m.insert("a", 1);
    *m.entry("a").and_modify(|v| *v += 1).or_insert(42) += 0;
    m.entry("b").and_modify(|v| *v += 1).or_insert(42);
    assert_eq!(pairs(m.iter()), vec![("a", 2), ("b", 42)]);
}

#[test]
fn vacant_entry_operations() {
    let mut m: IndexMap<&'static str, i32> = IndexMap::new();
    match m.entry("k") {
        Entry::Vacant(v) => {
            assert_eq!(v.key(), &"k");
            assert_eq!(v.into_key(), "k");
        }
        Entry::Occupied(_) => panic!("expected a vacant entry"),
    }
    assert!(m.is_empty());
    match m.entry("k") {
        Entry::Vacant(v) => {
            let r = v.insert(3);
            *r += 1;
        }
        Entry::Occupied(_) => panic!("expected a vacant entry"),
    }
    assert_eq!(m.get(&"k"), Some(&4));
}

#[test]
fn occupied_entry_operations() {
    let mut m = IndexMap::new();
    m.insert("a", 1);
    m.insert("b", 2);
    match m.entry("b") {
        Entry::Occupied(mut o) => {
            assert_eq!(o.key(), &"b");
            assert_eq!(o.get(), &2);
            *o.get_mut() = 20;
            assert_eq!(o.insert(21), 20);
            assert_eq!(o.get(), &21);
            *o.into_mut() += 1;
        }
        Entry::Vacant(_) => panic!("expected an occupied entry"),
    }
    assert_eq!(pairs(m.iter()), vec![("a", 1), ("b", 22)]);
}
