use indexmap_nostd::set::Iter;
use indexmap_nostd::IndexSet;
use std::cmp::Ordering;

#[derive(Debug, Clone)]
struct Tagged {
    id: u32,
    tag: &'static str,
}

impl PartialEq for Tagged {
    fn eq(&self, other: &Self) -> bool {
        self.id == other.id
    }
}

impl Eq for Tagged {}

impl PartialOrd for Tagged {
    fn partial_cmp(&self, other: &Self) -> Option<Ordering> {
        Some(self.cmp(other))
    }
}

impl Ord for Tagged {
    fn cmp(&self, other: &Self) -> Ordering {
        self.id.cmp(&other.id)
    }
}

fn elements(mut it: Iter<'_, u32>) -> Vec<u32> {
    let mut out = Vec::new();
    while let Some(x) = it.next() {
        out.push(*x);
    }
    out
}

#[test]
fn set_insert_reports_novelty() {
    let mut s = IndexSet::new();
    assert!(s.insert(3u32));
    assert!(s.insert(1u32));
    assert!(!s.insert(3u32));
    assert_eq!(s.len(), 2);
    assert_eq!(elements(s.iter()), vec![3, 1]);
}

#[test]
fn set_dedup_replaces_stored_instance() {
    let mut s = IndexSet::new();
    assert!(s.insert(Tagged { id: 1, tag: "first" }));
    assert!(s.insert(Tagged { id: 2, tag: "other" }));
    assert!(!s.insert(Tagged { id: 1, tag: "second" }));
    assert_eq!(s.len(), 2);
    let probe = Tagged { id: 1, tag: "probe" };
    assert_eq!(s.get(&probe).unwrap().tag, "second");
    let mut it = s.iter();
    assert_eq!(it.next().unwrap().tag, "second");
    assert_eq!(it.next().unwrap().tag, "other");
}

#[test]
fn set_contains_and_get() {
    let mut s = IndexSet::new();
    s.insert(5u32);
    assert!(s.contains(&5));
    assert!(!s.contains(&6));
    assert_eq!(s.get(&5), Some(&5));
    assert_eq!(s.get(&6), None);
}

#[test]
fn set_empty_and_clear() {
    let mut s: IndexSet<u32> = IndexSet::new();
    assert!(s.is_empty());
    s.insert(1);
    s.insert(2);
    assert!(!s.is_empty());
    s.clear();
    assert!(s.is_empty());
    assert_eq!(s.len(), 0);
    assert!(!s.contains(&1));
    s.insert(9);
    assert_eq!(elements(s.iter()), vec![9]);
    let d: IndexSet<u32> = IndexSet::default();
    assert!(d.is_empty());
}

#[test]
fn set_from_vec_and_extend() {
    let mut s = IndexSet::from_vec(vec![4u32, 2, 4, 7]);
    assert_eq!(elements(s.iter()), vec![4, 2, 7]);
    s.extend(vec![2, 8]);
    assert_eq!(elements(s.iter()), vec![4, 2, 7, 8]);
}

#[test]
fn set_iter_both_ends() {
    let s = IndexSet::from_vec(vec![1u32, 2, 3]);
    let mut it = s.iter();
    assert_eq!(it.size_hint(), (3, Some(3)));
    assert_eq!(it.next_back(), Some(&3));
    assert_eq!(it.next(), Some(&1));
    assert_eq!(it.len(), 1);
    assert_eq!(it.clone().count(), 1);
    assert_eq!(it.next(), Some(&2));
    assert_eq!(it.next(), None);
    assert_eq!(it.next_back(), None);
}

#[test]
fn set_into_iter_both_ends() {
    let s = IndexSet::from_vec(vec![10u32, 20, 30, 40]);
    let mut it = s.into_iter();
    assert_eq!(it.len(), 4);
    assert_eq!(it.size_hint(), (4, Some(4)));
    assert_eq!(it.next(), Some(10));
    assert_eq!(it.next_back(), Some(40));
    assert_eq!(it.next(), Some(20));
    assert_eq!(it.len(), 1);
    assert_eq!(it.next_back(), Some(30));
    assert_eq!(it.next(), None);
    assert_eq!(it.next_back(), None);
    assert_eq!(it.count(), 0);
}
