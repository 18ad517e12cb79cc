use std::cell::Cell;
use std::collections::hash_map::RandomState;

use memo_map::{Iter, Keys, MemoMap};

fn sorted_pairs<'a>(mut it: Iter<'a, i32, &'static str>) -> Vec<(i32, &'static str)> {
    let mut values = Vec::new();
    while let Some((k, v)) = it.next() {
        values.push((*k, *v));
    }
    values.sort();
    values
}

fn sorted_keys<'a>(mut it: Keys<'a, i32>) -> Vec<i32> {
    let mut values = Vec::new();
    while let Some(k) = it.next() {
        values.push(*k);
    }
    values.sort();
    values
}

#[test]
fn test_insert() {
    let mut memo = MemoMap::new();
    assert!(memo.insert(23u32, Box::new(1u32)));
    assert!(!memo.insert(23u32, Box::new(2u32)));
    assert_eq!(memo.get(&23u32).cloned(), Some(Box::new(1)));
}

#[test]
fn test_iter() {
    let mut memo = MemoMap::new();
    memo.insert(1, "one");
    memo.insert(2, "two");
    memo.insert(3, "three");
    let values = sorted_pairs(memo.iter());
    assert_eq!(values, vec![(1, "one"), (2, "two"), (3, "three")]);
}

#[test]
fn test_keys() {
    let mut memo = MemoMap::new();
    memo.insert(1, "one");
    memo.insert(2, "two");
    memo.insert(3, "three");
    let values = sorted_keys(memo.keys());
    assert_eq!(values, vec![1, 2, 3]);
}

#[test]
fn test_contains() {
    let mut memo = MemoMap::new();
    memo.insert(1, "one");
    assert!(memo.contains_key(&1));
    assert!(!memo.contains_key(&2));
}

#[test]
fn insert_keeps_first_value() {
    let mut memo = MemoMap::new();
    assert!(memo.insert(7u64, String::from("first")));
    assert!(!memo.insert(7u64, String::from("second")));
    assert!(!memo.insert(7u64, String::from("third")));
    assert_eq!(memo.get(&7u64).map(|s| s.as_str()), Some("first"));
    assert_eq!(memo.len(), 1);
}

#[test]
fn get_of_absent_key_is_none() {
    let mut memo: MemoMap<u32, Box<u32>> = MemoMap::new();
    assert_eq!(memo.get(&1), None);
    memo.insert(2, Box::new(20));
    assert_eq!(memo.get(&1), None);
    assert_eq!(memo.get(&2).map(|b| **b), Some(20));
}

#[test]
fn get_or_insert_runs_creator_once() {
    let calls = Cell::new(0u32);
    let mut memo = MemoMap::new();
    let first = memo
        .get_or_insert(&1u32, || {
            calls.set(calls.get() + 1);
            String::from("one")
        })
        .clone();
    let second = memo
        .get_or_insert(&1u32, || {
            calls.set(calls.get() + 1);
            String::from("not one")
        })
        .clone();
    assert_eq!(first, "one");
    assert_eq!(second, "one");
    assert_eq!(calls.get(), 1);
    assert_eq!(memo.len(), 1);
}

#[test]
fn get_or_insert_with_str_values() {
    let mut memo = MemoMap::new();
    assert_eq!(*memo.get_or_insert(&"key", || "23"), "23");
    assert_eq!(*memo.get_or_insert(&"key", || "24"), "23");
}

#[test]
fn len_counts_distinct_keys() {
    let mut memo = MemoMap::new();
    assert_eq!(memo.len(), 0);
    assert!(memo.is_empty());
    memo.insert(1, "a");
    memo.insert(2, "b");
    memo.insert(2, "not b");
    memo.get_or_insert(&3, || "c");
    memo.get_or_insert(&3, || "not c");
    let _ = memo.get_or_try_insert(&4, || Err::<&str, u8>(9));
    let _ = memo.get_or_try_insert(&5, || Ok::<&str, u8>("e"));
    assert_eq!(memo.len(), 4);
    assert!(!memo.is_empty());
}

#[test]
fn earlier_entries_survive_growth() {
    let mut memo = MemoMap::new();
    memo.insert(0u32, Box::new(1000u32));
    for i in 1..5000u32 {
        assert!(memo.insert(i, Box::new(i * 2)));
    }
    assert_eq!(memo.get(&0).map(|b| **b), Some(1000));
    assert_eq!(memo.get(&1234).map(|b| **b), Some(2468));
    assert_eq!(memo.len(), 5000);
}

#[test]
fn failed_creator_stores_nothing() {
    let mut memo: MemoMap<u32, String> = MemoMap::new();
    let err = memo.get_or_try_insert(&3, || Err::<String, &str>("boom"));
    assert_eq!(err, Err("boom"));
    assert!(!memo.contains_key(&3));
    assert_eq!(memo.len(), 0);
    let ok = memo.get_or_try_insert(&3, || Ok::<String, &str>(String::from("three")));
    assert_eq!(ok.map(|s| s.clone()), Ok(String::from("three")));
    assert!(memo.contains_key(&3));
}

#[test]
fn try_insert_on_present_key_skips_creator() {
    let mut memo = MemoMap::new();
    memo.insert(1u8, 10u8);
    let r = memo.get_or_try_insert(&1u8, || Err::<u8, &str>("never"));
    assert_eq!(r, Ok(&10u8));
}

#[test]
fn clone_is_independent() {
    let mut c1 = MemoMap::new();
    c1.insert(1u32, String::from("one"));
    let mut c2 = c1.clone();
    c1.insert(2u32, String::from("two"));
    assert_eq!(c1.len(), 2);
    assert_eq!(c2.len(), 1);
    assert!(!c2.contains_key(&2));
    c2.insert(3u32, String::from("three"));
    assert!(!c1.contains_key(&3));
    assert_eq!(c2.get(&1).map(|s| s.as_str()), Some("one"));
}

#[test]
fn with_hasher_and_default_start_empty() {
    let mut memo: MemoMap<u16, u16> = MemoMap::with_hasher(RandomState::new());
    assert!(memo.is_empty());
    assert!(memo.insert(5, 50));
    assert_eq!(memo.get(&5), Some(&50));
    let other: MemoMap<u16, u16> = MemoMap::default();
    assert_eq!(other.len(), 0);
    assert!(other.is_empty());
}

#[test]
fn empty_map_yields_nothing() {
    let memo: MemoMap<i32, &'static str> = MemoMap::new();
    let mut it = memo.iter();
    assert!(it.next().is_none());
    assert!(it.next().is_none());
    let mut keys = memo.keys();
    assert!(keys.next().is_none());
}
