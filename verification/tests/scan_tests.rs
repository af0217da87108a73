use std::collections::BTreeMap;
use std::ops::Bound::{Excluded, Unbounded};

use state_export::scan::{StorageRequest, StorageScan};
use state_export::types::StorageEntry;

fn storage(pairs: &[(&[u8], &[u8])]) -> BTreeMap<Vec<u8>, Vec<u8>> {
    pairs.iter().map(|(k, v)| (k.to_vec(), v.to_vec())).collect()
}

fn run(mut scan: StorageScan, store: &BTreeMap<Vec<u8>, Vec<u8>>) -> Vec<StorageEntry> {
    let mut steps = 0;
    loop {
        steps += 1;
        assert!(steps < 10_000, "scan does not finish");
        match scan.next_request() {
            StorageRequest::NextKey(after) => {
                let next = store.range::<Vec<u8>, _>((Excluded(&after), Unbounded)).next().map(|(k, _)| k.clone());
                scan.on_next_key(next);
            }
            StorageRequest::Get(key) => scan.on_value(store.get(&key).cloned()),
            StorageRequest::Done => break,
        }
    }
    scan.into_entries()
}

fn pairs(entries: &[StorageEntry]) -> Vec<(Vec<u8>, Option<Vec<u8>>)> {
    entries.iter().map(|e| (e.key.clone(), e.value.clone())).collect()
}

fn some(k: &[u8], v: &[u8]) -> (Vec<u8>, Option<Vec<u8>>) {
    (k.to_vec(), Some(v.to_vec()))
}

#[test]
fn whole_storage_gathers_every_entry_in_key_order() {
    let store = storage(&[(b"b", b"2"), (b"a", b"1"), (b"ab", b"3")]);
    let entries = run(StorageScan::whole_storage(), &store);
    assert_eq!(pairs(&entries), vec![some(b"a", b"1"), some(b"ab", b"3"), some(b"b", b"2")]);
}

#[test]
fn whole_storage_of_empty_storage_is_empty() {
    let store = storage(&[]);
    assert!(run(StorageScan::whole_storage(), &store).is_empty());
}

#[test]
fn whole_storage_gathers_the_empty_key_with_the_others() {
    let store = storage(&[(b"", b"root"), (b"k", b"v")]);
    let entries = run(StorageScan::whole_storage(), &store);
    assert_eq!(pairs(&entries), vec![some(b"", b"root"), some(b"k", b"v")]);
}

#[test]
fn whole_storage_keeps_the_empty_key_when_alone() {
    let store = storage(&[(b"", b"root")]);
    let entries = run(StorageScan::whole_storage(), &store);
    assert_eq!(pairs(&entries), vec![some(b"", b"root")]);
}

#[test]
fn prefix_scan_gathers_keys_that_start_with_the_prefix() {
    let store = storage(&[
        (b"a", b"0"),
        (b"ab", b"1"),
        (b"abc", b"2"),
        (b"abd", b"3"),
        (b"ac", b"4"),
        (b"b", b"5"),
    ]);
    let entries = run(StorageScan::with_prefixes(&vec![b"ab".to_vec()]), &store);
    // the key equal to the prefix itself starts with it too
    assert_eq!(pairs(&entries), vec![some(b"ab", b"1"), some(b"abc", b"2"), some(b"abd", b"3")]);
}

#[test]
fn prefix_scan_walks_prefixes_in_turn_and_repeats_overlaps() {
    let store = storage(&[(b"x1", b"a"), (b"x2", b"b"), (b"y1", b"c")]);
    let prefixes = vec![b"y".to_vec(), b"x".to_vec(), b"x2".to_vec(), b"x".to_vec()];
    let entries = run(StorageScan::with_prefixes(&prefixes), &store);
    assert_eq!(
        pairs(&entries),
        vec![
            some(b"y1", b"c"),
            some(b"x1", b"a"),
            some(b"x2", b"b"),
            some(b"x2", b"b"),
            some(b"x1", b"a"),
            some(b"x2", b"b"),
        ]
    );
}

#[test]
fn prefix_scan_without_prefixes_is_done_at_once() {
    let scan = StorageScan::with_prefixes(&Vec::new());
    assert!(scan.is_done());
    assert!(matches!(scan.next_request(), StorageRequest::Done));
    assert!(scan.into_entries().is_empty());
}

#[test]
fn prefix_scan_with_missing_prefix_is_empty() {
    let store = storage(&[(b"a", b"1"), (b"c", b"2")]);
    let entries = run(StorageScan::with_prefixes(&vec![b"b".to_vec(), b"z".to_vec()]), &store);
    assert!(entries.is_empty());
}

#[test]
fn empty_prefix_gathers_all_keys() {
    let store = storage(&[(b"", b"e"), (b"q", b"1")]);
    let entries = run(StorageScan::with_prefixes(&vec![Vec::new()]), &store);
    assert_eq!(pairs(&entries), vec![some(b"", b"e"), some(b"q", b"1")]);
}

#[test]
fn prefix_scan_includes_key_equal_to_prefix() {
    let store = storage(&[(&[1], &[7]), (&[1, 2], &[8]), (&[2], &[9])]);
    let entries = run(StorageScan::with_prefixes(&vec![vec![1]]), &store);
    assert_eq!(pairs(&entries), vec![(vec![1], Some(vec![7])), (vec![1, 2], Some(vec![8]))]);
}

#[test]
fn absent_value_is_not_gathered() {
    let mut scan = StorageScan::with_prefixes(&vec![b"p".to_vec()]);
    assert!(matches!(scan.next_request(), StorageRequest::Get(ref k) if k == b"p"));
    scan.on_value(None);
    assert!(matches!(scan.next_request(), StorageRequest::NextKey(ref k) if k == b"p"));
    scan.on_next_key(Some(b"p1".to_vec()));
    assert!(matches!(scan.next_request(), StorageRequest::Get(ref k) if k == b"p1"));
    scan.on_value(None);
    assert!(matches!(scan.next_request(), StorageRequest::NextKey(ref k) if k == b"p1"));
    scan.on_next_key(Some(b"q".to_vec()));
    assert!(scan.is_done());
    assert!(scan.into_entries().is_empty());
}

#[test]
fn whole_scan_first_asks_for_the_empty_key() {
    let mut scan = StorageScan::whole_storage();
    assert!(matches!(scan.next_request(), StorageRequest::Get(ref k) if k.is_empty()));
    scan.on_value(None);
    assert!(matches!(scan.next_request(), StorageRequest::NextKey(ref k) if k.is_empty()));
    scan.on_next_key(None);
    assert!(scan.is_done());
}
