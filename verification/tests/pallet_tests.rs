use std::collections::BTreeMap;
use std::ops::Bound::{Excluded, Unbounded};

use state_export::pallet::{Config, DispatchError, Error, Event, Origin, Pallet};
use state_export::scan::{StorageRequest, StorageScan};
use state_export::types::{ChainState, StateExportConfig, StorageEntry};

const LIMITS: Config = Config { max_state_size: 3, max_storage_prefixes: 2 };

fn run(mut scan: StorageScan, store: &BTreeMap<Vec<u8>, Vec<u8>>) -> Vec<StorageEntry> {
    loop {
        match scan.next_request() {
            StorageRequest::NextKey(after) => {
                let next = store.range::<Vec<u8>, _>((Excluded(&after), Unbounded)).next().map(|(k, _)| k.clone());
                scan.on_next_key(next);
            }
            StorageRequest::Get(key) => scan.on_value(store.get(&key).cloned()),
            StorageRequest::Done => break,
        }
    }
    scan.into_entries()
}

fn store() -> BTreeMap<Vec<u8>, Vec<u8>> {
    let mut m = BTreeMap::new();
    m.insert(b"sys:a".to_vec(), b"1".to_vec());
    m.insert(b"sys:b".to_vec(), b"2".to_vec());
    m.insert(b"bal:x".to_vec(), b"3".to_vec());
    m.insert(b"bal:y".to_vec(), b"4".to_vec());
    m
}

fn config(enabled: bool, frequency: u32, all: bool, prefixes: Vec<Vec<u8>>) -> StateExportConfig {
    StateExportConfig {
        enabled,
        export_path: b"/var/export".to_vec(),
        export_frequency: frequency,
        include_all_storage: all,
        storage_prefixes: prefixes,
    }
}

fn entry(k: &[u8], v: &[u8]) -> StorageEntry {
    StorageEntry { key: k.to_vec(), value: Some(v.to_vec()) }
}

fn enabled_pallet(all: bool, prefixes: Vec<Vec<u8>>) -> Pallet {
    let mut p = Pallet::new(LIMITS);
    assert!(p.set_state_export_config(&Origin::Root, config(true, 10, all, prefixes)));
    p
}

#[test]
fn default_config_values() {
    let c = StateExportConfig::default();
    assert!(!c.enabled);
    assert_eq!(c.export_path, b"/tmp/chain_state".to_vec());
    assert_eq!(c.export_frequency, 100);
    assert!(!c.include_all_storage);
    assert!(c.storage_prefixes.is_empty());
}

#[test]
fn default_chain_state_values() {
    let s = ChainState::default();
    assert_eq!(s.block_number, 0);
    assert!(s.block_hash.is_empty());
    assert!(s.storage_entries.is_empty());
    assert_eq!(s.timestamp, 0);
}

#[test]
fn genesis_pallet_uses_default_config() {
    let p = Pallet::new(LIMITS);
    let c = p.get_state_export_config();
    assert!(!c.enabled);
    assert_eq!(c.export_frequency, 100);
    assert_eq!(p.last_exported_block(), 0);
    assert!(p.events().is_empty());
    assert!(p.get_chain_state_at_block(0).is_none());
}

#[test]
fn configure_requires_root() {
    let mut p = Pallet::new(LIMITS);
    let r = p.configure_state_export(&Origin::Signed(vec![1; 32]), config(true, 5, false, vec![]));
    assert_eq!(r, Err(DispatchError::BadOrigin));
    let r = p.configure_state_export(&Origin::Unsigned, config(true, 5, false, vec![]));
    assert_eq!(r, Err(DispatchError::BadOrigin));
    assert!(!p.get_state_export_config().enabled);
    assert!(p.events().is_empty());
}

#[test]
fn configure_rejects_too_many_prefixes() {
    let mut p = Pallet::new(LIMITS);
    let r = p.configure_state_export(&Origin::Root, config(true, 5, false, vec![vec![1], vec![2], vec![3]]));
    assert_eq!(r, Err(DispatchError::Module(Error::InvalidConfiguration)));
    assert!(!p.get_state_export_config().enabled);
    assert!(p.events().is_empty());
}

#[test]
fn configure_stores_and_announces() {
    let mut p = Pallet::new(LIMITS);
    let r = p.configure_state_export(&Origin::Root, config(true, 5, false, vec![vec![1], vec![2]]));
    assert_eq!(r, Ok(()));
    let c = p.get_state_export_config();
    assert!(c.enabled);
    assert_eq!(c.export_frequency, 5);
    assert_eq!(c.storage_prefixes, vec![vec![1], vec![2]]);
    assert_eq!(p.events().len(), 1);
    match &p.events()[0] {
        Event::StateExportConfigUpdated { config } => assert_eq!(config.export_frequency, 5),
        other => panic!("unexpected event {:?}", other),
    }
}

#[test]
fn set_config_requires_root() {
    let mut p = Pallet::new(LIMITS);
    assert!(!p.set_state_export_config(&Origin::Signed(vec![2]), config(true, 1, false, vec![])));
    assert!(!p.set_state_export_config(&Origin::Unsigned, config(true, 1, false, vec![])));
    assert!(!p.get_state_export_config().enabled);
}

#[test]
fn set_config_rejects_too_many_prefixes() {
    let mut p = Pallet::new(LIMITS);
    assert!(!p.set_state_export_config(&Origin::Root, config(true, 1, false, vec![vec![1], vec![2], vec![3]])));
    assert!(p.get_state_export_config().storage_prefixes.is_empty());
    assert!(!p.get_state_export_config().enabled);
}

#[test]
fn set_config_stores_silently() {
    let mut p = Pallet::new(LIMITS);
    assert!(p.set_state_export_config(&Origin::Root, config(true, 1, false, vec![vec![1], vec![2]])));
    assert_eq!(p.get_state_export_config().storage_prefixes.len(), 2);
    assert!(p.events().is_empty());
}

#[test]
fn export_state_requires_root() {
    let p = enabled_pallet(true, vec![]);
    assert!(matches!(p.export_state(&Origin::Signed(vec![7])), Err(DispatchError::BadOrigin)));
}

#[test]
fn export_state_refused_when_disabled() {
    let p = Pallet::new(LIMITS);
    assert!(matches!(
        p.export_state(&Origin::Root),
        Err(DispatchError::Module(Error::StateExportDisabled))
    ));
}

#[test]
fn export_state_exports_configured_prefixes() {
    let mut p = enabled_pallet(false, vec![b"bal:".to_vec()]);
    let scan = p.export_state(&Origin::Root).expect("root may export");
    let entries = run(scan, &store());
    assert_eq!(entries.len(), 2);
    let hash = [9u8; 32];
    assert_eq!(p.finish_export_state(42, &hash, entries, 1_000), Ok(()));
    assert_eq!(p.last_exported_block(), 42);
    let state = p.get_chain_state_at_block(42).expect("cached");
    assert_eq!(state.block_number, 42);
    assert_eq!(state.block_hash, vec![9u8; 32]);
    assert_eq!(state.timestamp, 1_000);
    assert_eq!(state.storage_entries[0].key, b"bal:x".to_vec());
    assert_eq!(state.storage_entries[1].value, Some(b"4".to_vec()));
    match p.events().last() {
        Some(Event::StateExported { block_number, entries_count }) => {
            assert_eq!(*block_number, 42);
            assert_eq!(*entries_count, 2);
        }
        other => panic!("unexpected event {:?}", other),
    }
}

#[test]
fn export_state_fails_when_state_too_large() {
    let mut p = enabled_pallet(true, vec![]);
    let scan = p.export_state(&Origin::Root).expect("root may export");
    let entries = run(scan, &store());
    assert_eq!(entries.len(), 4);
    let events_before = p.events().len();
    let r = p.finish_export_state(8, &[0u8; 32], entries, 5);
    assert_eq!(r, Err(DispatchError::Module(Error::StateTooLarge)));
    // a failed dispatchable leaves storage, events included, as it was
    assert!(p.get_chain_state_at_block(8).is_none());
    assert_eq!(p.events().len(), events_before);
    assert_eq!(p.last_exported_block(), 0);
}

#[test]
fn perform_state_export_reports_count_and_limit() {
    let mut p = Pallet::new(LIMITS);
    let three = vec![entry(b"a", b"1"), entry(b"b", b"2"), entry(b"c", b"3")];
    assert_eq!(p.perform_state_export(1, &[1u8; 32], three, 2), Ok(3));
    assert_eq!(p.last_exported_block(), 1);
    let four = vec![entry(b"a", b"1"), entry(b"b", b"2"), entry(b"c", b"3"), entry(b"d", b"4")];
    assert_eq!(p.perform_state_export(2, &[1u8; 32], four, 2), Err("State too large"));
    assert!(p.get_chain_state_at_block(1).is_some());
    assert!(p.get_chain_state_at_block(2).is_none());
    assert_eq!(p.last_exported_block(), 1);
    assert!(p.events().is_empty());
}

#[test]
fn later_export_of_same_block_replaces_cached_state() {
    let mut p = Pallet::new(LIMITS);
    assert_eq!(p.perform_state_export(3, &[1u8; 32], vec![entry(b"a", b"1")], 10), Ok(1));
    assert_eq!(p.perform_state_export(3, &[2u8; 32], vec![], 20), Ok(0));
    let s = p.get_chain_state_at_block(3).unwrap();
    assert_eq!(s.timestamp, 20);
    assert_eq!(s.block_hash, vec![2u8; 32]);
    assert!(s.storage_entries.is_empty());
}

#[test]
fn hook_exports_at_multiples_of_frequency() {
    let p = enabled_pallet(true, vec![]);
    assert!(p.on_finalize(0).is_some());
    assert!(p.on_finalize(10).is_some());
    assert!(p.on_finalize(20).is_some());
    assert!(p.on_finalize(11).is_none());
    assert!(p.on_finalize(9).is_none());
}

#[test]
fn hook_never_exports_when_disabled_or_frequency_zero() {
    let mut p = Pallet::new(LIMITS);
    assert!(p.on_finalize(100).is_none());
    assert!(p.set_state_export_config(&Origin::Root, config(true, 0, true, vec![])));
    assert!(p.on_finalize(0).is_none());
    assert!(p.on_finalize(100).is_none());
}

#[test]
fn hook_records_last_exported_block() {
    let mut p = enabled_pallet(false, vec![b"sys:".to_vec()]);
    let scan = p.on_finalize(30).expect("block 30 is exported");
    let entries = run(scan, &store());
    assert!(p.finish_on_finalize(30, &[3u8; 32], entries, 77));
    assert_eq!(p.last_exported_block(), 30);
    assert_eq!(p.get_chain_state_at_block(30).unwrap().storage_entries.len(), 2);
    assert!(matches!(
        p.events().last(),
        Some(Event::StateExported { block_number: 30, entries_count: 2 })
    ));
}

#[test]
fn hook_reports_failed_auto_export() {
    let mut p = enabled_pallet(true, vec![]);
    let scan = p.on_finalize(40).expect("block 40 is exported");
    let entries = run(scan, &store());
    assert!(!p.finish_on_finalize(40, &[3u8; 32], entries, 77));
    assert_eq!(p.last_exported_block(), 0);
    match p.events().last() {
        Some(Event::StateExportFailed { block_number, reason }) => {
            assert_eq!(*block_number, 40);
            assert_eq!(reason, &b"Auto export failed".to_vec());
        }
        other => panic!("unexpected event {:?}", other),
    }
}

#[test]
fn get_chain_state_returns_exported_or_default() {
    let mut p = Pallet::new(LIMITS);
    let s = p.get_chain_state(4, &[5u8; 32], vec![entry(b"k", b"v")], 99);
    assert_eq!(s.block_number, 4);
    assert_eq!(s.timestamp, 99);
    assert_eq!(s.storage_entries.len(), 1);
    let too_many = vec![entry(b"a", b"1"), entry(b"b", b"2"), entry(b"c", b"3"), entry(b"d", b"4")];
    let d = p.get_chain_state(5, &[5u8; 32], too_many, 99);
    assert_eq!(d.block_number, 0);
    assert_eq!(d.timestamp, 0);
    assert!(d.block_hash.is_empty());
    assert!(p.get_chain_state_at_block(5).is_none());
}

#[test]
fn export_state_to_json_reports_success() {
    let mut p = Pallet::new(LIMITS);
    assert!(p.export_state_to_json(6, &[0u8; 32], vec![], 1));
    assert!(p.get_chain_state_at_block(6).is_some());
    let too_many = vec![entry(b"a", b"1"), entry(b"b", b"2"), entry(b"c", b"3"), entry(b"d", b"4")];
    assert!(!p.export_state_to_json(7, &[0u8; 32], too_many, 1));
    assert!(p.get_chain_state_at_block(7).is_none());
}

#[test]
fn get_storage_with_prefixes_scans_given_prefixes() {
    let entries = run(Pallet::get_storage_with_prefixes(vec![b"sys:".to_vec()]), &store());
    let keys: Vec<Vec<u8>> = entries.iter().map(|e| e.key.clone()).collect();
    assert_eq!(keys, vec![b"sys:a".to_vec(), b"sys:b".to_vec()]);
}

#[test]
fn state_export_scan_follows_configuration() {
    let p = enabled_pallet(true, vec![b"sys:".to_vec()]);
    assert_eq!(run(p.state_export_scan(), &store()).len(), 4);
    let p = enabled_pallet(false, vec![b"sys:".to_vec()]);
    assert_eq!(run(p.state_export_scan(), &store()).len(), 2);
}

#[test]
fn cloned_chain_state_is_equal() {
    let s = ChainState {
        block_number: 1,
        block_hash: vec![1, 2],
        storage_entries: vec![entry(b"k", b"v"), StorageEntry { key: vec![3], value: None }],
        timestamp: 9,
    };
    let c = s.clone();
    assert_eq!(c.block_hash, s.block_hash);
    assert_eq!(c.storage_entries[1].value, None);
    assert_eq!(c.storage_entries[0].key, b"k".to_vec());
}

#[test]
fn hook_exports_once_in_any_period() {
    let p = enabled_pallet(true, vec![]);
    for start in [0u32, 3, 10, 95] {
        let exported: Vec<u32> = (start..start + 10).filter(|b| p.on_finalize(*b).is_some()).collect();
        assert_eq!(exported.len(), 1, "window starting at {}", start);
        assert_eq!(exported[0] % 10, 0);
    }
}

#[test]
fn export_is_read_back_and_other_blocks_untouched() {
    let mut p = Pallet::new(LIMITS);
    assert_eq!(p.perform_state_export(1, &[1u8; 32], vec![entry(b"a", b"1")], 11), Ok(1));
    assert_eq!(p.perform_state_export(2, &[2u8; 32], vec![], 22), Ok(0));
    let one = p.get_chain_state_at_block(1).unwrap();
    assert_eq!(one.timestamp, 11);
    assert_eq!(one.storage_entries.len(), 1);
    assert_eq!(p.get_chain_state_at_block(2).unwrap().timestamp, 22);
}

#[test]
fn runtime_api_exports_record_last_exported_block() {
    let mut p = Pallet::new(LIMITS);
    let _ = p.get_chain_state(9, &[0u8; 32], vec![], 1);
    assert_eq!(p.last_exported_block(), 9);
    assert!(p.export_state_to_json(12, &[0u8; 32], vec![], 1));
    assert_eq!(p.last_exported_block(), 12);
}

#[test]
fn config_read_is_last_accepted_write() {
    let mut p = Pallet::new(LIMITS);
    assert_eq!(p.configure_state_export(&Origin::Root, config(true, 7, false, vec![])), Ok(()));
    assert!(!p.set_state_export_config(&Origin::Unsigned, config(false, 9, false, vec![])));
    assert!(p.configure_state_export(&Origin::Root, config(false, 3, false, vec![vec![1], vec![2], vec![3]])).is_err());
    assert_eq!(p.get_state_export_config().export_frequency, 7);
    assert!(p.set_state_export_config(&Origin::Root, config(false, 11, false, vec![])));
    assert_eq!(p.get_state_export_config().export_frequency, 11);
}
