use state_export::coinbase::{fast_epoch_simulation, select_subnets, simulate_multiple_days, SubnetEpochState, ROOT_NETUID};
use state_export::export::{decimal_bytes, export_file_name, export_storage_key};

#[test]
fn storage_key_names_block_in_decimal() {
    assert_eq!(export_storage_key(12), b"state_export::12".to_vec());
    assert_eq!(export_storage_key(0), b"state_export::0".to_vec());
    assert_eq!(export_storage_key(u32::MAX), b"state_export::4294967295".to_vec());
}

#[test]
fn file_name_uses_configured_path() {
    assert_eq!(export_file_name(&b"/data".to_vec(), 7), b"/data/chain_state_block_7.json".to_vec());
}

#[test]
fn file_name_falls_back_on_invalid_utf8() {
    assert_eq!(
        export_file_name(&vec![0xff, 0xfe], 100),
        b"/tmp/chain_state/chain_state_block_100.json".to_vec()
    );
}

#[test]
fn file_name_keeps_utf8_path() {
    let path = "/données".as_bytes().to_vec();
    let mut expected = path.clone();
    expected.extend_from_slice(b"/chain_state_block_5.json");
    assert_eq!(export_file_name(&path, 5), expected);
}

#[test]
fn decimal_digits() {
    assert_eq!(decimal_bytes(0), b"0".to_vec());
    assert_eq!(decimal_bytes(9), b"9".to_vec());
    assert_eq!(decimal_bytes(10), b"10".to_vec());
    assert_eq!(decimal_bytes(1234567), b"1234567".to_vec());
}

#[test]
fn subnets_skip_root_and_emit_only_started() {
    let netuids = vec![(ROOT_NETUID, true), (1, true), (2, false), (3, true)];
    let (subnets, emitting) = select_subnets(&netuids);
    assert_eq!(subnets, vec![1, 2, 3]);
    assert_eq!(emitting, vec![1, 3]);
}

#[test]
fn subnets_of_nothing_are_empty() {
    let (subnets, emitting) = select_subnets(&vec![(ROOT_NETUID, false)]);
    assert!(subnets.is_empty());
    assert!(emitting.is_empty());
}

#[test]
fn days_are_cut_into_batches_of_a_hundred() {
    assert_eq!(simulate_multiple_days(2, 150), vec![100, 100, 100]);
    assert_eq!(simulate_multiple_days(1, 250), vec![100, 100, 50]);
    assert_eq!(simulate_multiple_days(3, 7), vec![21]);
    assert!(simulate_multiple_days(0, 7200).is_empty());
    let batches = simulate_multiple_days(1, 7200);
    assert_eq!(batches.len(), 72);
    assert_eq!(batches.iter().map(|b| *b as u64).sum::<u64>(), 7200);
}

#[test]
fn fast_epoch_resets_counters() {
    let mut s = SubnetEpochState {
        blocks_since_last_step: 17,
        last_mechanism_step_block: 3,
        pending_emission: 100,
        pending_root_divs: 200,
        pending_alpha_swapped: 300,
        pending_owner_cut: 400,
    };
    fast_epoch_simulation(&mut s, 1234, 10);
    assert_eq!(s.blocks_since_last_step, 0);
    assert_eq!(s.last_mechanism_step_block, 1234);
    assert_eq!(s.pending_emission, 0);
    assert_eq!(s.pending_root_divs, 0);
    assert_eq!(s.pending_alpha_swapped, 0);
    assert_eq!(s.pending_owner_cut, 0);
}
