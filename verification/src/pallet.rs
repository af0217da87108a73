//! The state-export pallet: its storage, its dispatchables, its
//! end-of-block hook and its runtime API.
//!
//! The pallet's storage items are the fields of [`Pallet`]. Where a call
//! walks runtime storage, it is split in two: the first half
//! decides and returns the [`StorageScan`] to run against the host, the second
//! half takes what the scan gathered, with the block hash and the time that
//! the host supplies, and does the rest. Every call that changes storage is
//! described by [`step`]; `lemma_history` states what any sequence of calls
//! leaves behind.

use vstd::prelude::*;
use std::collections::HashMap;
use crate::export::encode_block_hash;
use crate::scan::{initial_prefixes, initial_whole, PhaseModel, ScanModel, StorageScan};
use crate::scan_laws::{
    drive, expected_prefixes, lemma_prefix_storage_scan, lemma_whole_storage_scan, scan_measure,
    sorted_storage, stored_entries, StorageModel,
};
use crate::types::{
    ascii_bytes, ascii_literal_bytes, entries_view, ChainState, ChainStateModel, ConfigModel,
    EntryModel, StateExportConfig, StorageEntry,
};

verus! {

broadcast use vstd::std_specs::hash::group_hash_axioms;

/// Who dispatches a call.
#[derive(Debug)]
pub enum Origin {
    Root,
    Signed(Vec<u8>),
    Unsigned,
}

/// The pallet's errors.
#[derive(Debug, PartialEq, Eq, Structural)]
pub enum Error {
    /// State export is disabled.
    StateExportDisabled,
    /// Invalid configuration.
    InvalidConfiguration,
    /// State too large to export.
    StateTooLarge,
    /// Export failed.
    ExportFailed,
}

/// Why a dispatchable refused a call.
#[derive(Debug, PartialEq, Eq, Structural)]
pub enum DispatchError {
    /// The call needs the root origin.
    BadOrigin,
    Module(Error),
}

/// The pallet's events.
#[derive(Debug)]
pub enum Event {
    /// State export configuration updated.
    StateExportConfigUpdated { config: StateExportConfig },
    /// State exported successfully.
    StateExported { block_number: u32, entries_count: u32 },
    /// State export failed.
    StateExportFailed { block_number: u32, reason: Vec<u8> },
}

/// The abstract value of an event.
pub enum EventModel {
    ConfigUpdated(ConfigModel),
    Exported { block_number: u32, entries_count: u32 },
    Failed { block_number: u32, reason: Seq<u8> },
}

impl View for Event {
    type V = EventModel;

    open spec fn view(&self) -> EventModel {
        match self {
            Event::StateExportConfigUpdated { config } => EventModel::ConfigUpdated(config@),
            Event::StateExported { block_number, entries_count } => EventModel::Exported {
                block_number: *block_number,
                entries_count: *entries_count,
            },
            Event::StateExportFailed { block_number, reason } => EventModel::Failed {
                block_number: *block_number,
                reason: reason@,
            },
        }
    }
}

/// The constants a runtime configures the pallet with.
#[derive(Debug, Clone, Copy)]
pub struct Config {
    /// The maximum number of entries an exported state may hold.
    pub max_state_size: u32,
    /// The maximum number of storage prefixes a configuration may name.
    pub max_storage_prefixes: u32,
}

/// The pallet's storage.
pub struct Pallet {
    limits: Config,
    config: StateExportConfig,
    last_exported_block: u32,
    cached_states: HashMap<u32, ChainState>,
    events: Vec<Event>,
}

/// The abstract value of the pallet's storage.
pub struct PalletModel {
    pub max_state_size: u32,
    pub max_storage_prefixes: u32,
    pub config: ConfigModel,
    pub last_exported_block: u32,
    pub cached_states: Map<u32, ChainStateModel>,
    pub events: Seq<EventModel>,
}

pub open spec fn events_view(v: Seq<Event>) -> Seq<EventModel> {
    v.map_values(|e: Event| e@)
}

impl View for Pallet {
    type V = PalletModel;

    closed spec fn view(&self) -> PalletModel {
        PalletModel {
            max_state_size: self.limits.max_state_size,
            max_storage_prefixes: self.limits.max_storage_prefixes,
            config: self.config@,
            last_exported_block: self.last_exported_block,
            cached_states: self.cached_states@.map_values(|c: ChainState| c@),
            events: events_view(self.events@),
        }
    }
}

/// The scan that an export under configuration `c` runs: all of storage, or
/// the configured prefixes.
pub open spec fn export_scan(c: ConfigModel) -> ScanModel {
    if c.include_all_storage {
        initial_whole()
    } else {
        initial_prefixes(c.storage_prefixes)
    }
}

/// The number of entries an export reports: the length of the entries,
/// truncated to 32 bits.
pub open spec fn entries_count(entries: Seq<EntryModel>) -> u32 {
    entries.len() as u32
}

/// The chain state an export of `block_number` records.
pub open spec fn exported_state(
    block_number: u32,
    block_hash: Seq<u8>,
    entries: Seq<EntryModel>,
    timestamp: u64,
) -> ChainStateModel {
    ChainStateModel { block_number, block_hash, storage_entries: entries, timestamp }
}

/// An export succeeds when the count of its entries does not exceed the
/// maximum state size.
pub open spec fn export_fits(p: PalletModel, entries: Seq<EntryModel>) -> bool {
    fits_under(p.max_state_size, entries)
}

pub open spec fn fits_under(max_state_size: u32, entries: Seq<EntryModel>) -> bool {
    entries_count(entries) <= max_state_size
}

/// A configuration write is accepted: it comes with root authority and names
/// no more prefixes than the pallet allows.
pub open spec fn config_accepted(max_storage_prefixes: u32, root: bool, config: ConfigModel) -> bool {
    root && config.storage_prefixes.len() <= max_storage_prefixes
}

/// The calls that change the pallet's storage, by their abstract arguments.
pub enum PalletCall {
    /// `configure_state_export`.
    Configure { root: bool, config: ConfigModel },
    /// `set_state_export_config`.
    SetConfig { root: bool, config: ConfigModel },
    /// `finish_export_state`.
    ManualExport { block_number: u32, block_hash: Seq<u8>, entries: Seq<EntryModel>, timestamp: u64 },
    /// `finish_on_finalize`.
    HookExport { block_number: u32, block_hash: Seq<u8>, entries: Seq<EntryModel>, timestamp: u64 },
    /// `perform_state_export`, `get_chain_state`, `export_state_to_json`.
    Export { block_number: u32, block_hash: Seq<u8>, entries: Seq<EntryModel>, timestamp: u64 },
}

/// The pallet's storage after `call`.
pub open spec fn step(p: PalletModel, call: PalletCall) -> PalletModel {
    match call {
        PalletCall::Configure { root, config } => if config_accepted(p.max_storage_prefixes, root, config) {
            with_event(PalletModel { config, ..p }, EventModel::ConfigUpdated(config))
        } else {
            p
        },
        PalletCall::SetConfig { root, config } => if config_accepted(p.max_storage_prefixes, root, config) {
            PalletModel { config, ..p }
        } else {
            p
        },
        PalletCall::ManualExport { block_number, block_hash, entries, timestamp } => if export_fits(p, entries) {
            with_event(
                after_export(p, block_number, block_hash, entries, timestamp),
                EventModel::Exported { block_number, entries_count: entries_count(entries) },
            )
        } else {
            p
        },
        PalletCall::HookExport { block_number, block_hash, entries, timestamp } => if export_fits(p, entries) {
            with_event(
                after_export(p, block_number, block_hash, entries, timestamp),
                EventModel::Exported { block_number, entries_count: entries_count(entries) },
            )
        } else {
            with_event(p, EventModel::Failed { block_number, reason: auto_export_reason() })
        },
        PalletCall::Export { block_number, block_hash, entries, timestamp } => if export_fits(p, entries) {
            after_export(p, block_number, block_hash, entries, timestamp)
        } else {
            p
        },
    }
}

/// The pallet after an export that fits: the chain state is cached under its
/// block number and the block becomes the last exported one; nothing else
/// changes.
pub open spec fn after_export(
    p: PalletModel,
    block_number: u32,
    block_hash: Seq<u8>,
    entries: Seq<EntryModel>,
    timestamp: u64,
) -> PalletModel {
    PalletModel {
        last_exported_block: block_number,
        cached_states: p.cached_states.insert(
            block_number,
            exported_state(block_number, block_hash, entries, timestamp),
        ),
        ..p
    }
}

/// The pallet with one more event.
pub open spec fn with_event(p: PalletModel, e: EventModel) -> PalletModel {
    PalletModel { events: p.events.push(e), ..p }
}

/// The reason a failed automatic export gives.
pub open spec fn auto_export_reason() -> Seq<u8> {
    ascii_bytes("Auto export failed"@)
}

/// The end-of-block hook exports at block `block_number`.
pub open spec fn exports_at(c: ConfigModel, block_number: u32) -> bool {
    c.enabled && c.export_frequency > 0 && block_number % c.export_frequency == 0
}

/// The pallet's storage is consistent: every cached chain state is filed under
/// its own block number and reports no more entries than the limit allows.
pub open spec fn pallet_inv(p: PalletModel) -> bool {
    forall|b: u32| #[trigger] p.cached_states.contains_key(b) ==> {
        &&& p.cached_states[b].block_number == b
        &&& entries_count(p.cached_states[b].storage_entries) <= p.max_state_size
    }
}

impl Pallet {
    pub closed spec fn wf(&self) -> bool {
        pallet_inv(self@)
    }

    /// The pallet at genesis: the default configuration, no export yet, no
    /// cached state, no event.
    pub fn new(limits: Config) -> (p: Pallet)
        ensures
            p.wf(),
            p@.max_state_size == limits.max_state_size,
            p@.max_storage_prefixes == limits.max_storage_prefixes,
            p@.config == StateExportConfig::default_model(),
            p@.last_exported_block == 0,
            p@.cached_states == Map::<u32, ChainStateModel>::empty(),
            p@.events == Seq::<EventModel>::empty(),
    {
        let p = Pallet {
            limits,
            config: StateExportConfig::default(),
            last_exported_block: 0,
            cached_states: HashMap::new(),
            events: Vec::new(),
        };
        assert(p@.cached_states =~= Map::<u32, ChainStateModel>::empty());
        assert(p@.events =~= Seq::<EventModel>::empty());
        p
    }

    fn deposit_event(&mut self, e: Event)
        ensures
            final(self)@ == with_event(old(self)@, e@),
    {
        let ghost old_events = self.events@;
        self.events.push(e);
        assert(events_view(self.events@) =~= events_view(old_events).push(e@));
    }

    /// Configure state export settings (requires root).
    ///
    /// Refused with `BadOrigin` unless the origin is root, and with
    /// `InvalidConfiguration` when the configuration names more prefixes than
    /// the pallet allows; a refused call changes nothing. Otherwise the
    /// configuration is stored and announced.
    pub fn configure_state_export(&mut self, origin: &Origin, config: StateExportConfig) -> (r:
        Result<(), DispatchError>)
        requires
            old(self).wf(),
        ensures
            final(self).wf(),
            match r {
                Err(DispatchError::BadOrigin) => origin !is Root && final(self)@ == old(self)@,
                Err(DispatchError::Module(Error::InvalidConfiguration)) => {
                    &&& origin is Root
                    &&& config@.storage_prefixes.len() > old(self)@.max_storage_prefixes
                    &&& final(self)@ == old(self)@
                },
                Err(_) => false,
                Ok(()) => {
                    &&& origin is Root
                    &&& config@.storage_prefixes.len() <= old(self)@.max_storage_prefixes
                    &&& final(self)@ == with_event(
                        PalletModel { config: config@, ..old(self)@ },
                        EventModel::ConfigUpdated(config@),
                    )
                },
            },
            final(self)@ == step(old(self)@, PalletCall::Configure { root: origin is Root, config: config@ }),
    {
        match origin {
            Origin::Root => {},
            _ => return Err(DispatchError::BadOrigin),
        }
        if config.storage_prefixes.len() > self.limits.max_storage_prefixes as usize {
            return Err(DispatchError::Module(Error::InvalidConfiguration));
        }
        self.config = config.clone();
        self.deposit_event(Event::StateExportConfigUpdated { config });
        Ok(())
    }

    /// The scan an export runs under the stored configuration.
    pub fn state_export_scan(&self) -> (s: StorageScan)
        ensures
            s.wf(),
            s@ == export_scan(self@.config),
            !self@.config.include_all_storage ==> s@.prefixes == self@.config.storage_prefixes,
            self@.config.include_all_storage ==> s@.prefixes == seq![Seq::<u8>::empty()],
            s@.index == 0,
            s@.entries == Seq::<EntryModel>::empty(),
    {
        if self.config.include_all_storage {
            StorageScan::whole_storage()
        } else {
            StorageScan::with_prefixes(&self.config.storage_prefixes)
        }
    }

    /// Perform the actual state export, given the entries that
    /// [`Pallet::state_export_scan`] gathered, the hash of the block and the
    /// current time.
    ///
    /// Fails with "State too large", changing nothing, when the entries
    /// outnumber the maximum state size; otherwise caches the chain state
    /// under the block number, records the block as the last exported one and
    /// returns the number of entries.
    pub fn perform_state_export(
        &mut self,
        block_number: u32,
        block_hash: &[u8; 32],
        storage_entries: Vec<StorageEntry>,
        timestamp: u64,
    ) -> (r: Result<u32, &'static str>)
        requires
            old(self).wf(),
        ensures
            final(self).wf(),
            match r {
                Ok(count) => {
                    &&& export_fits(old(self)@, entries_view(storage_entries@))
                    &&& count == entries_count(entries_view(storage_entries@))
                    &&& (storage_entries@.len() <= u32::MAX ==> count == storage_entries@.len())
                    &&& count <= old(self)@.max_state_size
                    &&& final(self)@.cached_states.contains_key(block_number)
                    &&& final(self)@.cached_states[block_number].block_number == block_number
                    &&& final(self)@.cached_states[block_number].block_hash == block_hash@
                    &&& final(self)@.cached_states[block_number].storage_entries == entries_view(
                        storage_entries@,
                    )
                    &&& final(self)@.cached_states[block_number].timestamp == timestamp
                    &&& final(self)@.last_exported_block == block_number
                    &&& final(self)@ == after_export(
                        old(self)@,
                        block_number,
                        block_hash@,
                        entries_view(storage_entries@),
                        timestamp,
                    )
                },
                Err(reason) => {
                    &&& !export_fits(old(self)@, entries_view(storage_entries@))
                    &&& reason@ == "State too large"@
                    &&& final(self)@ == old(self)@
                },
            },
            final(self)@ == step(
                old(self)@,
                PalletCall::Export {
                    block_number,
                    block_hash: block_hash@,
                    entries: entries_view(storage_entries@),
                    timestamp,
                },
            ),
    {
        let count = storage_entries.len() as u32;
        if count > self.limits.max_state_size {
            return Err("State too large");
        }
        let chain_state = ChainState {
            block_number,
            block_hash: encode_block_hash(block_hash),
            storage_entries,
            timestamp,
        };
        let ghost old_map = self.cached_states@;
        let ghost state_view = chain_state@;
        self.cached_states.insert(block_number, chain_state);
        self.last_exported_block = block_number;
        proof {
            assert(self.cached_states@ == old_map.insert(block_number, chain_state));
            assert(self.cached_states@.map_values(|c: ChainState| c@) =~= old_map.map_values(
                |c: ChainState| c@,
            ).insert(block_number, state_view));
            assert(state_view.storage_entries.len() == chain_state.storage_entries@.len());
            assert forall|b: u32| #[trigger] self@.cached_states.contains_key(b) implies {
                &&& self@.cached_states[b].block_number == b
                &&& entries_count(self@.cached_states[b].storage_entries) <= self@.max_state_size
            } by {
                if b != block_number {
                    assert(old(self)@.cached_states.contains_key(b));
                }
            }
        }
        Ok(count)
    }
}

impl Pallet {
    /// Manually trigger state export (requires root): the checks that come
    /// before the export.
    ///
    /// Refused with `BadOrigin` unless the origin is root, and with
    /// `StateExportDisabled` when export is disabled; otherwise returns the
    /// scan the export runs, whose entries [`Pallet::finish_export_state`]
    /// takes; a state too large to export is refused there with
    /// `StateTooLarge`.
    pub fn export_state(&self, origin: &Origin) -> (r: Result<StorageScan, DispatchError>)
        ensures
            match r {
                Err(DispatchError::BadOrigin) => origin !is Root,
                Err(DispatchError::Module(Error::StateExportDisabled)) => origin is Root
                    && !self@.config.enabled,
                Err(_) => false,
                Ok(s) => origin is Root && self@.config.enabled && s.wf() && s@ == export_scan(
                    self@.config,
                ),
            },
    {
        match origin {
            Origin::Root => {},
            _ => return Err(DispatchError::BadOrigin),
        }
        if !self.config.enabled {
            return Err(DispatchError::Module(Error::StateExportDisabled));
        }
        Ok(self.state_export_scan())
    }

    /// Manually trigger state export: the export itself and its outcome.
    ///
    /// On success the export is recorded and announced with the number of
    /// entries. When the state is too large to export the call fails with
    /// `StateTooLarge`; as a dispatchable's storage changes (its events
    /// included) are discarded when it fails, nothing changes.
    pub fn finish_export_state(
        &mut self,
        current_block: u32,
        block_hash: &[u8; 32],
        storage_entries: Vec<StorageEntry>,
        timestamp: u64,
    ) -> (r: Result<(), DispatchError>)
        requires
            old(self).wf(),
        ensures
            final(self).wf(),
            r is Ok <==> export_fits(old(self)@, entries_view(storage_entries@)),
            r is Err ==> r == Err::<(), DispatchError>(DispatchError::Module(Error::StateTooLarge)),
            final(self)@ == step(
                old(self)@,
                PalletCall::ManualExport {
                    block_number: current_block,
                    block_hash: block_hash@,
                    entries: entries_view(storage_entries@),
                    timestamp,
                },
            ),
    {
        match self.perform_state_export(current_block, block_hash, storage_entries, timestamp) {
            Ok(entries_count) => {
                self.deposit_event(Event::StateExported { block_number: current_block, entries_count });
                Ok(())
            },
            Err(_) => Err(DispatchError::Module(Error::StateTooLarge)),
        }
    }

    /// The end-of-block hook: whether block `block_number` is exported, and
    /// if so the scan the export runs. Export happens when it is enabled, the
    /// frequency is not zero and the block number is a multiple of it.
    pub fn on_finalize(&self, block_number: u32) -> (r: Option<StorageScan>)
        ensures
            r is Some <==> exports_at(self@.config, block_number),
            r matches Some(s) ==> s.wf() && s@ == export_scan(self@.config),
            !self@.config.enabled ==> r is None,
            self@.config.export_frequency == 0 ==> r is None,
    {
        if self.config.enabled && self.config.export_frequency > 0 {
            if block_number % self.config.export_frequency == 0 {
                return Some(self.state_export_scan());
            }
        }
        None
    }

    /// The end-of-block hook: the export and its outcome. On success the
    /// export is recorded (the block becomes the last exported one) and
    /// announced; on failure the failure is announced. Returns whether the
    /// export succeeded.
    pub fn finish_on_finalize(
        &mut self,
        block_number: u32,
        block_hash: &[u8; 32],
        storage_entries: Vec<StorageEntry>,
        timestamp: u64,
    ) -> (r: bool)
        requires
            old(self).wf(),
        ensures
            final(self).wf(),
            r == export_fits(old(self)@, entries_view(storage_entries@)),
            final(self)@ == step(
                old(self)@,
                PalletCall::HookExport {
                    block_number,
                    block_hash: block_hash@,
                    entries: entries_view(storage_entries@),
                    timestamp,
                },
            ),
    {
        match self.perform_state_export(block_number, block_hash, storage_entries, timestamp) {
            Ok(entries_count) => {
                self.deposit_event(Event::StateExported { block_number, entries_count });
                true
            },
            Err(_) => {
                proof {
                    reveal_strlit("Auto export failed");
                }
                let reason = ascii_literal_bytes("Auto export failed");
                self.deposit_event(Event::StateExportFailed { block_number, reason });
                false
            },
        }
    }

    /// The stored configuration.
    pub fn state_export_config(&self) -> (r: StateExportConfig)
        ensures
            r@ == self@.config,
    {
        self.config.clone()
    }

    /// The last block a successful export recorded, whichever call made it.
    pub fn last_exported_block(&self) -> (r: u32)
        ensures
            r == self@.last_exported_block,
    {
        self.last_exported_block
    }

    /// The chain state cached for `block_number`, if any.
    pub fn cached_states(&self, block_number: u32) -> (r: Option<ChainState>)
        ensures
            match r {
                Some(c) => self@.cached_states.contains_key(block_number) && c@
                    == self@.cached_states[block_number],
                None => !self@.cached_states.contains_key(block_number),
            },
    {
        match self.cached_states.get(&block_number) {
            Some(c) => Some(c.clone()),
            None => None,
        }
    }

    /// The events deposited so far.
    pub fn events(&self) -> (r: &Vec<Event>)
        ensures
            events_view(r@) == self@.events,
    {
        &self.events
    }

    // --- The runtime API.

    /// Get the current chain state: exports the current block and returns
    /// its chain state, or the default chain state when the export fails.
    pub fn get_chain_state(
        &mut self,
        current_block: u32,
        block_hash: &[u8; 32],
        storage_entries: Vec<StorageEntry>,
        timestamp: u64,
    ) -> (r: ChainState)
        requires
            old(self).wf(),
        ensures
            final(self).wf(),
            export_fits(old(self)@, entries_view(storage_entries@)) ==> {
                &&& r@ == exported_state(
                    current_block,
                    block_hash@,
                    entries_view(storage_entries@),
                    timestamp,
                )
                &&& final(self)@ == after_export(
                    old(self)@,
                    current_block,
                    block_hash@,
                    entries_view(storage_entries@),
                    timestamp,
                )
            },
            !export_fits(old(self)@, entries_view(storage_entries@)) ==> {
                &&& r@ == ChainState::default_model()
                &&& final(self)@ == old(self)@
            },
            final(self)@ == step(
                old(self)@,
                PalletCall::Export {
                    block_number: current_block,
                    block_hash: block_hash@,
                    entries: entries_view(storage_entries@),
                    timestamp,
                },
            ),
    {
        match self.perform_state_export(current_block, block_hash, storage_entries, timestamp) {
            Ok(_) => match self.cached_states(current_block) {
                Some(c) => c,
                None => ChainState::default(),
            },
            Err(_) => ChainState::default(),
        }
    }

    /// Get chain state for a specific block: the cached one, if any.
    pub fn get_chain_state_at_block(&self, block_number: u32) -> (r: Option<ChainState>)
        ensures
            match r {
                Some(c) => self@.cached_states.contains_key(block_number) && c@
                    == self@.cached_states[block_number],
                None => !self@.cached_states.contains_key(block_number),
            },
    {
        self.cached_states(block_number)
    }

    /// Get storage entries with specific prefixes: the scan that gathers them.
    pub fn get_storage_with_prefixes(prefixes: Vec<Vec<u8>>) -> (s: StorageScan)
        ensures
            s.wf(),
            s@ == initial_prefixes(crate::types::byte_seqs_view(prefixes@)),
    {
        StorageScan::with_prefixes(&prefixes)
    }

    /// Get the current state export configuration.
    pub fn get_state_export_config(&self) -> (r: StateExportConfig)
        ensures
            r@ == self@.config,
    {
        self.state_export_config()
    }

    /// Set the state export configuration (requires root). A call without
    /// root authority, or with more prefixes than the pallet allows, is
    /// refused: it returns `false` and changes nothing. An accepted
    /// configuration is stored without an event.
    pub fn set_state_export_config(&mut self, origin: &Origin, config: StateExportConfig) -> (r: bool)
        requires
            old(self).wf(),
        ensures
            final(self).wf(),
            r == config_accepted(old(self)@.max_storage_prefixes, origin is Root, config@),
            r <==> (origin is Root && config@.storage_prefixes.len() <= old(self)@.max_storage_prefixes),
            r ==> final(self)@.config == config@ && final(self)@.cached_states == old(self)@.cached_states
                && final(self)@.events == old(self)@.events,
            !r ==> final(self)@ == old(self)@,
            final(self)@ == step(old(self)@, PalletCall::SetConfig { root: origin is Root, config: config@ }),
    {
        match origin {
            Origin::Root => {},
            _ => return false,
        }
        if config.storage_prefixes.len() > self.limits.max_storage_prefixes as usize {
            return false;
        }
        let ghost before = self@;
        self.config = config;
        assert(self@.cached_states == before.cached_states);
        true
    }

    /// Export the current state; reports whether the export succeeded.
    pub fn export_state_to_json(
        &mut self,
        current_block: u32,
        block_hash: &[u8; 32],
        storage_entries: Vec<StorageEntry>,
        timestamp: u64,
    ) -> (r: bool)
        requires
            old(self).wf(),
        ensures
            final(self).wf(),
            r == export_fits(old(self)@, entries_view(storage_entries@)),
            r ==> final(self)@ == after_export(
                old(self)@,
                current_block,
                block_hash@,
                entries_view(storage_entries@),
                timestamp,
            ),
            !r ==> final(self)@ == old(self)@,
            final(self)@ == step(
                old(self)@,
                PalletCall::Export {
                    block_number: current_block,
                    block_hash: block_hash@,
                    entries: entries_view(storage_entries@),
                    timestamp,
                },
            ),
    {
        self.perform_state_export(current_block, block_hash, storage_entries, timestamp).is_ok()
    }
}

/// What an export records is read back: after an export of block `b`, the
/// chain state cached for `b` is the one the export recorded, and the cached
/// state of every other block is as it was.
pub proof fn lemma_export_read_back(
    p: PalletModel,
    b: u32,
    block_hash: Seq<u8>,
    entries: Seq<EntryModel>,
    timestamp: u64,
    other: u32,
)
    ensures
        after_export(p, b, block_hash, entries, timestamp).cached_states.contains_key(b),
        after_export(p, b, block_hash, entries, timestamp).cached_states[b] == exported_state(
            b,
            block_hash,
            entries,
            timestamp,
        ),
        other != b ==> after_export(p, b, block_hash, entries, timestamp).cached_states.contains_key(
            other,
        ) == p.cached_states.contains_key(other),
        other != b && p.cached_states.contains_key(other) ==> after_export(
            p,
            b,
            block_hash,
            entries,
            timestamp,
        ).cached_states[other] == p.cached_states[other],
{
}

/// With export enabled every `n` blocks, the end-of-block hook exports
/// exactly one block out of any `n` consecutive ones.
pub proof fn lemma_hook_exports_once_per_period(c: ConfigModel, start: u32)
    requires
        c.enabled,
        c.export_frequency > 0,
        start + c.export_frequency - 1 <= u32::MAX,
    ensures
        exists|b: u32| start <= b < start + c.export_frequency && #[trigger] exports_at(c, b),
        forall|b1: u32, b2: u32|
            start <= b1 < start + c.export_frequency && start <= b2 < start + c.export_frequency
                && #[trigger] exports_at(c, b1) && #[trigger] exports_at(c, b2) ==> b1 == b2,
{
    let f = c.export_frequency as int;
    let s = start as int;
    let b = s + (f - s % f) % f;
    assert(s <= b < s + f && b % f == 0) by (nonlinear_arith)
        requires
            f > 0,
            s >= 0,
            b == s + (f - s % f) % f,
    ;
    assert(exports_at(c, b as u32));
    assert forall|b1: u32, b2: u32|
        start <= b1 < start + c.export_frequency && start <= b2 < start + c.export_frequency
            && #[trigger] exports_at(c, b1) && #[trigger] exports_at(c, b2) implies b1 == b2 by {
        let x = b1 as int;
        let y = b2 as int;
        assert(x == y) by (nonlinear_arith)
            requires
                f > 0,
                s <= x < s + f,
                s <= y < s + f,
                x % f == 0,
                y % f == 0,
        ;
    }
}

/// A stored configuration is read back: after a configuration is set, or
/// accepted by `configure_state_export`, the configuration read is that one.
pub proof fn lemma_config_read_back(p: PalletModel, c: ConfigModel)
    ensures
        (PalletModel { config: c, ..p }).config == c,
        with_event(PalletModel { config: c, ..p }, EventModel::ConfigUpdated(c)).config == c,
{
}

/// The pallet's storage after `calls`, in order.
pub open spec fn run(p: PalletModel, calls: Seq<PalletCall>) -> PalletModel
    decreases calls.len(),
{
    if calls.len() == 0 {
        p
    } else {
        step(run(p, calls.drop_last()), calls.last())
    }
}

/// The block and chain state that `call` records, when it is an export that
/// fits under `max_state_size`.
pub open spec fn recorded_by(call: PalletCall, max_state_size: u32) -> Option<(u32, ChainStateModel)> {
    match call {
        PalletCall::ManualExport { block_number, block_hash, entries, timestamp } => if fits_under(
            max_state_size,
            entries,
        ) {
            Some((block_number, exported_state(block_number, block_hash, entries, timestamp)))
        } else {
            None
        },
        PalletCall::HookExport { block_number, block_hash, entries, timestamp } => if fits_under(
            max_state_size,
            entries,
        ) {
            Some((block_number, exported_state(block_number, block_hash, entries, timestamp)))
        } else {
            None
        },
        PalletCall::Export { block_number, block_hash, entries, timestamp } => if fits_under(
            max_state_size,
            entries,
        ) {
            Some((block_number, exported_state(block_number, block_hash, entries, timestamp)))
        } else {
            None
        },
        _ => None,
    }
}

/// The configuration that `call` stores, when it is an accepted write.
pub open spec fn stored_by(call: PalletCall, max_storage_prefixes: u32) -> Option<ConfigModel> {
    match call {
        PalletCall::Configure { root, config } => if config_accepted(max_storage_prefixes, root, config) {
            Some(config)
        } else {
            None
        },
        PalletCall::SetConfig { root, config } => if config_accepted(max_storage_prefixes, root, config) {
            Some(config)
        } else {
            None
        },
        _ => None,
    }
}

/// The chain state of the last successful export of block `n` among `calls`.
pub open spec fn last_recorded_at(calls: Seq<PalletCall>, max_state_size: u32, n: u32) -> Option<
    ChainStateModel,
>
    decreases calls.len(),
{
    if calls.len() == 0 {
        None
    } else {
        let r = recorded_by(calls.last(), max_state_size);
        if r is Some && r->Some_0.0 == n {
            Some(r->Some_0.1)
        } else {
            last_recorded_at(calls.drop_last(), max_state_size, n)
        }
    }
}

/// The block of the last successful export among `calls`.
pub open spec fn last_exported(calls: Seq<PalletCall>, max_state_size: u32) -> Option<u32>
    decreases calls.len(),
{
    if calls.len() == 0 {
        None
    } else {
        match recorded_by(calls.last(), max_state_size) {
            Some((b, _)) => Some(b),
            None => last_exported(calls.drop_last(), max_state_size),
        }
    }
}

/// The configuration of the last accepted configuration write among `calls`.
pub open spec fn last_stored(calls: Seq<PalletCall>, max_storage_prefixes: u32) -> Option<ConfigModel>
    decreases calls.len(),
{
    if calls.len() == 0 {
        None
    } else {
        match stored_by(calls.last(), max_storage_prefixes) {
            Some(c) => Some(c),
            None => last_stored(calls.drop_last(), max_storage_prefixes),
        }
    }
}

/// Over any history of calls: the limits never change; the configuration read
/// is the one the last accepted write stored (the earlier one if none was
/// accepted); the last exported block is that of the last successful export;
/// and the chain state cached for block `n` is the one the last successful
/// export of `n` recorded, or, when `n` was never exported, what was there
/// before (nothing, from genesis).
pub proof fn lemma_history(p: PalletModel, calls: Seq<PalletCall>, n: u32)
    ensures
        run(p, calls).max_state_size == p.max_state_size,
        run(p, calls).max_storage_prefixes == p.max_storage_prefixes,
        run(p, calls).config == match last_stored(calls, p.max_storage_prefixes) {
            Some(c) => c,
            None => p.config,
        },
        run(p, calls).last_exported_block == match last_exported(calls, p.max_state_size) {
            Some(b) => b,
            None => p.last_exported_block,
        },
        match last_recorded_at(calls, p.max_state_size, n) {
            Some(cs) => run(p, calls).cached_states.contains_key(n) && run(p, calls).cached_states[n]
                == cs,
            None => run(p, calls).cached_states.contains_key(n) == p.cached_states.contains_key(n)
                && (p.cached_states.contains_key(n) ==> run(p, calls).cached_states[n]
                == p.cached_states[n]),
        },
    decreases calls.len(),
{
    if calls.len() > 0 {
        lemma_history(p, calls.drop_last(), n);
    }
}

/// The scan an export runs walks exactly what the configuration names: all
/// storage (the one empty prefix) when it includes all storage, otherwise the
/// configured prefixes, all of them, in order. Run against a sorted storage,
/// it finishes holding every stored entry, or, prefix by prefix, the entries
/// whose keys start with each configured prefix.
pub proof fn lemma_export_scan_walks_configuration(c: ConfigModel, m: StorageModel)
    ensures
        export_scan(c).index == 0,
        export_scan(c).entries == Seq::<EntryModel>::empty(),
        !c.include_all_storage ==> export_scan(c).prefixes == c.storage_prefixes,
        c.include_all_storage ==> export_scan(c).prefixes == seq![Seq::<u8>::empty()],
        !c.include_all_storage && c.storage_prefixes.len() > 0 ==> export_scan(c).phase
            == PhaseModel::Value(c.storage_prefixes[0]),
        sorted_storage(m) && c.include_all_storage ==> drive(
            export_scan(c),
            m,
            scan_measure(export_scan(c), m),
        ).entries == stored_entries(m),
        sorted_storage(m) && !c.include_all_storage ==> drive(
            export_scan(c),
            m,
            scan_measure(export_scan(c), m),
        ).entries == expected_prefixes(m, c.storage_prefixes),
{
    if sorted_storage(m) {
        if c.include_all_storage {
            lemma_whole_storage_scan(m);
        } else {
            lemma_prefix_storage_scan(c.storage_prefixes, m);
        }
    }
}

/// An export that fits records its inputs unchanged: the chain state cached
/// for block `b` has block number `b`, the given hash, entries and timestamp,
/// and `b` becomes the last exported block.
pub proof fn lemma_export_records_given_values(
    p: PalletModel,
    b: u32,
    block_hash: Seq<u8>,
    entries: Seq<EntryModel>,
    timestamp: u64,
)
    ensures
        after_export(p, b, block_hash, entries, timestamp).cached_states.contains_key(b),
        after_export(p, b, block_hash, entries, timestamp).cached_states[b].block_number == b,
        after_export(p, b, block_hash, entries, timestamp).cached_states[b].block_hash == block_hash,
        after_export(p, b, block_hash, entries, timestamp).cached_states[b].storage_entries == entries,
        after_export(p, b, block_hash, entries, timestamp).cached_states[b].timestamp == timestamp,
        after_export(p, b, block_hash, entries, timestamp).last_exported_block == b,
        after_export(p, b, block_hash, entries, timestamp).config == p.config,
        after_export(p, b, block_hash, entries, timestamp).events == p.events,
{
}

/// The number of entries an export reports is the number of entries, when it
/// fits in 32 bits; an export fits exactly when that number is within the
/// maximum state size.
pub proof fn lemma_entries_count(p: PalletModel, entries: Seq<EntryModel>)
    ensures
        entries.len() <= u32::MAX ==> entries_count(entries) == entries.len(),
        entries.len() <= u32::MAX ==> (export_fits(p, entries) <==> entries.len() <= p.max_state_size),
{
}

/// The end-of-block hook never exports while export is disabled or its
/// frequency is zero; whether it exports depends on nothing but the enabled
/// flag, the frequency and the block; and with export enabled every `f`
/// blocks it exports every block that is a multiple of `f`, and no other.
pub proof fn lemma_hook_schedule(c: ConfigModel, d: ConfigModel, b: u32, k: nat)
    ensures
        !c.enabled ==> !exports_at(c, b),
        c.export_frequency == 0 ==> !exports_at(c, b),
        c.enabled == d.enabled && c.export_frequency == d.export_frequency ==> exports_at(c, b)
            == exports_at(d, b),
        c.enabled && c.export_frequency > 0 && k * c.export_frequency <= u32::MAX ==> exports_at(
            c,
            (k * c.export_frequency) as u32,
        ),
        c.enabled && c.export_frequency > 0 && exports_at(c, b) ==> exists|q: nat|
            #[trigger] (q * c.export_frequency) == b,
{
    if c.enabled && c.export_frequency > 0 {
        let f = c.export_frequency as int;
        if k * c.export_frequency <= u32::MAX {
            assert(((k * f) as u32) as int == k * f);
            assert((k * f) % f == 0) by (nonlinear_arith)
                requires
                    f > 0,
            ;
        }
        if exports_at(c, b) {
            let bi = b as int;
            let q = (bi / f) as nat;
            assert(bi % f == 0);
            assert(q * f == bi) by (nonlinear_arith)
                requires
                    f > 0,
                    bi >= 0,
                    bi % f == 0,
                    q == bi / f,
            ;
            assert(q * c.export_frequency == b);
        }
    }
}

} // verus!
