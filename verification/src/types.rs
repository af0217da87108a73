//! Data types shared with the runtime API: storage entries, chain states and
//! the export configuration, each with its abstract value.

use vstd::prelude::*;

verus! {

/// The abstract value of a storage entry: its key and its optional value.
pub type EntryModel = (Seq<u8>, Option<Seq<u8>>);

/// A storage key-value pair.
#[derive(Debug)]
pub struct StorageEntry {
    pub key: Vec<u8>,
    pub value: Option<Vec<u8>>,
}

/// Represents the complete chain state at a specific block.
#[derive(Debug)]
pub struct ChainState {
    pub block_number: u32,
    pub block_hash: Vec<u8>,
    pub storage_entries: Vec<StorageEntry>,
    pub timestamp: u64,
}

/// Configuration for state export.
#[derive(Debug)]
pub struct StateExportConfig {
    pub enabled: bool,
    /// The directory the exported files are named after, as bytes.
    pub export_path: Vec<u8>,
    /// Export every `export_frequency` blocks.
    pub export_frequency: u32,
    pub include_all_storage: bool,
    /// Only storage whose keys start with one of these prefixes is exported.
    pub storage_prefixes: Vec<Vec<u8>>,
}

/// The abstract value of a chain state.
pub struct ChainStateModel {
    pub block_number: u32,
    pub block_hash: Seq<u8>,
    pub storage_entries: Seq<EntryModel>,
    pub timestamp: u64,
}

/// The abstract value of an export configuration.
pub struct ConfigModel {
    pub enabled: bool,
    pub export_path: Seq<u8>,
    pub export_frequency: u32,
    pub include_all_storage: bool,
    pub storage_prefixes: Seq<Seq<u8>>,
}

pub open spec fn opt_bytes_view(o: Option<Vec<u8>>) -> Option<Seq<u8>> {
    match o {
        Some(v) => Some(v@),
        None => None,
    }
}

pub open spec fn entries_view(v: Seq<StorageEntry>) -> Seq<EntryModel> {
    v.map_values(|e: StorageEntry| e@)
}

pub open spec fn byte_seqs_view(v: Seq<Vec<u8>>) -> Seq<Seq<u8>> {
    v.map_values(|b: Vec<u8>| b@)
}

/// The bytes of a string made of ASCII characters.
pub open spec fn ascii_bytes(s: Seq<char>) -> Seq<u8> {
    s.map_values(|c: char| c as u8)
}

impl View for StorageEntry {
    type V = EntryModel;

    open spec fn view(&self) -> EntryModel {
        (self.key@, opt_bytes_view(self.value))
    }
}

impl View for ChainState {
    type V = ChainStateModel;

    open spec fn view(&self) -> ChainStateModel {
        ChainStateModel {
            block_number: self.block_number,
            block_hash: self.block_hash@,
            storage_entries: entries_view(self.storage_entries@),
            timestamp: self.timestamp,
        }
    }
}

impl View for StateExportConfig {
    type V = ConfigModel;

    open spec fn view(&self) -> ConfigModel {
        ConfigModel {
            enabled: self.enabled,
            export_path: self.export_path@,
            export_frequency: self.export_frequency,
            include_all_storage: self.include_all_storage,
            storage_prefixes: byte_seqs_view(self.storage_prefixes@),
        }
    }
}

/// The bytes of an ASCII string literal.
pub(crate) fn ascii_literal_bytes(s: &str) -> (r: Vec<u8>)
    requires
        s.is_ascii(),
    ensures
        r@ == ascii_bytes(s@),
{
    let b = s.as_bytes();
    proof {
        vstd::string::is_ascii_spec_bytes(s);
    }
    let r = vstd::slice::slice_to_vec(b);
    assert(r@ =~= ascii_bytes(s@));
    r
}

pub(crate) fn copy_bytes(v: &Vec<u8>) -> (r: Vec<u8>)
    ensures
        r@ == v@,
{
    let r = v.clone();
    assert(r@ =~= v@);
    r
}

pub(crate) fn copy_opt_bytes(v: &Option<Vec<u8>>) -> (r: Option<Vec<u8>>)
    ensures
        opt_bytes_view(r) == opt_bytes_view(*v),
{
    match v {
        Some(b) => Some(copy_bytes(b)),
        None => None,
    }
}

pub(crate) fn copy_byte_seqs(v: &Vec<Vec<u8>>) -> (r: Vec<Vec<u8>>)
    ensures
        byte_seqs_view(r@) == byte_seqs_view(v@),
{
    let mut r: Vec<Vec<u8>> = Vec::new();
    let mut i: usize = 0;
    while i < v.len()
        invariant
            i <= v.len(),
            r@.len() == i,
            forall|j: int| 0 <= j < i ==> #[trigger] r@[j]@ == v@[j]@,
        decreases v.len() - i,
    {
        r.push(copy_bytes(&v[i]));
        i += 1;
    }
    assert(byte_seqs_view(r@) =~= byte_seqs_view(v@));
    r
}

impl Clone for StorageEntry {
    fn clone(&self) -> (r: Self)
        ensures
            r@ == self@,
    {
        StorageEntry { key: copy_bytes(&self.key), value: copy_opt_bytes(&self.value) }
    }
}

pub(crate) fn copy_entries(v: &Vec<StorageEntry>) -> (r: Vec<StorageEntry>)
    ensures
        entries_view(r@) == entries_view(v@),
{
    let mut r: Vec<StorageEntry> = Vec::new();
    let mut i: usize = 0;
    while i < v.len()
        invariant
            i <= v.len(),
            r@.len() == i,
            forall|j: int| 0 <= j < i ==> #[trigger] r@[j]@ == v@[j]@,
        decreases v.len() - i,
    {
        r.push(v[i].clone());
        i += 1;
    }
    assert(entries_view(r@) =~= entries_view(v@));
    r
}

impl Clone for ChainState {
    fn clone(&self) -> (r: Self)
        ensures
            r@ == self@,
    {
        ChainState {
            block_number: self.block_number,
            block_hash: copy_bytes(&self.block_hash),
            storage_entries: copy_entries(&self.storage_entries),
            timestamp: self.timestamp,
        }
    }
}

impl Clone for StateExportConfig {
    fn clone(&self) -> (r: Self)
        ensures
            r@ == self@,
    {
        StateExportConfig {
            enabled: self.enabled,
            export_path: copy_bytes(&self.export_path),
            export_frequency: self.export_frequency,
            include_all_storage: self.include_all_storage,
            storage_prefixes: copy_byte_seqs(&self.storage_prefixes),
        }
    }
}

/// The chain state that stands in when none was exported: block zero, no hash,
/// no entries, timestamp zero.
impl Default for ChainState {
    fn default() -> (r: Self)
        ensures
            r@ == ChainState::default_model(),
            r.block_number == 0,
            r.block_hash@.len() == 0,
            r.storage_entries@.len() == 0,
            r.timestamp == 0,
    {
        let r = ChainState {
            block_number: 0,
            block_hash: Vec::new(),
            storage_entries: Vec::new(),
            timestamp: 0,
        };
        assert(entries_view(r.storage_entries@) =~= Seq::<EntryModel>::empty());
        r
    }
}

impl ChainState {
    /// The abstract value of the default chain state.
    pub open spec fn default_model() -> ChainStateModel {
        ChainStateModel {
            block_number: 0,
            block_hash: Seq::empty(),
            storage_entries: Seq::empty(),
            timestamp: 0,
        }
    }
}

impl StateExportConfig {
    /// The abstract value of the default configuration.
    pub open spec fn default_model() -> ConfigModel {
        ConfigModel {
            enabled: false,
            export_path: default_export_path(),
            export_frequency: 100,
            include_all_storage: false,
            storage_prefixes: Seq::empty(),
        }
    }
}

/// The path every unconfigured export is named after.
pub open spec fn default_export_path() -> Seq<u8> {
    ascii_bytes("/tmp/chain_state"@)
}

/// The configuration a fresh chain starts with: export disabled, path
/// `/tmp/chain_state`, one export every hundred blocks, prefixes only, none.
impl Default for StateExportConfig {
    fn default() -> (r: Self)
        ensures
            r@ == StateExportConfig::default_model(),
            !r.enabled,
            r.export_path@ == ascii_bytes("/tmp/chain_state"@),
            r.export_frequency == 100,
            !r.include_all_storage,
            r.storage_prefixes@.len() == 0,
    {
        proof {
            reveal_strlit("/tmp/chain_state");
        }
        let r = StateExportConfig {
            enabled: false,
            export_path: ascii_literal_bytes("/tmp/chain_state"),
            export_frequency: 100,
            include_all_storage: false,
            storage_prefixes: Vec::new(),
        };
        assert(byte_seqs_view(r.storage_prefixes@) =~= Seq::<Seq<u8>>::empty());
        r
    }
}

} // verus!
