//! The storage scan that gathers the entries of a state export.
//!
//! Walking runtime storage takes calls to the host (`next_key`, `get`), so the
//! scan is a state machine: it names the call it needs (`next_request`), and
//! the caller performs it and hands back the answer (`on_next_key`,
//! `on_value`). Every decision between two calls is made here: whether a key
//! still belongs to the current prefix, whether a value is kept, which prefix
//! comes next and when the scan is over.
//!
//! Each prefix is walked by first asking for the value stored under the prefix
//! itself, then for the keys after it for as long as they start with the
//! prefix. A scan of all storage walks the empty prefix, which every key
//! starts with.

use vstd::prelude::*;
use crate::order::is_prefix;
use crate::types::{byte_seqs_view, copy_byte_seqs, copy_bytes, entries_view, opt_bytes_view, EntryModel, StorageEntry};

verus! {

/// The call that the scan waits for.
pub enum StorageRequest {
    /// The next key in storage after this one.
    NextKey(Vec<u8>),
    /// The value stored under this key.
    Get(Vec<u8>),
    /// The scan is over.
    Done,
}

enum Phase {
    NextKey { after: Vec<u8> },
    Value { key: Vec<u8> },
    Done,
}

/// A scan of the storage under given prefixes (all storage is under the
/// empty prefix).
pub struct StorageScan {
    prefixes: Vec<Vec<u8>>,
    index: usize,
    phase: Phase,
    entries: Vec<StorageEntry>,
}

/// The abstract phase of a scan.
pub enum PhaseModel {
    NextKey(Seq<u8>),
    Value(Seq<u8>),
    Done,
}

/// The abstract state of a scan.
pub struct ScanModel {
    pub prefixes: Seq<Seq<u8>>,
    /// The prefix being walked.
    pub index: nat,
    pub phase: PhaseModel,
    /// The entries gathered so far.
    pub entries: Seq<EntryModel>,
}

impl View for StorageScan {
    type V = ScanModel;

    closed spec fn view(&self) -> ScanModel {
        ScanModel {
            prefixes: byte_seqs_view(self.prefixes@),
            index: self.index as nat,
            phase: match self.phase {
                Phase::NextKey { after } => PhaseModel::NextKey(after@),
                Phase::Value { key } => PhaseModel::Value(key@),
                Phase::Done => PhaseModel::Done,
            },
            entries: entries_view(self.entries@),
        }
    }
}

/// The scan is well formed: it walks an existing prefix unless it is over.
pub open spec fn scan_wf(s: ScanModel) -> bool {
    &&& (s.phase !is Done ==> s.index < s.prefixes.len())
    &&& (s.phase is Done ==> s.index == s.prefixes.len())
}

/// The scan of the keys under `prefixes` before any call: it first asks for
/// the value under the first prefix.
pub open spec fn initial_prefixes(prefixes: Seq<Seq<u8>>) -> ScanModel {
    ScanModel {
        prefixes: prefixes,
        index: 0,
        phase: if prefixes.len() == 0 {
            PhaseModel::Done
        } else {
            PhaseModel::Value(prefixes[0])
        },
        entries: Seq::empty(),
    }
}

/// The scan of all storage before any call: a scan of the empty prefix.
pub open spec fn initial_whole() -> ScanModel {
    initial_prefixes(seq![Seq::<u8>::empty()])
}

/// Moving on to the next prefix, or ending the scan after the last one.
pub open spec fn advance(s: ScanModel) -> ScanModel {
    let next = s.index + 1;
    ScanModel {
        index: next,
        phase: if next < s.prefixes.len() {
            PhaseModel::Value(s.prefixes[next as int])
        } else {
            PhaseModel::Done
        },
        ..s
    }
}

/// The scan after the host answered a `NextKey` request with `response`: a
/// key that starts with the current prefix is asked for its value; a missing
/// key, or one outside the current prefix, ends the walk of that prefix.
pub open spec fn after_next_key(s: ScanModel, response: Option<Seq<u8>>) -> ScanModel {
    match response {
        None => advance(s),
        Some(k) => if is_prefix(s.prefixes[s.index as int], k) {
            ScanModel { phase: PhaseModel::Value(k), ..s }
        } else {
            advance(s)
        },
    }
}

/// The scan after the host answered a `Get` request for `key` with `value`:
/// a present value is gathered, then the scan asks for the key after `key`.
pub open spec fn after_value(s: ScanModel, key: Seq<u8>, value: Option<Seq<u8>>) -> ScanModel {
    ScanModel {
        phase: PhaseModel::NextKey(key),
        entries: match value {
            Some(v) => s.entries.push((key, Some(v))),
            None => s.entries,
        },
        ..s
    }
}

/// Whether `prefix` is a prefix of `key`.
pub fn has_prefix(key: &[u8], prefix: &[u8]) -> (r: bool)
    ensures
        r == is_prefix(prefix@, key@),
{
    if prefix.len() > key.len() {
        return false;
    }
    let mut i: usize = 0;
    while i < prefix.len()
        invariant
            prefix.len() <= key.len(),
            i <= prefix.len(),
            forall|j: int| 0 <= j < i ==> key@[j] == prefix@[j],
        decreases prefix.len() - i,
    {
        if key[i] != prefix[i] {
            assert(key@.take(prefix.len() as int)[i as int] != prefix@[i as int]);
            return false;
        }
        i += 1;
    }
    assert(key@.take(prefix.len() as int) =~= prefix@);
    true
}

impl StorageScan {
    pub closed spec fn wf(&self) -> bool {
        &&& scan_wf(self@)
        &&& self.prefixes@.len() == self@.prefixes.len()
    }

    /// A scan of all storage, as the export of all storage walks it: the
    /// scan of the empty prefix.
    pub fn whole_storage() -> (s: StorageScan)
        ensures
            s.wf(),
            s@ == initial_whole(),
    {
        let mut prefixes: Vec<Vec<u8>> = Vec::new();
        prefixes.push(Vec::new());
        let s = StorageScan::with_prefixes(&prefixes);
        assert(byte_seqs_view(prefixes@) =~= seq![Seq::<u8>::empty()]);
        s
    }

    /// A scan of the keys that start with any of `prefixes`, prefix by prefix.
    pub fn with_prefixes(prefixes: &Vec<Vec<u8>>) -> (s: StorageScan)
        ensures
            s.wf(),
            s@ == initial_prefixes(byte_seqs_view(prefixes@)),
    {
        let prefixes = copy_byte_seqs(prefixes);
        let phase = if prefixes.len() == 0 {
            Phase::Done
        } else {
            Phase::Value { key: copy_bytes(&prefixes[0]) }
        };
        let s = StorageScan { prefixes, index: 0, phase, entries: Vec::new() };
        assert(s@.entries =~= Seq::<EntryModel>::empty());
        s
    }

    /// The call the scan waits for.
    pub fn next_request(&self) -> (r: StorageRequest)
        ensures
            match self@.phase {
                PhaseModel::NextKey(a) => r matches StorageRequest::NextKey(k) && k@ == a,
                PhaseModel::Value(key) => r matches StorageRequest::Get(k) && k@ == key,
                PhaseModel::Done => r is Done,
            },
    {
        match &self.phase {
            Phase::NextKey { after } => StorageRequest::NextKey(copy_bytes(after)),
            Phase::Value { key } => StorageRequest::Get(copy_bytes(key)),
            Phase::Done => StorageRequest::Done,
        }
    }

    /// Whether the scan is over.
    pub fn is_done(&self) -> (r: bool)
        ensures
            r == (self@.phase is Done),
    {
        match &self.phase {
            Phase::Done => true,
            _ => false,
        }
    }

    fn advance(&mut self)
        requires
            old(self).wf(),
            old(self)@.phase !is Done,
        ensures
            final(self).wf(),
            final(self)@ == advance(old(self)@),
    {
        let len = self.prefixes.len();
        assert(self.index < len);
        let next = self.index + 1;
        if next < len {
            self.phase = Phase::Value { key: copy_bytes(&self.prefixes[next]) };
        } else {
            self.phase = Phase::Done;
        }
        self.index = next;
    }

    /// Takes the host's answer to the `NextKey` request.
    pub fn on_next_key(&mut self, response: Option<Vec<u8>>)
        requires
            old(self).wf(),
            old(self)@.phase is NextKey,
        ensures
            final(self).wf(),
            final(self)@ == after_next_key(old(self)@, opt_bytes_view(response)),
    {
        match response {
            None => self.advance(),
            Some(k) => {
                if has_prefix(&k, &self.prefixes[self.index]) {
                    self.phase = Phase::Value { key: k };
                } else {
                    self.advance();
                }
            },
        }
    }

    /// Takes the host's answer to the `Get` request.
    pub fn on_value(&mut self, value: Option<Vec<u8>>)
        requires
            old(self).wf(),
            old(self)@.phase is Value,
        ensures
            final(self).wf(),
            final(self)@ == after_value(old(self)@, old(self)@.phase->Value_0, opt_bytes_view(value)),
    {
        let key = match &self.phase {
            Phase::Value { key } => copy_bytes(key),
            _ => Vec::new(),
        };
        let ghost old_entries = self.entries@;
        match value {
            Some(v) => {
                let entry = StorageEntry { key: copy_bytes(&key), value: Some(v) };
                self.entries.push(entry);
                assert(entries_view(self.entries@) =~= entries_view(old_entries).push(entry@));
            },
            None => {},
        }
        self.phase = Phase::NextKey { after: key };
    }

    /// The entries the scan gathered.
    pub fn into_entries(self) -> (r: Vec<StorageEntry>)
        ensures
            entries_view(r@) == self@.entries,
    {
        self.entries
    }
}

} // verus!
