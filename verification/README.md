# state_export

A verified model of a Substrate state-export pallet.

- `src/types.rs`: the runtime-API types (`StorageEntry`, `ChainState`,
  `StateExportConfig`) with their abstract values and defaults.
- `src/order.rs`: lexicographic key order and prefixes.
- `src/scan.rs`: the storage scan that gathers an export's entries, as a
  state machine the host answers call by call.
- `src/scan_laws.rs`: what a scan gathers when storage answers it: every
  answer keeps the scan in agreement with storage, every answer brings it
  closer to its end, and a finished scan holds exactly the promised entries.
- `src/pallet.rs`: the pallet's storage, dispatchables, end-of-block hook and
  runtime API, each storage change described by `step`, and what any
  history of calls leaves behind (`lemma_history`).
- `src/export.rs`: the encoded block hash, offchain storage key and file name
  of an export.
- `src/coinbase.rs`: subnet selection and batch planning of the fast coinbase
  simulation.
- `app/`: the host side: walking runtime storage with `sp_io`, the offchain
  clock and storage, JSON with `serde_json`, and the floating-point simulation.
