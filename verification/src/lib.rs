//! A verified model of the state-export pallet: the runtime-API data types,
//! the decisions of the pallet's dispatchables and hooks, the storage scan that
//! gathers the exported entries, and the integer planning of the fast
//! coinbase simulation.

pub mod coinbase;
pub mod export;
pub mod order;
pub mod pallet;
pub mod scan;
pub mod scan_laws;
pub mod types;
