//! Peer address management for a BIP157 node, the backend of a wallet that syncs by compact
//! filters.
//!
//! A [manager](manager) keeps a [store](store) of known peers filled up. For this its
//! [fetcher](fetcher) hands the pending addresses of a [task](task) out to
//! [workers](worker), which visit the peers there, ask them for further addresses, and report
//! both back. All of these only decide: they tell the surroundings what to do next, and are told
//! how it went.
//!
//! What holds of them beyond the contract of each function is stated beside them and, on plain
//! values, in [laws](laws) and [protocol](protocol).
pub mod addr_set;
pub mod config;
pub mod discovery;
pub mod errors;
pub mod fetcher;
pub mod laws;
pub mod manager;
pub mod net;
pub mod protocol;
pub mod store;
pub mod task;
pub mod worker;
