//! The settings of the address manager.
use crate::net::Network;
use vstd::prelude::*;

verus! {

/// How many workers crawl the network at a time.
pub const NUM_WORKER_THREADS: usize = 5;

/// How many peers that serve compact filters the store is filled up to.
pub const CBF_ADDRS_TARGET: usize = 10;

/// How many peers that do not serve compact filters the store is filled up to.
pub const NON_CBF_TARGET: usize = 50;

/// The number of peers that serve compact filters at which the store is to be filled up.
pub const CBF_THRESHOLD: usize = 5;

/// The number of peers that do not serve compact filters at which the store is to be filled up.
pub const NON_CBF_THRESHOLD: usize = 20;

/// The network that the node runs on.
pub const NETWORK: Network = Network::Bitcoin;

/// How long a worker waits for a connection, and for the answer of a peer, in seconds.
pub const PEER_TIMEOUT_SECS: u64 = 1;

} // verus!
