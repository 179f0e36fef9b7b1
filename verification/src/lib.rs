//! Verified core of axon, a terminal client for the synapse torrent daemon.
pub mod config;
pub mod rpc;
pub mod tui;
pub mod utils;
