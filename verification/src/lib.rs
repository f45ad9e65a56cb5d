//! A TUIC v5 proxy server core: wire codec, authentication gate, packet
//! reassembly, UDP session lifecycle, per-connection dispatch, and the
//! admin/stats surface, with their behaviour stated in contracts.

use vstd::prelude::*;

pub mod address;
pub mod auth;
pub mod cli;
pub mod codec;
pub mod config;
pub mod connection;
pub mod endpoint;
pub mod errors;
pub mod io;
pub mod old_config;
pub mod outside;
pub mod reassembly;
pub mod session;
pub mod stats;
pub mod tlscerts;
pub mod utils;

verus! {

/// Error code sent on a connection closed for a protocol or I/O failure.
pub const ERROR_CODE_PROTOCOL: u32 = 6000;

/// Error code sent on a connection closed for exceeding the per-user limit.
pub const ERROR_CODE_LIMIT: u32 = 6001;

/// Error code sent on a connection closed by an administrative kick.
pub const ERROR_CODE_KICKED: u32 = 6002;

/// Streams of each direction a connection accepts concurrently, as offered
/// to the peer in the transport parameters.
pub const INIT_CONCURRENT_STREAMS: u32 = 32;

} // verus!
