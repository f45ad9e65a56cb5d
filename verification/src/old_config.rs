//! The legacy configuration file: its structure, the default of every
//! optional field, its error kind, and the duration fields' parser. The
//! legacy format is read when the configuration path does not select the
//! current one.

use vstd::prelude::*;

use crate::address::SocketAddress;
use crate::config::LogLevel;
use crate::outside::{duration_millis_of, parse_human_duration};
use crate::utils::CongestionController;

verus! {

/// The usage text printed for the help flag.
pub const HELP_MSG: &'static str = "
Usage tuic-server [arguments]

Arguments:
    -c, --config <path>     Path to the config file (required)
    -v, --version           Print the version
    -h, --help              Print this help message
    -i, --init              Generate a example configuration (config.toml)
";

/// The legacy configuration file's shape. Durations are in milliseconds.
pub struct OldConfig {
    pub server: SocketAddress,
    pub users: Vec<(u128, String)>,
    pub self_sign: bool,
    pub certificate: String,
    pub private_key: String,
    pub congestion_control: CongestionController,
    pub alpn: Vec<String>,
    pub udp_relay_ipv6: bool,
    pub zero_rtt_handshake: bool,
    pub dual_stack: Option<bool>,
    pub auth_timeout: u64,
    pub task_negotiation_timeout: u64,
    pub max_idle_time: u64,
    pub max_external_packet_size: usize,
    pub initial_window: Option<u64>,
    pub send_window: u64,
    pub receive_window: u32,
    pub initial_mtu: u16,
    pub min_mtu: u16,
    pub gso: bool,
    pub pmtu: bool,
    pub log_level: Option<LogLevel>,
    pub gc_interval: u64,
    pub gc_lifetime: u64,
    pub restful_server: Option<SocketAddress>,
}

/// Why loading a configuration failed: a bad argument, a missing file
/// path, the version or help flag cutting the run short, or an I/O or
/// decoding failure.
#[derive(Clone, Copy, Debug)]
pub enum ConfigError {
    Argument,
    NoConfig,
    Version(&'static str),
    Help(&'static str),
    Io,
    Serde,
}

/// The value of a legacy duration field, in milliseconds: the humantime
/// notation, bounded to 64 bits; `None` when it does not parse or does not
/// fit.
pub fn parse_duration_field(s: &str) -> (r: Option<u64>)
    ensures
        match r {
            Some(ms) => duration_millis_of(s@) == Some(ms as u128),
            None => duration_millis_of(s@) is None || duration_millis_of(s@).unwrap()
                > u64::MAX,
        },
{
    match parse_human_duration(s) {
        Some(ms) => {
            if ms <= u64::MAX as u128 {
                Some(ms as u64)
            } else {
                None
            }
        },
        None => None,
    }
}

/// The default congestion controller of the legacy format.
pub fn congestion_control() -> (r: CongestionController)
    ensures
        r == CongestionController::Cubic,
{
    CongestionController::Cubic
}

/// The default for IPv6 UDP relay: enabled.
pub fn udp_relay_ipv6() -> (r: bool)
    ensures
        r,
{
    true
}

/// The default for the 0-RTT handshake: disabled.
pub fn zero_rtt_handshake() -> (r: bool)
    ensures
        !r,
{
    false
}

/// The default authentication timeout, in milliseconds.
pub fn auth_timeout() -> (r: u64)
    ensures
        r == 3000,
{
    3000
}

/// The default wait of a post-authentication task for the peer's
/// authentication, in milliseconds.
pub fn task_negotiation_timeout() -> (r: u64)
    ensures
        r == 3000,
{
    3000
}

/// The default transport idle timeout, in milliseconds.
pub fn max_idle_time() -> (r: u64)
    ensures
        r == 10000,
{
    10000
}

/// The default cap on one relayed UDP datagram, in bytes.
pub fn max_external_packet_size() -> (r: usize)
    ensures
        r == 1500,
{
    1500
}

/// The default congestion initial window: the transport's own.
pub fn initial_window() -> (r: Option<u64>)
    ensures
        r is None,
{
    None
}

/// The default transport send window, in bytes.
pub fn send_window() -> (r: u64)
    ensures
        r == 16777216,
{
    16777216
}

/// The default per-stream receive window, in bytes.
pub fn receive_window() -> (r: u32)
    ensures
        r == 8388608,
{
    8388608
}

/// The default initial MTU the transport assumes.
pub fn initial_mtu() -> (r: u16)
    ensures
        r == 1200,
{
    1200
}

/// The default MTU floor of path-MTU discovery.
pub fn min_mtu() -> (r: u16)
    ensures
        r == 1200,
{
    1200
}

/// The default for generic segmentation offload: enabled.
pub fn gso() -> (r: bool)
    ensures
        r,
{
    true
}

/// The default for path-MTU discovery: enabled.
pub fn pmtu() -> (r: bool)
    ensures
        r,
{
    true
}

/// The default fragment garbage-collection period, in milliseconds.
pub fn gc_interval() -> (r: u64)
    ensures
        r == 3000,
{
    3000
}

/// The default age at which an incomplete packet is dropped, in
/// milliseconds.
pub fn gc_lifetime() -> (r: u64)
    ensures
        r == 15000,
{
    15000
}

/// The default certificate path: none.
pub fn certificate() -> (r: String)
    ensures
        r@.len() == 0,
{
    String::new()
}

/// The default private-key path: none.
pub fn private_key() -> (r: String)
    ensures
        r@.len() == 0,
{
    String::new()
}

/// The default for self-signing: disabled.
pub fn self_sign() -> (r: bool)
    ensures
        !r,
{
    false
}

/// The default ALPN list: empty.
pub fn alpn() -> (r: Vec<String>)
    ensures
        r@.len() == 0,
{
    Vec::new()
}

} // verus!
