//! The server acceptor's setup decisions: every QUIC, TLS and socket
//! parameter the endpoint is built with, computed from the configuration.
//! Binding the socket and driving the transport happen outside the
//! library against exactly these values.

use vstd::prelude::*;
use vstd::string::StringSliceAdditionalSpecFns;

use crate::address::SocketAddress;
use crate::config::Config;
use crate::errors::Error;
use crate::utils::CongestionController;

verus! {

/// The largest idle timeout the transport can encode, in milliseconds.
pub const MAX_IDLE_TIME_CEILING: u64 = 4611686018427387903;

/// Everything the QUIC endpoint is configured with.
pub struct EndpointParams {
    pub bind_addr: SocketAddress,
    pub only_v6: Option<bool>,
    pub alpn: Vec<Vec<u8>>,
    pub max_early_data_size: u32,
    pub send_half_rtt_data: bool,
    pub max_concurrent_bidi_streams: u32,
    pub max_concurrent_uni_streams: u32,
    pub send_window: u64,
    pub stream_receive_window: u32,
    pub max_idle_time: u64,
    pub initial_mtu: u16,
    pub min_mtu: u16,
    pub gso: bool,
    pub pmtu: bool,
    pub congestion_controller: CongestionController,
    pub initial_window: u64,
    pub self_sign: bool,
}

/// Computes the endpoint parameters from the configuration: the socket is
/// bound at the configured address, IPv6-only follows the dual-stack flag
/// on an IPv6 address, the ALPN names enter as their bytes, early data is
/// wide open with half-RTT data following the 0-RTT flag, the stream
/// budgets are the initial concurrency, and the transport knobs are taken
/// verbatim. An idle time too large for the transport is refused.
pub fn endpoint_params(cfg: &Config) -> (r: Result<EndpointParams, Error>)
    ensures
        match r {
            Ok(p) => {
                &&& cfg.quic.max_idle_time <= MAX_IDLE_TIME_CEILING
                &&& p.bind_addr == cfg.server
                &&& p.only_v6 == (match cfg.server {
                    SocketAddress::V6(_, _) => Some(!cfg.dual_stack),
                    SocketAddress::V4(_, _) => None::<bool>,
                })
                &&& p.alpn@.len() == cfg.tls.alpn@.len()
                &&& (forall|i: int|
                    0 <= i < p.alpn@.len() ==> (#[trigger] p.alpn@[i])@
                        == crate::cli::string_bytes(cfg.tls.alpn@[i]))
                &&& p.max_early_data_size == u32::MAX
                &&& p.send_half_rtt_data == cfg.zero_rtt_handshake
                &&& p.max_concurrent_bidi_streams == crate::INIT_CONCURRENT_STREAMS
                &&& p.max_concurrent_uni_streams == crate::INIT_CONCURRENT_STREAMS
                &&& p.send_window == cfg.quic.send_window
                &&& p.stream_receive_window == cfg.quic.receive_window
                &&& p.max_idle_time == cfg.quic.max_idle_time
                &&& p.initial_mtu == cfg.quic.initial_mtu
                &&& p.min_mtu == cfg.quic.min_mtu
                &&& p.gso == cfg.quic.gso
                &&& p.pmtu == cfg.quic.pmtu
                &&& p.congestion_controller == cfg.quic.congestion_control.controller
                &&& p.initial_window == cfg.quic.congestion_control.initial_window
                &&& p.self_sign == cfg.tls.self_sign
            },
            Err(e) => e == Error::InvalidMaxIdleTime && cfg.quic.max_idle_time
                > MAX_IDLE_TIME_CEILING,
        },
{
    if cfg.quic.max_idle_time > MAX_IDLE_TIME_CEILING {
        return Err(Error::InvalidMaxIdleTime);
    }
    let only_v6 = match cfg.server {
        SocketAddress::V6(_, _) => Some(!cfg.dual_stack),
        SocketAddress::V4(_, _) => None,
    };
    let mut alpn: Vec<Vec<u8>> = Vec::new();
    let mut i: usize = 0;
    while i < cfg.tls.alpn.len()
        invariant
            i <= cfg.tls.alpn@.len(),
            alpn@.len() == i,
            forall|j: int|
                0 <= j < i ==> (#[trigger] alpn@[j])@ == crate::cli::string_bytes(cfg.tls.alpn@[j]),
        decreases cfg.tls.alpn@.len() - i,
    {
        let entry = &cfg.tls.alpn[i];
        let name = entry.as_str();
        proof {
            assert(name@ == cfg.tls.alpn@[i as int]@);
            assert(name.spec_bytes() == crate::cli::string_bytes(cfg.tls.alpn@[i as int]));
        }
        alpn.push(vstd::slice::slice_to_vec(name.as_bytes()));
        i = i + 1;
    }
    Ok(
        EndpointParams {
            bind_addr: cfg.server,
            only_v6,
            alpn,
            max_early_data_size: u32::MAX,
            send_half_rtt_data: cfg.zero_rtt_handshake,
            max_concurrent_bidi_streams: crate::INIT_CONCURRENT_STREAMS,
            max_concurrent_uni_streams: crate::INIT_CONCURRENT_STREAMS,
            send_window: cfg.quic.send_window,
            stream_receive_window: cfg.quic.receive_window,
            max_idle_time: cfg.quic.max_idle_time,
            initial_mtu: cfg.quic.initial_mtu,
            min_mtu: cfg.quic.min_mtu,
            gso: cfg.quic.gso,
            pmtu: cfg.quic.pmtu,
            congestion_controller: cfg.quic.congestion_control.controller,
            initial_window: cfg.quic.congestion_control.initial_window,
            self_sign: cfg.tls.self_sign,
        },
    )
}

} // verus!
