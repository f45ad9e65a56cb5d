//! The server configuration: every recognized option with its default,
//! the example configuration the init flag writes, the mapping from the
//! legacy configuration file, and the small decisions of configuration
//! loading that do not touch a file.

use vstd::prelude::*;
use vstd::string::StringSliceAdditionalSpecFns;

use crate::address::SocketAddress;
use crate::old_config::OldConfig;
use crate::outside::fresh_uuid;
use crate::utils::CongestionController;

verus! {

/// The log verbosity selected in the configuration file.
#[derive(Clone, Copy, Debug, PartialEq, Eq)]
pub enum LogLevel {
    Trace,
    Debug,
    Info,
    Warn,
    Error,
    Off,
}

impl Default for LogLevel {
    /// The default verbosity.
    fn default() -> (r: Self)
        ensures
            r == LogLevel::Info,
    {
        LogLevel::Info
    }
}

/// The TLS material: an ephemeral self-signed certificate, or a
/// certificate chain and private key loaded from files, plus the
/// advertised ALPN protocols.
pub struct TlsConfig {
    pub self_sign: bool,
    pub certificate: String,
    pub private_key: String,
    pub alpn: Vec<String>,
}

impl Default for TlsConfig {
    /// No self-signing, empty paths, no ALPN protocols.
    fn default() -> (r: Self)
        ensures
            !r.self_sign,
            r.certificate@.len() == 0,
            r.private_key@.len() == 0,
            r.alpn@.len() == 0,
    {
        TlsConfig {
            self_sign: false,
            certificate: String::new(),
            private_key: String::new(),
            alpn: Vec::new(),
        }
    }
}

/// The congestion controller and its initial window.
pub struct CongestionControlConfig {
    pub controller: CongestionController,
    pub initial_window: u64,
}

impl Default for CongestionControlConfig {
    /// BBR with a one-mebibyte initial window.
    fn default() -> (r: Self)
        ensures
            r.controller == CongestionController::Bbr,
            r.initial_window == 1048576,
    {
        CongestionControlConfig { controller: CongestionController::Bbr, initial_window: 1048576 }
    }
}

/// The QUIC transport parameters. Times are in milliseconds.
pub struct QuicConfig {
    pub congestion_control: CongestionControlConfig,
    pub initial_mtu: u16,
    pub min_mtu: u16,
    pub gso: bool,
    pub pmtu: bool,
    pub send_window: u64,
    pub receive_window: u32,
    pub max_idle_time: u64,
}

impl Default for QuicConfig {
    /// The transport defaults: conservative MTUs, offload and path-MTU
    /// discovery on, a 16 MiB send window, an 8 MiB receive window, and a
    /// ten-second idle timeout.
    fn default() -> (r: Self)
        ensures
            r.congestion_control.controller == CongestionController::Bbr,
            r.congestion_control.initial_window == 1048576,
            r.initial_mtu == 1200,
            r.min_mtu == 1200,
            r.gso,
            r.pmtu,
            r.send_window == 16777216,
            r.receive_window == 8388608,
            r.max_idle_time == 10000,
    {
        QuicConfig {
            congestion_control: CongestionControlConfig::default(),
            initial_mtu: 1200,
            min_mtu: 1200,
            gso: true,
            pmtu: true,
            send_window: 16777216,
            receive_window: 8388608,
            max_idle_time: 10000,
        }
    }
}

/// The optional admin HTTP endpoint: where it listens, its bearer secret,
/// and the per-user connection limit (zero meaning unlimited).
pub struct RestfulConfig {
    pub addr: SocketAddress,
    pub secret: String,
    pub maximum_clients_per_user: u64,
}

impl Default for RestfulConfig {
    /// Loopback on port 8443, a placeholder secret, no limit.
    fn default() -> (r: Self)
        ensures
            restful_defaults(r),
    {
        RestfulConfig {
            addr: SocketAddress::V4([127, 0, 0, 1], 8443),
            secret: str_to_string("YOUR_SECRET_HERE"),
            maximum_clients_per_user: 0,
        }
    }
}

/// The full server configuration. Durations are in milliseconds; users
/// map a uuid to its password.
pub struct Config {
    pub log_level: LogLevel,
    pub server: SocketAddress,
    pub users: Vec<(u128, String)>,
    pub tls: TlsConfig,
    pub persistent_data: String,
    pub restful: Option<RestfulConfig>,
    pub quic: QuicConfig,
    pub udp_relay_ipv6: bool,
    pub zero_rtt_handshake: bool,
    pub dual_stack: bool,
    pub auth_timeout: u64,
    pub task_negotiation_timeout: u64,
    pub gc_interval: u64,
    pub gc_lifetime: u64,
    pub max_external_packet_size: usize,
    pub stream_timeout: u64,
}

/// The documented defaults of the TLS section: no self-signing, empty
/// paths, no ALPN protocols.
pub open spec fn tls_defaults(t: TlsConfig) -> bool {
    &&& !t.self_sign
    &&& t.certificate@.len() == 0
    &&& t.private_key@.len() == 0
    &&& t.alpn@.len() == 0
}

/// The documented defaults of the QUIC section.
pub open spec fn quic_defaults(q: QuicConfig) -> bool {
    &&& q.congestion_control.controller == CongestionController::Bbr
    &&& q.congestion_control.initial_window == 1048576
    &&& q.initial_mtu == 1200
    &&& q.min_mtu == 1200
    &&& q.gso
    &&& q.pmtu
    &&& q.send_window == 16777216
    &&& q.receive_window == 8388608
    &&& q.max_idle_time == 10000
}

/// The documented defaults of the admin section: loopback on port 8443,
/// the placeholder secret, no per-user limit.
pub open spec fn restful_defaults(r: RestfulConfig) -> bool {
    &&& r.addr == SocketAddress::V4([127, 0, 0, 1], 8443)
    &&& r.secret@ == "YOUR_SECRET_HERE"@
    &&& r.maximum_clients_per_user == 0
}

/// The documented default of every scalar option, beside an empty user
/// table.
pub open spec fn config_defaults(c: Config) -> bool {
    &&& c.log_level == LogLevel::Info
    &&& c.server == SocketAddress::V6(
        [0, 0, 0, 0, 0, 0, 0, 0, 0, 0, 0, 0, 0, 0, 0, 0],
        443,
    )
    &&& c.udp_relay_ipv6
    &&& !c.zero_rtt_handshake
    &&& c.dual_stack
    &&& c.auth_timeout == 3000
    &&& c.task_negotiation_timeout == 3000
    &&& c.gc_interval == 3000
    &&& c.gc_lifetime == 15000
    &&& c.max_external_packet_size == 1500
    &&& c.stream_timeout == 60000
}

impl Default for Config {
    /// The configuration with every documented default and no users.
    fn default() -> (r: Self)
        ensures
            config_defaults(r),
            r.users@.len() == 0,
            r.restful is None,
            r.persistent_data@ == "./data.toml"@,
            tls_defaults(r.tls),
            quic_defaults(r.quic),
    {
        Config {
            log_level: LogLevel::Info,
            server: SocketAddress::V6([0, 0, 0, 0, 0, 0, 0, 0, 0, 0, 0, 0, 0, 0, 0, 0], 443),
            users: Vec::new(),
            tls: TlsConfig::default(),
            persistent_data: str_to_string("./data.toml"),
            restful: None,
            quic: QuicConfig::default(),
            udp_relay_ipv6: true,
            zero_rtt_handshake: false,
            dual_stack: true,
            auth_timeout: 3000,
            task_negotiation_timeout: 3000,
            gc_interval: 3000,
            gc_lifetime: 15000,
            max_external_packet_size: 1500,
            stream_timeout: 60000,
        }
    }
}

impl Config {
    /// The example configuration that the init flag writes: the defaults,
    /// one freshly generated user with a placeholder password, and the
    /// admin endpoint enabled with its defaults.
    pub fn full_example() -> (r: Self)
        ensures
            config_defaults(r),
            tls_defaults(r.tls),
            quic_defaults(r.quic),
            r.persistent_data@ == "./data.toml"@,
            r.users@.len() == 1,
            r.users@[0].1@ == "YOUR_USER_PASSWD_HERE"@,
            r.restful is Some,
            restful_defaults(r.restful.unwrap()),
    {
        let mut c = Config::default();
        let mut users: Vec<(u128, String)> = Vec::new();
        users.push((fresh_uuid(), str_to_string("YOUR_USER_PASSWD_HERE")));
        c.users = users;
        c.restful = Some(RestfulConfig::default());
        c
    }

    /// The configured user ids, in table order.
    pub fn user_ids(&self) -> (r: Vec<u128>)
        ensures
            r@.len() == self.users@.len(),
            forall|i: int| 0 <= i < r@.len() ==> r@[i] == self.users@[i].0,
    {
        let mut out: Vec<u128> = Vec::new();
        let mut i: usize = 0;
        while i < self.users.len()
            invariant
                i <= self.users@.len(),
                out@.len() == i,
                forall|j: int| 0 <= j < i ==> out@[j] == self.users@[j].0,
            decreases self.users@.len() - i,
        {
            out.push(self.users[i].0);
            i = i + 1;
        }
        out
    }

    /// The password of a configured user, if the uuid is one.
    pub fn find_user(&self, uuid: u128) -> (r: Option<&String>)
        ensures
            match r {
                Some(p) => exists|i: int|
                    0 <= i < self.users@.len() && self.users@[i].0 == uuid && self.users@[i].1
                        == *p,
                None => forall|i: int| 0 <= i < self.users@.len() ==> self.users@[i].0 != uuid,
            },
    {
        let mut i: usize = 0;
        while i < self.users.len()
            invariant
                i <= self.users@.len(),
                forall|j: int| 0 <= j < i ==> self.users@[j].0 != uuid,
            decreases self.users@.len() - i,
        {
            if self.users[i].0 == uuid {
                return Some(&self.users[i].1);
            }
            i = i + 1;
        }
        None
    }

    /// The new configuration carrying over a legacy one: each legacy field
    /// lands where it now lives, the absent ones take their defaults.
    pub fn from(value: OldConfig) -> (r: Self)
        ensures
            r.server == value.server,
            r.users@ == value.users@,
            r.tls.self_sign == value.self_sign,
            r.tls.certificate@ == value.certificate@,
            r.tls.private_key@ == value.private_key@,
            r.tls.alpn@ == value.alpn@,
            r.udp_relay_ipv6 == value.udp_relay_ipv6,
            r.zero_rtt_handshake == value.zero_rtt_handshake,
            r.dual_stack == (match value.dual_stack {
                Some(b) => b,
                None => true,
            }),
            r.auth_timeout == value.auth_timeout,
            r.task_negotiation_timeout == value.task_negotiation_timeout,
            r.gc_interval == value.gc_interval,
            r.gc_lifetime == value.gc_lifetime,
            r.max_external_packet_size == value.max_external_packet_size,
            r.restful is Some <==> value.restful_server is Some,
            value.restful_server is Some ==> r.restful.unwrap().addr
                == value.restful_server.unwrap() && r.restful.unwrap().maximum_clients_per_user
                == 0,
            r.log_level == (match value.log_level {
                Some(l) => l,
                None => LogLevel::Info,
            }),
            r.quic.congestion_control.controller == value.congestion_control,
            r.quic.congestion_control.initial_window == (match value.initial_window {
                Some(w) => w,
                None => 1048576,
            }),
            r.quic.initial_mtu == value.initial_mtu,
            r.quic.min_mtu == value.min_mtu,
            r.quic.gso == value.gso,
            r.quic.pmtu == value.pmtu,
            r.quic.send_window == value.send_window,
            r.quic.receive_window == value.receive_window,
            r.quic.max_idle_time == value.max_idle_time,
            r.stream_timeout == 60000,
            r.persistent_data@ == "./data.toml"@,
    {
        let restful = match value.restful_server {
            Some(addr) => Some(
                RestfulConfig {
                    addr,
                    secret: str_to_string("YOUR_SECRET_HERE"),
                    maximum_clients_per_user: 0,
                },
            ),
            None => None,
        };
        let log_level = match value.log_level {
            Some(l) => l,
            None => LogLevel::Info,
        };
        let initial_window = match value.initial_window {
            Some(w) => w,
            None => 1048576,
        };
        let dual_stack = match value.dual_stack {
            Some(b) => b,
            None => true,
        };
        Config {
            log_level,
            server: value.server,
            users: value.users,
            tls: TlsConfig {
                self_sign: value.self_sign,
                certificate: value.certificate,
                private_key: value.private_key,
                alpn: value.alpn,
            },
            persistent_data: str_to_string("./data.toml"),
            restful,
            quic: QuicConfig {
                congestion_control: CongestionControlConfig {
                    controller: value.congestion_control,
                    initial_window,
                },
                initial_mtu: value.initial_mtu,
                min_mtu: value.min_mtu,
                gso: value.gso,
                pmtu: value.pmtu,
                send_window: value.send_window,
                receive_window: value.receive_window,
                max_idle_time: value.max_idle_time,
            },
            udp_relay_ipv6: value.udp_relay_ipv6,
            zero_rtt_handshake: value.zero_rtt_handshake,
            dual_stack,
            auth_timeout: value.auth_timeout,
            task_negotiation_timeout: value.task_negotiation_timeout,
            gc_interval: value.gc_interval,
            gc_lifetime: value.gc_lifetime,
            max_external_packet_size: value.max_external_packet_size,
            stream_timeout: 60000,
        }
    }
}

/// Whether a configuration file path selects the current TOML format: it
/// ends in ".toml"; any other name is read as the legacy format.
pub fn config_format_is_toml(path: &str) -> (r: bool)
    ensures
        r == (path.spec_bytes().len() >= 5 && path.spec_bytes().subrange(
            path.spec_bytes().len() - 5,
            path.spec_bytes().len() as int,
        ) == ".toml".spec_bytes()),
{
    let b = path.as_bytes();
    let suffix = ".toml".as_bytes();
    if b.len() < 5 {
        return false;
    }
    let tail = vstd::slice::slice_subrange(b, b.len() - 5, b.len());
    let r = crate::stats::bytes_eq(tail, suffix);
    r
}

/// An owned copy of a string slice.
pub fn str_to_string(s: &str) -> (r: String)
    ensures
        r@ == s@,
{
    s.to_owned()
}

} // verus!
