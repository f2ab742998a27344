//! The coordinator's configuration and its defaults.
//!
//! `relay_enabled` is on unless it was switched off: what was left out and what
//! was written as false differ.

use vstd::prelude::*;
use vstd::string::*;
use crate::clock::Duration;
use crate::net;
use crate::net::Ipv4Addr;
use crate::num;
use crate::text;

verus! {

/// Why there is no configuration.
#[derive(Debug)]
pub enum ConfigError {
    /// The file could not be read.
    Io(String),
    /// The file makes no sense.
    Parse(String),
    MissingMeshCidr,
    InvalidMeshCidr(String),
    MissingStatePath,
    MissingAuthorizedSigners,
    RelayMissingEndpoint,
    InvalidRelayMeshIp(String),
}

/// Why there is no configuration, as texts.
#[verifier::ext_equal]
pub enum ConfigFault {
    Io(Seq<char>),
    Parse(Seq<char>),
    MissingMeshCidr,
    InvalidMeshCidr(Seq<char>),
    MissingStatePath,
    MissingAuthorizedSigners,
    RelayMissingEndpoint,
    InvalidRelayMeshIp(Seq<char>),
}

impl View for ConfigError {
    type V = ConfigFault;

    open spec fn view(&self) -> ConfigFault {
        match *self {
            ConfigError::Io(e) => ConfigFault::Io(e@),
            ConfigError::Parse(e) => ConfigFault::Parse(e@),
            ConfigError::MissingMeshCidr => ConfigFault::MissingMeshCidr,
            ConfigError::InvalidMeshCidr(s) => ConfigFault::InvalidMeshCidr(s@),
            ConfigError::MissingStatePath => ConfigFault::MissingStatePath,
            ConfigError::MissingAuthorizedSigners => ConfigFault::MissingAuthorizedSigners,
            ConfigError::RelayMissingEndpoint => ConfigFault::RelayMissingEndpoint,
            ConfigError::InvalidRelayMeshIp(s) => ConfigFault::InvalidRelayMeshIp(s@),
        }
    }
}

impl ConfigFault {
    /// The wording of the error.
    pub open spec fn wording(self) -> Seq<char> {
        match self {
            ConfigFault::Io(e) => "read config: "@ + e,
            ConfigFault::Parse(e) => "parse config: "@ + e,
            ConfigFault::MissingMeshCidr => "mesh_cidr is required"@,
            ConfigFault::InvalidMeshCidr(s) => "mesh_cidr "@ + s + " is not a valid IPv4 CIDR"@,
            ConfigFault::MissingStatePath => "state_path is required"@,
            ConfigFault::MissingAuthorizedSigners => "authorized_signers is required"@,
            ConfigFault::RelayMissingEndpoint =>
                "relay_endpoint is required when relay_enabled (host:port reachable from agents)"@,
            ConfigFault::InvalidRelayMeshIp(s) => "relay_mesh_ip "@ + s
                + " is not a valid IPv4 inside mesh_cidr"@,
        }
    }
}

impl ConfigError {
    /// The wording of the error.
    pub fn message(&self) -> (r: String)
        ensures
            r@ == self@.wording(),
    {
        match self {
            ConfigError::Io(e) => "read config: ".to_owned().concat(e.as_str()),
            ConfigError::Parse(e) => "parse config: ".to_owned().concat(e.as_str()),
            ConfigError::MissingMeshCidr => "mesh_cidr is required".to_owned(),
            ConfigError::InvalidMeshCidr(s) => "mesh_cidr ".to_owned().concat(s.as_str()).concat(
                " is not a valid IPv4 CIDR",
            ),
            ConfigError::MissingStatePath => "state_path is required".to_owned(),
            ConfigError::MissingAuthorizedSigners => "authorized_signers is required".to_owned(),
            ConfigError::RelayMissingEndpoint =>
                "relay_endpoint is required when relay_enabled (host:port reachable from agents)".to_owned(),
            ConfigError::InvalidRelayMeshIp(s) => "relay_mesh_ip ".to_owned().concat(
                s.as_str(),
            ).concat(" is not a valid IPv4 inside mesh_cidr"),
        }
    }
}

/// The configuration as it was written: what was left out is absent.
#[derive(Debug)]
pub struct Raw {
    pub listen_addr: Option<String>,
    pub tls_cert: Option<String>,
    pub tls_key: Option<String>,
    pub mesh_cidr: Option<String>,
    pub state_path: Option<String>,
    pub authorized_signers: Option<String>,
    pub peer_ttl_seconds: Option<i64>,
    pub relay_enabled: Option<bool>,
    pub relay_ssh_key: Option<String>,
    pub relay_interface: Option<String>,
    pub relay_listen_port: Option<u16>,
    pub relay_endpoint: Option<String>,
    pub relay_mesh_ip: Option<String>,
}

/// The configuration.
#[derive(Debug, Clone)]
pub struct Config {
    pub listen_addr: String,
    pub tls_cert: Option<String>,
    pub tls_key: Option<String>,
    pub mesh_cidr: String,
    pub state_path: String,
    pub authorized_signers: String,
    pub peer_ttl: Duration,
    pub relay_enabled: bool,
    pub relay_ssh_key: String,
    pub relay_interface: String,
    pub relay_listen_port: u16,
    pub relay_endpoint: String,
    pub relay_mesh_ip: String,
    /// The first address of `mesh_cidr`.
    pub network_addr: Ipv4Addr,
    /// The prefix length of `mesh_cidr`.
    pub prefix_bits: u8,
}

// ---------------------------------------------------------------------------
// Address blocks
// ---------------------------------------------------------------------------
/// The first address and the prefix length of a block in `10.42.0.0/16`
/// notation.
pub open spec fn cidr_value(s: Seq<char>) -> Option<(nat, u8)> {
    let p = text::pieces(s, text::Sep::Char('/'));
    if p.len() != 2 {
        None
    } else {
        match (net::ipv4_value(p[0]), num::unsigned_value(p[1], 255)) {
            (Some(ip), Ok(bits)) => if bits <= 32 {
                Some((net::network_of(ip, bits as u8), bits as u8))
            } else {
                None
            },
            _ => None,
        }
    }
}

/// The first address of the block of `bits` prefix bits that holds `ip`.
fn network(ip: Ipv4Addr, bits: u8) -> (r: Ipv4Addr)
    requires
        bits <= 32,
    ensures
        r.bits == net::network_of(ip.bits as nat, bits),
{
    let size = net::block_size(bits);
    let rest: u64 = (ip.bits as u64) % size;
    proof {
        vstd::arithmetic::div_mod::lemma_mod_decreases(ip.bits as nat, size as nat);
    }
    Ipv4Addr { bits: (ip.bits as u64 - rest) as u32 }
}

/// The first address and the prefix length of a block in `10.42.0.0/16`
/// notation.
pub fn parse_ipv4_cidr(s: &str) -> (r: Option<(Ipv4Addr, u8)>)
    ensures
        match r {
            Some((net, bits)) => cidr_value(s@) == Some((net.bits as nat, bits)),
            None => cidr_value(s@) is None,
        },
{
    let p = text::split(s, text::Sep::Char('/'));
    let ghost ps = text::pieces(s@, text::Sep::Char('/'));
    if p.len() != 2 {
        return None;
    }
    assert(ps[0] == p@[0]@ && ps[1] == p@[1]@);
    let ip = match Ipv4Addr::parse(p[0].as_str()) {
        Some(ip) => ip,
        None => {
            return None;
        },
    };
    match num::parse_unsigned(p[1].as_str(), 255) {
        Ok(bits) => if bits <= 32 {
            Some((network(ip, bits as u8), bits as u8))
        } else {
            None
        },
        Err(_) => None,
    }
}

/// Does the block with this first address and prefix length hold the address?
pub fn ipv4_in_cidr(ip: Ipv4Addr, network_addr: Ipv4Addr, bits: u8) -> (r: bool)
    requires
        bits <= 32,
    ensures
        r == (net::network_of(ip.bits as nat, bits) == network_addr.bits),
{
    network(ip, bits).bits == network_addr.bits
}

// ---------------------------------------------------------------------------
// Defaults
// ---------------------------------------------------------------------------
/// A text that may be absent, or what stands for it.
pub open spec fn text_or(v: Option<String>, default: Seq<char>) -> Seq<char> {
    match v {
        Some(s) => s@,
        None => default,
    }
}

/// A text that may be absent; an empty one counts as absent.
pub open spec fn nonempty(v: Option<String>) -> Option<Seq<char>> {
    match v {
        Some(s) => if s@.len() > 0 {
            Some(s@)
        } else {
            None
        },
        None => None,
    }
}

/// The relay is on unless it was switched off.
pub open spec fn relay_on(raw: Raw) -> bool {
    raw.relay_enabled != Some(false)
}

/// For how many seconds a peer that is not heard of stays listed.
pub open spec fn ttl_secs(raw: Raw) -> int {
    match raw.peer_ttl_seconds {
        Some(v) => if v > 0 {
            v as int
        } else {
            600
        },
        None => 600,
    }
}

/// The relay's address was written, and is not one of the block.
pub open spec fn bad_relay_ip(raw: Raw, network: nat, bits: u8) -> bool {
    match raw.relay_mesh_ip {
        Some(s) => match net::ipv4_value(s@) {
            Some(ip) => net::network_of(ip, bits) != network,
            None => true,
        },
        None => false,
    }
}

/// The relay's address: the one that was written, or the first usable one.
pub open spec fn relay_ip_text(raw: Raw, network: nat) -> Seq<char> {
    match raw.relay_mesh_ip {
        Some(s) => s@,
        None => net::ipv4_text((network + 1) as u32),
    }
}

/// What is wrong with a configuration: the first of the things that can be.
pub open spec fn fault_of(raw: Raw) -> Option<ConfigFault> {
    match (raw.mesh_cidr, raw.state_path, raw.authorized_signers) {
        (None, _, _) => Some(ConfigFault::MissingMeshCidr),
        (Some(_), None, _) => Some(ConfigFault::MissingStatePath),
        (Some(_), Some(_), None) => Some(ConfigFault::MissingAuthorizedSigners),
        (Some(cidr), Some(_), Some(_)) => match cidr_value(cidr@) {
            None => Some(ConfigFault::InvalidMeshCidr(cidr@)),
            Some((network, bits)) => if bad_relay_ip(raw, network, bits) {
                Some(ConfigFault::InvalidRelayMeshIp(text_or(raw.relay_mesh_ip, Seq::empty())))
            } else if relay_on(raw) && text_or(raw.relay_endpoint, Seq::empty()).len() == 0 {
                Some(ConfigFault::RelayMissingEndpoint)
            } else {
                None
            },
        },
    }
}

/// The first usable address is asked for and there is none: the block is the
/// very last address.
pub open spec fn lacks_first_address(raw: Raw) -> bool {
    &&& raw.relay_mesh_ip is None
    &&& raw.state_path is Some && raw.authorized_signers is Some
    &&& raw.mesh_cidr matches Some(c) && (cidr_value(c@) matches Some((network, bits)) && network
        == u32::MAX)
}

/// The configuration is what was written, with defaults for what was left out.
pub open spec fn config_is(c: Config, raw: Raw) -> bool {
    let cidr = raw.mesh_cidr->0@;
    let (network, bits) = cidr_value(cidr)->0;
    &&& c.listen_addr@ == text_or(raw.listen_addr, ":8443"@)
    &&& text::opt_text(c.tls_cert) == nonempty(raw.tls_cert)
    &&& text::opt_text(c.tls_key) == nonempty(raw.tls_key)
    &&& c.mesh_cidr@ == cidr
    &&& c.state_path@ == raw.state_path->0@
    &&& c.authorized_signers@ == raw.authorized_signers->0@
    &&& c.peer_ttl.nanos == ttl_secs(raw) * 1_000_000_000
    &&& c.relay_enabled == relay_on(raw)
    &&& c.relay_ssh_key@ == text_or(raw.relay_ssh_key, "/etc/ssh/ssh_host_ed25519_key"@)
    &&& c.relay_interface@ == text_or(raw.relay_interface, "wg0"@)
    &&& c.relay_listen_port == (match raw.relay_listen_port {
        Some(p) => p,
        None => 51820,
    })
    &&& c.relay_endpoint@ == text_or(raw.relay_endpoint, Seq::empty())
    &&& c.relay_mesh_ip@ == relay_ip_text(raw, network)
    &&& c.network_addr.bits == network
    &&& c.prefix_bits == bits
}

impl Config {
    /// The block is one: its prefix has at most 32 bits, and its first address
    /// has no bits beyond the prefix. The time that peers stay listed is one
    /// that a clock can measure.
    pub open spec fn wf(self) -> bool {
        &&& self.prefix_bits <= 32
        &&& net::network_of(self.network_addr.bits as nat, self.prefix_bits)
            == self.network_addr.bits
        &&& self.peer_ttl.valid()
    }

    /// The address to listen on: without a host, any.
    pub fn listen_addr_normalized(&self) -> (r: String)
        ensures
            r@ == (if self.listen_addr@.len() > 0 && self.listen_addr@[0] == ':' {
                "0.0.0.0:"@ + self.listen_addr@.skip(1)
            } else {
                self.listen_addr@
            }),
    {
        let v = text::chars_of(self.listen_addr.as_str());
        if v.len() > 0 && v[0] == ':' {
            let rest = text::text_of(&v, 1, v.len());
            assert(rest@ =~= self.listen_addr@.skip(1));
            "0.0.0.0:".to_owned().concat(rest.as_str())
        } else {
            self.listen_addr.clone()
        }
    }

    /// The addresses that no node is given: the relay's own.
    pub fn reserved(&self) -> (r: Vec<String>)
        ensures
            text::texts(r@) == (if self.relay_enabled {
                seq![self.relay_mesh_ip@]
            } else {
                Seq::empty()
            }),
    {
        let mut out: Vec<String> = Vec::new();
        if self.relay_enabled {
            out.push(self.relay_mesh_ip.clone());
        }
        assert(text::texts(out@) =~= (if self.relay_enabled {
            seq![self.relay_mesh_ip@]
        } else {
            Seq::empty()
        }));
        out
    }
}

/// A text that may be absent, or what stands for it.
fn or_text(v: Option<String>, default: &str) -> (r: String)
    ensures
        r@ == text_or(v, default@),
{
    match v {
        Some(s) => s,
        None => default.to_owned(),
    }
}

/// A text that may be absent; an empty one counts as absent.
fn drop_empty(v: Option<String>) -> (r: Option<String>)
    ensures
        text::opt_text(r) == nonempty(v),
{
    match v {
        Some(s) => if s.as_str().is_empty() {
            None
        } else {
            Some(s)
        },
        None => None,
    }
}

/// The relay's address, or the text that is none.
fn relay_address(raw: Option<String>, network_addr: Ipv4Addr, bits: u8) -> (r: Result<
    String,
    String,
>)
    requires
        bits <= 32,
        raw is None ==> network_addr.bits < u32::MAX,
    ensures
        match raw {
            Some(s) => match r {
                Ok(t) => t@ == s@ && (net::ipv4_value(s@) matches Some(ip) && net::network_of(
                    ip,
                    bits,
                ) == network_addr.bits),
                Err(t) => t@ == s@ && !(net::ipv4_value(s@) matches Some(ip) && net::network_of(
                    ip,
                    bits,
                ) == network_addr.bits),
            },
            None => r matches Ok(t) && t@ == net::ipv4_text((network_addr.bits + 1) as u32),
        },
{
    match raw {
        Some(s) => {
            let inside = match Ipv4Addr::parse(s.as_str()) {
                Some(ip) => ipv4_in_cidr(ip, network_addr, bits),
                None => false,
            };
            if inside {
                Ok(s)
            } else {
                Err(s)
            }
        },
        None => Ok((Ipv4Addr { bits: network_addr.bits + 1 }).text()),
    }
}

/// The block that a text names has at most 32 prefix bits, and no bits beyond
/// them.
proof fn cidr_shape(s: Seq<char>)
    ensures
        cidr_value(s) matches Some((network, bits)) ==> bits <= 32 && network <= u32::MAX
            && net::network_of(network, bits) == network,
{
    let p = text::pieces(s, text::Sep::Char('/'));
    if cidr_value(s) is Some {
        let ip = net::ipv4_value(p[0])->0;
        let (network, bits) = cidr_value(s)->0;
        net::ipv4_value_bounded(p[0]);
        net::network_block(ip, bits);
    }
}

/// The configuration, with defaults for what was left out.
pub fn from_raw(raw: Raw) -> (r: Result<Config, ConfigError>)
    requires
        !lacks_first_address(raw),
    ensures
        match r {
            Ok(c) => fault_of(raw) is None && config_is(c, raw) && c.wf(),
            Err(e) => fault_of(raw) == Some(e@),
        },
{
    let mesh_cidr = match raw.mesh_cidr {
        Some(s) => s,
        None => {
            return Err(ConfigError::MissingMeshCidr);
        },
    };
    let state_path = match raw.state_path {
        Some(s) => s,
        None => {
            return Err(ConfigError::MissingStatePath);
        },
    };
    let authorized_signers = match raw.authorized_signers {
        Some(s) => s,
        None => {
            return Err(ConfigError::MissingAuthorizedSigners);
        },
    };
    proof {
        cidr_shape(mesh_cidr@);
    }
    let (network_addr, prefix_bits) = match parse_ipv4_cidr(mesh_cidr.as_str()) {
        Some(b) => b,
        None => {
            return Err(ConfigError::InvalidMeshCidr(mesh_cidr));
        },
    };
    let ttl: u64 = match raw.peer_ttl_seconds {
        Some(v) => if v > 0 {
            v as u64
        } else {
            600
        },
        None => 600,
    };
    let relay_enabled: bool = match raw.relay_enabled {
        Some(b) => b,
        None => true,
    };
    let relay_listen_port: u16 = match raw.relay_listen_port {
        Some(p) => p,
        None => 51820,
    };
    let relay_endpoint = match raw.relay_endpoint {
        Some(s) => s,
        None => String::new(),
    };
    let relay_mesh_ip = match relay_address(raw.relay_mesh_ip, network_addr, prefix_bits) {
        Ok(s) => s,
        Err(s) => {
            return Err(ConfigError::InvalidRelayMeshIp(s));
        },
    };
    if relay_enabled && relay_endpoint.as_str().is_empty() {
        return Err(ConfigError::RelayMissingEndpoint);
    }
    Ok(
        Config {
            listen_addr: or_text(raw.listen_addr, ":8443"),
            tls_cert: drop_empty(raw.tls_cert),
            tls_key: drop_empty(raw.tls_key),
            mesh_cidr,
            state_path,
            authorized_signers,
            peer_ttl: Duration::from_secs(ttl),
            relay_enabled,
            relay_ssh_key: or_text(raw.relay_ssh_key, "/etc/ssh/ssh_host_ed25519_key"),
            relay_interface: or_text(raw.relay_interface, "wg0"),
            relay_listen_port,
            relay_endpoint,
            relay_mesh_ip,
            network_addr,
            prefix_bits,
        },
    )
}

/// The configuration in a file, given what was read: the wording of the error
/// in reading it, or the wording of the error in parsing it, or what it says.
pub fn load(read: Result<Result<Raw, String>, String>) -> (r: Result<Config, ConfigError>)
    requires
        read matches Ok(Ok(raw)) ==> !lacks_first_address(raw),
    ensures
        match (read, r) {
            (Err(e), Err(f)) => f@ == ConfigFault::Io(e@),
            (Ok(Err(e)), Err(f)) => f@ == ConfigFault::Parse(e@),
            (Ok(Ok(raw)), Ok(c)) => fault_of(raw) is None && config_is(c, raw) && c.wf(),
            (Ok(Ok(raw)), Err(f)) => fault_of(raw) == Some(f@),
            _ => false,
        },
{
    match read {
        Ok(Ok(raw)) => from_raw(raw),
        Ok(Err(e)) => Err(ConfigError::Parse(e)),
        Err(e) => Err(ConfigError::Io(e)),
    }
}

/// The relay's address lies in the mesh, unless it was left out and the mesh is
/// a single address.
pub proof fn relay_ip_inside(c: Config, raw: Raw)
    requires
        fault_of(raw) is None,
        config_is(c, raw),
        raw.relay_mesh_ip is Some || c.prefix_bits < 32,
    ensures
        net::ipv4_value(c.relay_mesh_ip@) matches Some(ip) && net::network_of(ip, c.prefix_bits)
            == c.network_addr.bits,
{
    cidr_shape(raw.mesh_cidr->0@);
    if raw.relay_mesh_ip is None {
        let n = c.network_addr.bits as nat;
        net::block_grows(c.prefix_bits);
        net::offset_inside(n, 1, c.prefix_bits);
        net::ipv4_roundtrip((n + 1) as u32);
    }
}

/// A block is written as one of its addresses, a slash and the number of its
/// prefix bits, and read as its first address and that number.
#[verifier::rlimit(40)]
pub proof fn cidr_reads_back(ip: u32, bits: u8)
    requires
        bits <= 32,
    ensures
        ({
            let r = cidr_value(net::ipv4_text(ip) + seq!['/'] + num::decimal(bits as nat));
            let size = vstd::arithmetic::power2::pow2((32 - bits) as nat);
            let (first, b) = r->0;
            &&& r is Some
            &&& b == bits
            &&& first % size == 0
            &&& first <= ip < first + size
        }),
{
    let sep = text::Sep::Char('/');
    let t = net::ipv4_text(ip);
    let d = num::decimal(bits as nat);
    num::decimal_stands_for(bits as nat);
    num::unsigned_roundtrip(bits as nat, 255);
    net::ipv4_roundtrip(ip);
    net::network_block(ip as nat, bits);
    assert(!t.contains('/')) by {
        net::ipv4_text_chars(ip);
        if t.contains('/') {
            assert(t[t.index_of('/')] == '/');
        }
    }
    assert forall|i: int| 0 <= i < t.len() implies !sep.splits(#[trigger] t[i]) by {
        assert(t.contains(t[i]));
    }
    assert forall|i: int| 0 <= i < d.len() implies !sep.splits(#[trigger] d[i]) by {}
    text::pieces_single(t, sep);
    text::pieces_single(d, sep);
    text::pieces_concat(t, '/', d, sep);
    assert(seq![t] + seq![d] =~= seq![t, d]);
}

/// Nothing else is a block: there is one slash, an address before it, and a
/// number of at most 32 behind it.
pub proof fn cidr_is_one(s: Seq<char>)
    ensures
        ({
            let p = text::pieces(s, text::Sep::Char('/'));
            let bits = num::unsigned_value(p[1], 255);
            cidr_value(s) is Some <==> p.len() == 2 && net::ipv4_value(p[0]) is Some && bits is Ok
                && bits->Ok_0 <= 32
        }),
        cidr_value(s) is Some ==> {
            let p = text::pieces(s, text::Sep::Char('/'));
            let (first, bits) = cidr_value(s)->0;
            let size = vstd::arithmetic::power2::pow2((32 - bits) as nat);
            let ip = net::ipv4_value(p[0])->0;
            &&& bits == num::unsigned_value(p[1], 255)->Ok_0
            &&& first % size == 0
            &&& first <= ip < first + size
        },
{
    let p = text::pieces(s, text::Sep::Char('/'));
    if cidr_value(s) is Some {
        net::ipv4_value_bounded(p[0]);
        let bits = num::unsigned_value(p[1], 255)->Ok_0;
        net::network_block(net::ipv4_value(p[0])->0, bits as u8);
    }
}

/// What is wrong with a configuration, and exactly when: what is required is
/// left out, the block is none, the relay's address is none or lies outside the
/// block, or the relay is on and has no endpoint. The first of these is
/// reported.
#[verifier::rlimit(40)]
pub proof fn fault_rules(raw: Raw)
    ensures
        ({
            let cidr = raw.mesh_cidr->0@;
            let block = cidr_value(cidr);
            let (first, bits) = block->0;
            let given = raw.mesh_cidr is Some && raw.state_path is Some && raw.authorized_signers
                is Some;
            let ip = net::ipv4_value(raw.relay_mesh_ip->0@);
            let outside = raw.relay_mesh_ip is Some && (ip is None || !(first <= ip->0 < first
                + vstd::arithmetic::power2::pow2((32 - bits) as nat)));
            let on = raw.relay_enabled is None || raw.relay_enabled->0;
            let mute = raw.relay_endpoint is None || raw.relay_endpoint->0@.len() == 0;
            match fault_of(raw) {
                None => given && block is Some && !outside && !(on && mute),
                Some(ConfigFault::MissingMeshCidr) => raw.mesh_cidr is None,
                Some(ConfigFault::MissingStatePath) => raw.mesh_cidr is Some && raw.state_path
                    is None,
                Some(ConfigFault::MissingAuthorizedSigners) => raw.mesh_cidr is Some
                    && raw.state_path is Some && raw.authorized_signers is None,
                Some(ConfigFault::InvalidMeshCidr(s)) => given && block is None && s == cidr,
                Some(ConfigFault::InvalidRelayMeshIp(s)) => given && block is Some && outside && s
                    == raw.relay_mesh_ip->0@,
                Some(ConfigFault::RelayMissingEndpoint) => given && block is Some && !outside && on
                    && mute,
                Some(_) => false,
            }
        }),
{
    if raw.mesh_cidr is Some && cidr_value(raw.mesh_cidr->0@) is Some {
        let s = raw.mesh_cidr->0@;
        let (first, bits) = cidr_value(s)->0;
        cidr_is_one(s);
        cidr_shape(s);
        if raw.relay_mesh_ip is Some && net::ipv4_value(raw.relay_mesh_ip->0@) is Some {
            let ip = net::ipv4_value(raw.relay_mesh_ip->0@)->0;
            net::ipv4_value_bounded(raw.relay_mesh_ip->0@);
            net::network_block(ip, bits);
            if first <= ip < first + net::block(bits) {
                net::offset_inside(first, (ip - first) as nat, bits);
            }
        }
    }
}

/// A configuration says what was written; of what was left out it says `:8443`
/// to listen on, no certificate and no key, 600 seconds (and also where none or
/// fewer were written), a relay that is on, the host's key, `wg0`, port 51820, no
/// endpoint, and the second address of the block.
#[verifier::rlimit(40)]
pub proof fn config_says(c: Config, raw: Raw)
    requires
        config_is(c, raw),
        fault_of(raw) is None,
    ensures
        raw.listen_addr matches Some(s) ==> c.listen_addr@ == s@,
        raw.listen_addr is None ==> c.listen_addr@ == ":8443"@,
        c.tls_cert is Some <==> raw.tls_cert is Some && raw.tls_cert->0@.len() > 0,
        c.tls_cert is Some ==> c.tls_cert->0@ == raw.tls_cert->0@,
        c.tls_key is Some <==> raw.tls_key is Some && raw.tls_key->0@.len() > 0,
        c.tls_key is Some ==> c.tls_key->0@ == raw.tls_key->0@,
        c.mesh_cidr@ == raw.mesh_cidr->0@,
        c.state_path@ == raw.state_path->0@,
        c.authorized_signers@ == raw.authorized_signers->0@,
        raw.peer_ttl_seconds matches Some(v) ==> v > 0 ==> c.peer_ttl.nanos == v * 1_000_000_000,
        raw.peer_ttl_seconds matches Some(v) ==> v <= 0 ==> c.peer_ttl.nanos == 600
            * 1_000_000_000,
        raw.peer_ttl_seconds is None ==> c.peer_ttl.nanos == 600 * 1_000_000_000,
        raw.relay_enabled matches Some(b) ==> c.relay_enabled == b,
        raw.relay_enabled is None ==> c.relay_enabled,
        raw.relay_ssh_key matches Some(s) ==> c.relay_ssh_key@ == s@,
        raw.relay_ssh_key is None ==> c.relay_ssh_key@ == "/etc/ssh/ssh_host_ed25519_key"@,
        raw.relay_interface matches Some(s) ==> c.relay_interface@ == s@,
        raw.relay_interface is None ==> c.relay_interface@ == "wg0"@,
        raw.relay_listen_port matches Some(p) ==> c.relay_listen_port == p,
        raw.relay_listen_port is None ==> c.relay_listen_port == 51820,
        raw.relay_endpoint matches Some(s) ==> c.relay_endpoint@ == s@,
        raw.relay_endpoint is None ==> c.relay_endpoint@.len() == 0,
        raw.relay_mesh_ip matches Some(s) ==> c.relay_mesh_ip@ == s@,
        raw.relay_mesh_ip is None && c.network_addr.bits < u32::MAX ==> net::ipv4_value(
            c.relay_mesh_ip@,
        ) == Some((c.network_addr.bits + 1) as nat),
        ({
            let (first, bits) = cidr_value(c.mesh_cidr@)->0;
            c.network_addr.bits == first && c.prefix_bits == bits
        }),
{
    if raw.relay_mesh_ip is None && c.network_addr.bits < u32::MAX {
        net::ipv4_roundtrip((c.network_addr.bits + 1) as u32);
    }
}

} // verus!
