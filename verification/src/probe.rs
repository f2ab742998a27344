//! The probe, promote and demote state machine.
//!
//! Per peer:
//!   `Unknown` → `Probing`, on the interface with empty `AllowedIPs`;
//!   `Probing` → `Direct`, with `/32`, once a handshake is seen;
//!   `Probing`, `Direct` → `Relay`, off the interface, so that traffic falls to
//!   the coordinator's catch-all;
//!   `Relay` → `Probing`, after a backoff that grows.
//!
//! Time is a parameter: the same inputs always give the same peer set.

use vstd::prelude::*;
use vstd::string::*;
use crate::api::{Peer, PeerModel, Relay, RelayModel};
use crate::clock::{Duration, Timestamp};
use crate::strmap::StrMap;
use crate::text;
use crate::wglink::{InfoModel, PeerInfo, PeerSpec, SpecModel};

verus! {

#[derive(Debug, Clone, Copy, PartialEq, Eq, Structural)]
pub enum ProbeState {
    Unknown,
    /// On the interface with empty `AllowedIPs`; a handshake is awaited.
    Probing,
    /// On the interface with the peer's own address.
    Direct,
    /// Not on the interface; traffic flows through the coordinator.
    Relay,
}

impl ProbeState {
    /// The state's name.
    pub open spec fn name(self) -> Seq<char> {
        match self {
            ProbeState::Unknown => "UNKNOWN"@,
            ProbeState::Probing => "PROBING"@,
            ProbeState::Direct => "DIRECT"@,
            ProbeState::Relay => "RELAY"@,
        }
    }

    /// The state's name.
    pub fn as_str(self) -> (r: &'static str)
        ensures
            r@ == self.name(),
            self == ProbeState::Unknown ==> r@ == "UNKNOWN"@,
            self == ProbeState::Probing ==> r@ == "PROBING"@,
            self == ProbeState::Direct ==> r@ == "DIRECT"@,
            self == ProbeState::Relay ==> r@ == "RELAY"@,
    {
        match self {
            ProbeState::Unknown => "UNKNOWN",
            ProbeState::Probing => "PROBING",
            ProbeState::Direct => "DIRECT",
            ProbeState::Relay => "RELAY",
        }
    }
}

/// A factor, as a fraction.
#[derive(Debug, Clone, Copy, PartialEq, Eq, Structural)]
pub struct Ratio {
    pub numer: u32,
    pub denom: u32,
}

/// The times that drive the state machine.
#[derive(Debug, Clone, Copy, PartialEq, Eq, Structural)]
pub struct Tunables {
    /// How long to wait for a handshake, and how fresh one has to be.
    pub probe_window: Duration,
    /// How long to wait after the first failure.
    pub initial_backoff: Duration,
    /// How long to wait at most.
    pub max_backoff: Duration,
    /// What each further failure multiplies the wait by.
    pub backoff_multiplier: Ratio,
    /// How old the last handshake of a direct peer may get.
    pub direct_stale_after: Duration,
    /// How often the kernel keeps a mapping alive.
    pub keepalive: Duration,
}

impl Tunables {
    /// Every span is one that a clock can measure.
    pub open spec fn valid(self) -> bool {
        &&& self.probe_window.valid()
        &&& self.initial_backoff.valid()
        &&& self.max_backoff.valid()
        &&& self.direct_stale_after.valid()
        &&& self.keepalive.valid()
    }

    /// The keepalive in seconds, in the 32 bits that the interface takes.
    pub open spec fn keepalive_secs(self) -> u32 {
        (self.keepalive.secs() % 0x1_0000_0000) as u32
    }

    /// The keepalive in seconds, in the 32 bits that the interface takes.
    fn keepalive_u32(&self) -> (r: u32)
        requires
            self.valid(),
        ensures
            r == self.keepalive_secs(),
    {
        (self.keepalive.as_secs() % 0x1_0000_0000) as u32
    }
}

/// A minute for a handshake, five minutes to the first retry, twice as long
/// each time up to half an hour, five minutes until a direct peer is stale, and
/// a keepalive every 25 seconds.
pub open spec fn standard_tunables() -> Tunables {
    Tunables {
        probe_window: Duration { nanos: 60_000_000_000 },
        initial_backoff: Duration { nanos: 300_000_000_000 },
        max_backoff: Duration { nanos: 1_800_000_000_000 },
        backoff_multiplier: Ratio { numer: 2, denom: 1 },
        direct_stale_after: Duration { nanos: 300_000_000_000 },
        keepalive: Duration { nanos: 25_000_000_000 },
    }
}

impl Default for Tunables {
    fn default() -> (r: Self)
        ensures
            r == standard_tunables(),
            r.valid(),
            r.probe_window.nanos == 60 * 1_000_000_000,
            r.initial_backoff.nanos == 5 * 60 * 1_000_000_000,
            r.max_backoff.nanos == 30 * 60 * 1_000_000_000,
            r.backoff_multiplier.numer == 2 * r.backoff_multiplier.denom,
            r.backoff_multiplier.denom == 1,
            r.direct_stale_after.nanos == 5 * 60 * 1_000_000_000,
            r.keepalive.nanos == 25 * 1_000_000_000,
    {
        Tunables {
            probe_window: Duration::from_secs(60),
            initial_backoff: Duration::from_secs(300),
            max_backoff: Duration::from_secs(1800),
            backoff_multiplier: Ratio { numer: 2, denom: 1 },
            direct_stale_after: Duration::from_secs(300),
            keepalive: Duration::from_secs(25),
        }
    }
}

/// What is remembered of one peer.
#[derive(Debug, Clone)]
pub struct PeerEntry {
    pub mesh_ip: String,
    pub endpoints: Vec<String>,
    pub hostname: String,
    pub state: ProbeState,
    pub probing_since: Timestamp,
    pub last_handshake: Option<Timestamp>,
    pub backoff: Duration,
    pub next_retry: Option<Timestamp>,
}

/// What is remembered of one peer, as texts and numbers of nanoseconds.
#[verifier::ext_equal]
pub struct EntryModel {
    pub mesh_ip: Seq<char>,
    pub endpoints: Seq<Seq<char>>,
    pub hostname: Seq<char>,
    pub state: ProbeState,
    pub probing_since: int,
    pub last_handshake: Option<int>,
    pub backoff: nat,
    pub next_retry: Option<int>,
}

/// The count of nanoseconds of a point in time that may be absent.
pub open spec fn opt_nanos(t: Option<Timestamp>) -> Option<int> {
    match t {
        Some(t) => Some(t.nanos as int),
        None => None,
    }
}

impl View for PeerEntry {
    type V = EntryModel;

    open spec fn view(&self) -> EntryModel {
        EntryModel {
            mesh_ip: self.mesh_ip@,
            endpoints: text::texts(self.endpoints@),
            hostname: self.hostname@,
            state: self.state,
            probing_since: self.probing_since.nanos as int,
            last_handshake: opt_nanos(self.last_handshake),
            backoff: self.backoff.nanos as nat,
            next_retry: opt_nanos(self.next_retry),
        }
    }
}

// ---------------------------------------------------------------------------
// One peer
// ---------------------------------------------------------------------------
/// A peer counts when it has a key and a mesh address.
pub open spec fn usable(p: PeerModel) -> bool {
    p.wg_public_key.len() > 0 && p.mesh_ip.len() > 0
}

/// The last peer of the list that counts and has the key.
pub open spec fn last_peer(peers: Seq<PeerModel>, key: Seq<char>) -> Option<PeerModel>
    decreases peers.len(),
{
    if peers.len() == 0 {
        None
    } else if usable(peers.last()) && peers.last().wg_public_key == key {
        Some(peers.last())
    } else {
        last_peer(peers.drop_last(), key)
    }
}

/// A peer that is seen for the first time.
pub open spec fn newcomer(t: Tunables, now: int) -> EntryModel {
    EntryModel {
        mesh_ip: Seq::empty(),
        endpoints: Seq::empty(),
        hostname: Seq::empty(),
        state: ProbeState::Probing,
        probing_since: now,
        last_handshake: None,
        backoff: t.initial_backoff.nanos as nat,
        next_retry: None,
    }
}

/// The entry with what the coordinator says of the peer now.
pub open spec fn refreshed(e: EntryModel, p: PeerModel) -> EntryModel {
    EntryModel { mesh_ip: p.mesh_ip, endpoints: p.endpoints, hostname: p.hostname, ..e }
}

/// The handshake that the kernel reports, if there ever was one.
pub open spec fn observed(info: Option<InfoModel>) -> Option<int> {
    match info {
        Some(i) => if i.last_handshake > 0 {
            Some(i.last_handshake * 1_000_000_000)
        } else {
            None
        },
        None => None,
    }
}

/// The later of two handshakes.
pub open spec fn later(a: Option<int>, b: Option<int>) -> Option<int> {
    match (a, b) {
        (Some(x), Some(y)) => if y > x {
            b
        } else {
            a
        },
        (None, Some(_)) => b,
        _ => a,
    }
}

/// The entry had a handshake less than `span` before `now`.
pub open spec fn shook_within(e: EntryModel, span: nat, now: int) -> bool {
    e.last_handshake matches Some(h) && h <= now && now - h < span
}

/// The entry's last handshake is more than `span` before `now`.
pub open spec fn shook_before(e: EntryModel, span: nat, now: int) -> bool {
    e.last_handshake matches Some(h) && now - h > span
}

/// A backoff after one more failure.
pub open spec fn grown(backoff: nat, t: Tunables) -> nat {
    let m = t.backoff_multiplier;
    let g = if m.denom == 0 {
        backoff
    } else {
        backoff * m.numer as nat / m.denom as nat
    };
    if g < t.max_backoff.nanos {
        g
    } else {
        t.max_backoff.nanos as nat
    }
}

/// The entry falls back to the relay and waits.
pub open spec fn demoted(e: EntryModel, now: int) -> EntryModel {
    EntryModel { state: ProbeState::Relay, next_retry: Some(now + e.backoff), ..e }
}

/// One transition of one peer.
pub open spec fn step(
    entry: EntryModel,
    info: Option<InfoModel>,
    t: Tunables,
    now: int,
) -> EntryModel {
    let e = EntryModel { last_handshake: later(entry.last_handshake, observed(info)), ..entry };
    match e.state {
        ProbeState::Probing => if shook_within(e, t.probe_window.nanos as nat, now) {
            EntryModel {
                state: ProbeState::Direct,
                backoff: t.initial_backoff.nanos as nat,
                ..e
            }
        } else if now - e.probing_since > t.probe_window.nanos {
            demoted(e, now)
        } else {
            e
        },
        ProbeState::Direct => if shook_before(e, t.direct_stale_after.nanos as nat, now) {
            demoted(e, now)
        } else {
            e
        },
        ProbeState::Relay => if (e.next_retry matches Some(r) && now > r) {
            EntryModel {
                state: ProbeState::Probing,
                probing_since: now,
                backoff: grown(e.backoff, t),
                ..e
            }
        } else {
            e
        },
        ProbeState::Unknown => EntryModel {
            state: ProbeState::Probing,
            probing_since: now,
            ..e
        },
    }
}

/// The point in time that a Unix time stands for; none where it is not positive.
pub fn unix_to_systemtime(secs: i64) -> (r: Option<Timestamp>)
    ensures
        r == (if secs <= 0 {
            None
        } else {
            Some(Timestamp { nanos: (secs * 1_000_000_000) as i128 })
        }),
        r matches Some(t) ==> t.valid(),
{
    if secs <= 0 {
        return None;
    }
    Some(Timestamp::from_unix(secs))
}

/// A backoff after one more failure.
pub fn grow(backoff: Duration, t: &Tunables) -> (r: Duration)
    requires
        backoff.valid(),
        t.valid(),
    ensures
        r.nanos == grown(backoff.nanos as nat, *t),
        r.valid(),
{
    let m = t.backoff_multiplier;
    let g: u128 = if m.denom == 0 {
        backoff.nanos
    } else {
        assert(backoff.nanos * m.numer < 0x1_0000_0000_0000_0000 * 1_000_000_000 * 0x1_0000_0000)
            by (nonlinear_arith)
            requires
                backoff.nanos < 0x1_0000_0000_0000_0000 * 1_000_000_000,
                m.numer < 0x1_0000_0000,
        ;
        assert(0 <= backoff.nanos * m.numer) by (nonlinear_arith);
        backoff.nanos * (m.numer as u128) / (m.denom as u128)
    };
    if g < t.max_backoff.nanos {
        Duration { nanos: g }
    } else {
        t.max_backoff
    }
}

impl PeerEntry {
    /// Every time in the entry is one that a clock can show.
    pub open spec fn valid(self) -> bool {
        &&& self.probing_since.valid()
        &&& self.last_handshake matches Some(h) ==> h.valid()
        &&& self.backoff.valid()
    }

    /// A peer that is seen for the first time.
    fn newcomer(p: &Peer, t: &Tunables, now: Timestamp) -> (r: Self)
        requires
            t.valid(),
            now.valid(),
        ensures
            r@ == refreshed(newcomer(*t, now.nanos as int), p@),
            r.valid(),
    {
        PeerEntry {
            mesh_ip: p.mesh_ip.clone(),
            endpoints: text::clone_texts(&p.endpoints),
            hostname: p.hostname.clone(),
            state: ProbeState::Probing,
            probing_since: now,
            last_handshake: None,
            backoff: t.initial_backoff,
            next_retry: None,
        }
    }

    /// The entry with what the coordinator says of the peer now.
    fn refresh(&self, p: &Peer) -> (r: Self)
        requires
            self.valid(),
        ensures
            r@ == refreshed(self@, p@),
            r.valid(),
    {
        PeerEntry {
            mesh_ip: p.mesh_ip.clone(),
            endpoints: text::clone_texts(&p.endpoints),
            hostname: p.hostname.clone(),
            state: self.state,
            probing_since: self.probing_since,
            last_handshake: self.last_handshake,
            backoff: self.backoff,
            next_retry: self.next_retry,
        }
    }

    /// One transition.
    pub fn advance(&self, info: Option<&PeerInfo>, t: &Tunables, now: Timestamp) -> (r: Self)
        requires
            self.valid(),
            t.valid(),
            now.valid(),
        ensures
            r@ == step(
                self@,
                match info {
                    Some(i) => Some(i@),
                    None => None,
                },
                *t,
                now.nanos as int,
            ),
            r.valid(),
            self.state == ProbeState::Direct ==> {
                let stale = r.last_handshake matches Some(h) && now.nanos - h.nanos
                    > t.direct_stale_after.nanos;
                r.state == (if stale {
                    ProbeState::Relay
                } else {
                    ProbeState::Direct
                })
            },
    {
        let seen: Option<Timestamp> = match info {
            Some(i) => unix_to_systemtime(i.last_handshake_unix),
            None => None,
        };
        let last: Option<Timestamp> = match (self.last_handshake, seen) {
            (Some(x), Some(y)) => if y.nanos > x.nanos {
                seen
            } else {
                self.last_handshake
            },
            (None, Some(_)) => seen,
            _ => self.last_handshake,
        };
        let mut e = PeerEntry {
            mesh_ip: self.mesh_ip.clone(),
            endpoints: text::clone_texts(&self.endpoints),
            hostname: self.hostname.clone(),
            state: self.state,
            probing_since: self.probing_since,
            last_handshake: last,
            backoff: self.backoff,
            next_retry: self.next_retry,
        };
        match self.state {
            ProbeState::Probing => {
                let fresh: bool = match last {
                    Some(h) => h.nanos <= now.nanos && now.nanos - h.nanos < (t.probe_window.nanos as i128),
                    None => false,
                };
                if fresh {
                    e.state = ProbeState::Direct;
                    e.backoff = t.initial_backoff;
                } else if now.nanos - self.probing_since.nanos > (t.probe_window.nanos as i128) {
                    e.state = ProbeState::Relay;
                    e.next_retry = Some(now.plus(self.backoff));
                }
            },
            ProbeState::Direct => {
                let stale: bool = match last {
                    Some(h) => now.nanos - h.nanos > (t.direct_stale_after.nanos as i128),
                    None => false,
                };
                if stale {
                    e.state = ProbeState::Relay;
                    e.next_retry = Some(now.plus(self.backoff));
                }
            },
            ProbeState::Relay => {
                let due: bool = match self.next_retry {
                    Some(r) => now.nanos > r.nanos,
                    None => false,
                };
                if due {
                    e.state = ProbeState::Probing;
                    e.probing_since = now;
                    e.backoff = grow(self.backoff, t);
                }
            },
            ProbeState::Unknown => {
                e.state = ProbeState::Probing;
                e.probing_since = now;
            },
        }
        e
    }
}

// ---------------------------------------------------------------------------
// The peer set
// ---------------------------------------------------------------------------
/// How many peers are in which state.
#[derive(Debug, Clone, Copy, PartialEq, Eq, Structural)]
pub struct ReconcileSummary {
    pub has_relay: bool,
    pub probing: usize,
    pub direct: usize,
    pub relayed: usize,
}

impl Default for ReconcileSummary {
    fn default() -> (r: Self)
        ensures
            r == (ReconcileSummary { has_relay: false, probing: 0, direct: 0, relayed: 0 }),
    {
        ReconcileSummary { has_relay: false, probing: 0, direct: 0, relayed: 0 }
    }
}

/// The state machine of every peer of the mesh.
pub struct ProbeManager {
    pub tunables: Tunables,
    pub peers: StrMap<PeerEntry>,
}

/// The observed state of the peer with a key.
pub open spec fn info_of(handshakes: Map<Seq<char>, PeerInfo>, key: Seq<char>) -> Option<
    InfoModel,
> {
    if handshakes.contains_key(key) {
        Some(handshakes[key]@)
    } else {
        None
    }
}

/// What is remembered of the peer with a key before the transition: what was
/// remembered, or a newcomer, with what the coordinator says now.
pub open spec fn joined_entry(
    known: Map<Seq<char>, EntryModel>,
    p: PeerModel,
    t: Tunables,
    now: int,
) -> EntryModel {
    refreshed(
        if known.contains_key(p.wg_public_key) {
            known[p.wg_public_key]
        } else {
            newcomer(t, now)
        },
        p,
    )
}

/// What is remembered after a round: an entry for each peer that the
/// coordinator lists, each one transition further.
pub open spec fn reconciled(
    known: Map<Seq<char>, EntryModel>,
    peers: Seq<PeerModel>,
    handshakes: Map<Seq<char>, PeerInfo>,
    t: Tunables,
    now: int,
) -> Map<Seq<char>, EntryModel> {
    Map::new(
        |k: Seq<char>| last_peer(peers, k) is Some,
        |k: Seq<char>|
            step(
                joined_entry(known, last_peer(peers, k)->0, t, now),
                info_of(handshakes, k),
                t,
                now,
            ),
    )
}

/// What the interface gets for the relay: all of the mesh.
pub open spec fn relay_specs(relay: Option<RelayModel>, t: Tunables) -> Seq<SpecModel> {
    match relay {
        Some(r) => if r.wg_public_key.len() > 0 && r.mesh_cidr.len() > 0 {
            seq![
                SpecModel {
                    pub_key: r.wg_public_key,
                    endpoint: if r.endpoint.len() == 0 {
                        None
                    } else {
                        Some(r.endpoint)
                    },
                    allowed_ips: seq![r.mesh_cidr],
                    keepalive: Some(t.keepalive_secs()),
                },
            ]
        } else {
            Seq::empty()
        },
        None => Seq::empty(),
    }
}

/// The first of a peer's endpoints.
pub open spec fn first_endpoint(e: EntryModel) -> Option<Seq<char>> {
    if e.endpoints.len() == 0 {
        None
    } else {
        Some(e.endpoints[0])
    }
}

/// What the interface gets for one peer: while probing, the endpoint and no
/// route, or nothing where there is no endpoint; when direct, the route to the
/// peer alone; on the relay, nothing.
pub open spec fn entry_specs(key: Seq<char>, e: EntryModel, t: Tunables) -> Seq<SpecModel> {
    match e.state {
        ProbeState::Probing => if e.endpoints.len() == 0 {
            Seq::empty()
        } else {
            seq![
                SpecModel {
                    pub_key: key,
                    endpoint: first_endpoint(e),
                    allowed_ips: Seq::empty(),
                    keepalive: Some(t.keepalive_secs()),
                },
            ]
        },
        ProbeState::Direct => seq![
            SpecModel {
                pub_key: key,
                endpoint: first_endpoint(e),
                allowed_ips: seq![e.mesh_ip + "/32"@],
                keepalive: Some(t.keepalive_secs()),
            },
        ],
        _ => Seq::empty(),
    }
}

/// What the interface gets for all peers, in the order of `keys`.
pub open spec fn peer_specs(
    keys: Seq<Seq<char>>,
    m: Map<Seq<char>, EntryModel>,
    t: Tunables,
) -> Seq<SpecModel>
    decreases keys.len(),
{
    if keys.len() == 0 {
        Seq::empty()
    } else {
        peer_specs(keys.drop_last(), m, t) + entry_specs(keys.last(), m[keys.last()], t)
    }
}

/// How many of `keys` are in a state.
pub open spec fn count_in(
    keys: Seq<Seq<char>>,
    m: Map<Seq<char>, EntryModel>,
    state: ProbeState,
) -> nat
    decreases keys.len(),
{
    if keys.len() == 0 {
        0
    } else {
        count_in(keys.drop_last(), m, state) + (if m[keys.last()].state == state {
            1nat
        } else {
            0nat
        })
    }
}

/// No more than there are.
proof fn count_in_bounded(keys: Seq<Seq<char>>, m: Map<Seq<char>, EntryModel>, state: ProbeState)
    ensures
        count_in(keys, m, state) <= keys.len(),
    decreases keys.len(),
{
    if keys.len() > 0 {
        count_in_bounded(keys.drop_last(), m, state);
    }
}

/// The models of the entries of a map.
pub open spec fn entry_models(m: Map<Seq<char>, PeerEntry>) -> Map<Seq<char>, EntryModel> {
    Map::new(|k: Seq<char>| m.contains_key(k), |k: Seq<char>| m[k]@)
}

impl ProbeManager {
    /// What is remembered, by key.
    pub open spec fn view(self) -> Map<Seq<char>, EntryModel> {
        entry_models(self.peers@)
    }

    /// The keys, in ascending order.
    pub open spec fn order(self) -> Seq<Seq<char>> {
        self.peers.key_seq()
    }

    /// The entries stand in key order, with times that a clock can show.
    pub open spec fn wf(self) -> bool {
        &&& self.peers.wf()
        &&& forall|i: int|
            0 <= i < self.peers.val_seq().len() ==> (#[trigger] self.peers.val_seq()[i]).valid()
    }

    /// The order holds each key once, ascending.
    pub proof fn order_of_keys(self)
        requires
            self.wf(),
        ensures
            crate::strmap::ascending(self.order()),
            forall|k: Seq<char>| self.order().contains(k) <==> self@.contains_key(k),
    {
    }

    /// Nothing remembered, default times.
    pub fn new() -> (r: Self)
        ensures
            r.wf(),
            r@ == Map::<Seq<char>, EntryModel>::empty(),
            r.tunables == standard_tunables(),
            r.tunables.valid(),
    {
        let r = ProbeManager { tunables: Tunables::default(), peers: StrMap::new() };
        assert(r@ =~= Map::<Seq<char>, EntryModel>::empty());
        r
    }

    /// An entry for each peer that the coordinator lists: the one there was, or
    /// a newcomer, with what the coordinator says now. Entries of peers that are
    /// no longer listed are gone.
    fn joined(&self, peers: &[Peer], now: Timestamp) -> (r: StrMap<PeerEntry>)
        requires
            self.wf(),
            self.tunables.valid(),
            now.valid(),
        ensures
            r.wf(),
            forall|i: int| 0 <= i < r.val_seq().len() ==> (#[trigger] r.val_seq()[i]).valid(),
            forall|k: Seq<char>|
                #[trigger] r@.contains_key(k) <==> last_peer(crate::api::peer_models(peers@), k) is Some,
            forall|k: Seq<char>| #[trigger]
                r@.contains_key(k) ==> r@[k]@ == joined_entry(
                    self@,
                    last_peer(crate::api::peer_models(peers@), k)->0,
                    self.tunables,
                    now.nanos as int,
                ),
    {
        let ghost ms = crate::api::peer_models(peers@);
        let ghost t = self.tunables;
        let ghost at = now.nanos as int;
        let mut out: StrMap<PeerEntry> = StrMap::new();
        let mut i: usize = 0;
        while i < peers.len()
            invariant
                self.wf(),
                self.tunables.valid(),
                t == self.tunables,
                now.valid(),
                at == now.nanos,
                i <= peers@.len(),
                ms == crate::api::peer_models(peers@),
                out.wf(),
                forall|k: Seq<char>| #[trigger] out@.contains_key(k) ==> out@[k].valid(),
                forall|k: Seq<char>|
                    #[trigger] out@.contains_key(k) <==> last_peer(ms.take(i as int), k) is Some,
                forall|k: Seq<char>| #[trigger]
                    out@.contains_key(k) ==> out@[k]@ == joined_entry(
                        self@,
                        last_peer(ms.take(i as int), k)->0,
                        t,
                        at,
                    ),
            decreases peers@.len() - i,
        {
            let p = &peers[i];
            proof {
                assert(ms.take(i + 1).drop_last() =~= ms.take(i as int));
                assert(ms.take(i + 1).last() == p@);
            }
            if !p.wg_public_key.as_str().is_empty() && !p.mesh_ip.as_str().is_empty() {
                let key = p.wg_public_key.clone();
                let entry = match out.get(key.as_str()) {
                    Some(e) => {
                        proof {
                            last_peer_key(ms.take(i as int), key@);
                        }
                        e.refresh(p)
                    },
                    None => match self.peers.get(key.as_str()) {
                        Some(e) => {
                            proof {
                                let j = self.peers.key_seq().index_of(key@);
                                self.peers.entry(j);
                            }
                            e.refresh(p)
                        },
                        None => PeerEntry::newcomer(p, &self.tunables, now),
                    },
                };
                assert(entry@ == joined_entry(self@, p@, t, at));
                let ghost was = out@;
                out.insert(key, entry);
                assert forall|k: Seq<char>| #[trigger] out@.contains_key(k) implies out@[k]@
                    == joined_entry(self@, last_peer(ms.take(i + 1), k)->0, t, at) by {
                    if k != p@.wg_public_key {
                        assert(was.contains_key(k));
                    }
                }
            }
            i = i + 1;
        }
        assert(ms.take(peers@.len() as int) =~= ms);
        proof {
            assert forall|i: int| 0 <= i < out.val_seq().len() implies (
            #[trigger] out.val_seq()[i]).valid() by {
                out.entry(i);
            }
        }
        out
    }

    /// Run one round of the state machine. The result is the peer set that the
    /// interface should have, the relay first and then the peers in key order,
    /// and how many peers are in which state.
    pub fn reconcile(
        &mut self,
        peers: &[Peer],
        relay: Option<&Relay>,
        handshakes: &StrMap<PeerInfo>,
        now: Timestamp,
    ) -> (r: (Vec<PeerSpec>, ReconcileSummary))
        requires
            old(self).wf(),
            old(self).tunables.valid(),
            handshakes.wf(),
            now.valid(),
        ensures
            final(self).wf(),
            final(self).tunables == old(self).tunables,
            final(self)@ == reconciled(
                old(self)@,
                crate::api::peer_models(peers@),
                handshakes@,
                old(self).tunables,
                now.nanos as int,
            ),
            crate::wglink::spec_models(r.0@) == relay_specs(relay_of(relay), old(self).tunables)
                + peer_specs(final(self).order(), final(self)@, old(self).tunables),
            r.1.has_relay == (relay_specs(relay_of(relay), old(self).tunables).len() == 1),
            r.1.probing == count_in(final(self).order(), final(self)@, ProbeState::Probing),
            r.1.direct == count_in(final(self).order(), final(self)@, ProbeState::Direct),
            r.1.relayed == count_in(final(self).order(), final(self)@, ProbeState::Relay),
    {
        let ghost known = self@;
        let ghost ms = crate::api::peer_models(peers@);
        let ghost t = self.tunables;
        let ghost at = now.nanos as int;
        let mut next = self.joined(peers, now);
        let ghost start = next;
        let n = next.len();
        let mut i: usize = 0;
        while i < n
            invariant
                t == self.tunables,
                t.valid(),
                now.valid(),
                at == now.nanos,
                handshakes.wf(),
                start.wf(),
                next.wf(),
                n == next.key_seq().len(),
                i <= n,
                next.key_seq() == start.key_seq(),
                forall|j: int| 0 <= j < n ==> (#[trigger] next.val_seq()[j]).valid(),
                forall|j: int|
                    0 <= j < i ==> (#[trigger] next.val_seq()[j])@ == step(
                        start.val_seq()[j]@,
                        info_of(handshakes@, start.key_seq()[j]),
                        t,
                        at,
                    ),
                forall|j: int|
                    i <= j < n ==> #[trigger] next.val_seq()[j] == start.val_seq()[j],
            decreases n - i,
        {
            let info = handshakes.get(next.key_at(i).as_str());
            let e = next.val_at(i).advance(info, &self.tunables, now);
            next.set_val(i, e);
            i = i + 1;
        }
        self.peers = next;
        proof {
            let want = reconciled(known, ms, handshakes@, t, at);
            assert forall|k: Seq<char>| self@.contains_key(k) <==> want.contains_key(k) by {
                assert(next@.contains_key(k) <==> start@.contains_key(k));
            }
            assert forall|k: Seq<char>| #[trigger] self@.contains_key(k) implies self@[k] == want[k] by {
                let j = next.key_seq().index_of(k);
                next.entry(j);
                start.entry(j);
                assert(start@.contains_key(k));
            }
            assert(self@ =~= want);
        }
        self.specs_for(relay)
    }

    /// The peer set that the interface should have for what is remembered.
    fn specs_for(&self, relay: Option<&Relay>) -> (r: (Vec<PeerSpec>, ReconcileSummary))
        requires
            self.wf(),
            self.tunables.valid(),
        ensures
            crate::wglink::spec_models(r.0@) == relay_specs(relay_of(relay), self.tunables)
                + peer_specs(self.order(), self@, self.tunables),
            r.1.has_relay == (relay_specs(relay_of(relay), self.tunables).len() == 1),
            r.1.probing == count_in(self.order(), self@, ProbeState::Probing),
            r.1.direct == count_in(self.order(), self@, ProbeState::Direct),
            r.1.relayed == count_in(self.order(), self@, ProbeState::Relay),
    {
        let ghost t = self.tunables;
        let ghost keys = self.order();
        let keepalive = self.tunables.keepalive_u32();
        let mut specs: Vec<PeerSpec> = Vec::new();
        let mut summary = ReconcileSummary::default();
        match relay {
            Some(r) => {
                if !r.wg_public_key.as_str().is_empty() && !r.mesh_cidr.as_str().is_empty() {
                    let mut allowed: Vec<String> = Vec::new();
                    allowed.push(r.mesh_cidr.clone());
                    assert(text::texts(allowed@) =~= seq![r.mesh_cidr@]);
                    specs.push(
                        PeerSpec {
                            pub_key_b64: r.wg_public_key.clone(),
                            endpoint: if r.endpoint.as_str().is_empty() {
                                None
                            } else {
                                Some(r.endpoint.clone())
                            },
                            allowed_ips: allowed,
                            keepalive_secs: Some(keepalive),
                        },
                    );
                    summary.has_relay = true;
                }
            },
            None => {},
        }
        let ghost head = relay_specs(relay_of(relay), t);
        assert(crate::wglink::spec_models(specs@) =~= head);
        let n = self.peers.len();
        let mut i: usize = 0;
        assert(head + peer_specs(keys.take(0), self@, t) =~= head);
        while i < n
            invariant
                self.wf(),
                t == self.tunables,
                t.valid(),
                keys == self.order(),
                keepalive == t.keepalive_secs(),
                n == keys.len(),
                i <= n,
                crate::wglink::spec_models(specs@) == head + peer_specs(
                    keys.take(i as int),
                    self@,
                    t,
                ),
                summary.has_relay == (head.len() == 1),
                summary.probing == count_in(keys.take(i as int), self@, ProbeState::Probing),
                summary.direct == count_in(keys.take(i as int), self@, ProbeState::Direct),
                summary.relayed == count_in(keys.take(i as int), self@, ProbeState::Relay),
            decreases n - i,
        {
            let key = self.peers.key_at(i);
            let e = self.peers.val_at(i);
            let ghost was = specs@;
            proof {
                self.peers.entry(i as int);
                assert(keys.take(i + 1).drop_last() =~= keys.take(i as int));
                assert(keys.take(i + 1).last() == key@);
                assert(self@[key@] == e@);
                count_in_bounded(keys.take(i as int), self@, ProbeState::Probing);
                count_in_bounded(keys.take(i as int), self@, ProbeState::Direct);
                count_in_bounded(keys.take(i as int), self@, ProbeState::Relay);
            }
            match e.state {
                ProbeState::Probing => {
                    summary.probing = summary.probing + 1;
                    if e.endpoints.len() > 0 {
                        let allowed: Vec<String> = Vec::new();
                        assert(text::texts(allowed@) =~= Seq::<Seq<char>>::empty());
                        specs.push(
                            PeerSpec {
                                pub_key_b64: key.clone(),
                                endpoint: Some(e.endpoints[0].clone()),
                                allowed_ips: allowed,
                                keepalive_secs: Some(keepalive),
                            },
                        );
                    }
                },
                ProbeState::Direct => {
                    summary.direct = summary.direct + 1;
                    let mut allowed: Vec<String> = Vec::new();
                    allowed.push(e.mesh_ip.clone().concat("/32"));
                    assert(text::texts(allowed@) =~= seq![e.mesh_ip@ + "/32"@]);
                    specs.push(
                        PeerSpec {
                            pub_key_b64: key.clone(),
                            endpoint: if e.endpoints.len() > 0 {
                                Some(e.endpoints[0].clone())
                            } else {
                                None
                            },
                            allowed_ips: allowed,
                            keepalive_secs: Some(keepalive),
                        },
                    );
                },
                ProbeState::Relay => {
                    summary.relayed = summary.relayed + 1;
                },
                ProbeState::Unknown => {},
            }
            assert(crate::wglink::spec_models(specs@) =~= crate::wglink::spec_models(was)
                + entry_specs(key@, e@, t));
            assert(crate::wglink::spec_models(specs@) =~= head + peer_specs(
                keys.take(i + 1),
                self@,
                t,
            ));
            i = i + 1;
        }
        assert(keys.take(n as int) =~= keys);
        (specs, summary)
    }

    /// The state of a peer.
    pub fn entry_state(&self, pub_b64: &str) -> (r: Option<ProbeState>)
        requires
            self.wf(),
        ensures
            r == (if self@.contains_key(pub_b64@) {
                Some(self@[pub_b64@].state)
            } else {
                None
            }),
    {
        match self.peers.get(pub_b64) {
            Some(e) => Some(e.state),
            None => None,
        }
    }

    /// How long a peer waits after its next failure.
    pub fn entry_backoff(&self, pub_b64: &str) -> (r: Option<Duration>)
        requires
            self.wf(),
        ensures
            match r {
                Some(d) => self@.contains_key(pub_b64@) && d.nanos == self@[pub_b64@].backoff,
                None => !self@.contains_key(pub_b64@),
            },
    {
        match self.peers.get(pub_b64) {
            Some(e) => Some(e.backoff),
            None => None,
        }
    }

    /// When a peer is probed again.
    pub fn entry_next_retry(&self, pub_b64: &str) -> (r: Option<Timestamp>)
        requires
            self.wf(),
        ensures
            opt_nanos(r) == (if self@.contains_key(pub_b64@) {
                self@[pub_b64@].next_retry
            } else {
                None
            }),
    {
        match self.peers.get(pub_b64) {
            Some(e) => e.next_retry,
            None => None,
        }
    }

    /// Is the peer remembered?
    pub fn has_entry(&self, pub_b64: &str) -> (r: bool)
        requires
            self.wf(),
        ensures
            r == self@.contains_key(pub_b64@),
    {
        self.peers.contains_key(pub_b64)
    }
}

/// The last peer with a key has that key.
proof fn last_peer_key(peers: Seq<PeerModel>, key: Seq<char>)
    ensures
        last_peer(peers, key) matches Some(p) ==> usable(p) && p.wg_public_key == key,
    decreases peers.len(),
{
    if peers.len() > 0 {
        last_peer_key(peers.drop_last(), key);
    }
}

/// The model of a relay that may be absent.
pub open spec fn relay_of(v: Option<&Relay>) -> Option<RelayModel> {
    match v {
        Some(r) => Some(r@),
        None => None,
    }
}

impl Default for ProbeManager {
    fn default() -> (r: Self)
        ensures
            r.wf(),
            r@ == Map::<Seq<char>, EntryModel>::empty(),
            r.tunables == standard_tunables(),
            r.tunables.valid(),
    {
        ProbeManager::new()
    }
}

// ---------------------------------------------------------------------------
// Laws
// ---------------------------------------------------------------------------
/// May a peer go from one state to the other in one transition?
pub open spec fn may_follow(from: ProbeState, to: ProbeState) -> bool {
    match from {
        ProbeState::Unknown => to == ProbeState::Probing,
        ProbeState::Probing => to != ProbeState::Unknown,
        ProbeState::Direct => to == ProbeState::Direct || to == ProbeState::Relay,
        ProbeState::Relay => to == ProbeState::Relay || to == ProbeState::Probing,
    }
}

/// A transition leads from an unknown peer to probing; from probing to direct
/// or to the relay; from direct to the relay; from the relay to probing.
/// No other change of state occurs.
pub proof fn transitions(e: EntryModel, info: Option<InfoModel>, t: Tunables, now: int)
    ensures
        may_follow(e.state, step(e, info, t, now).state),
{
}

/// A probed peer becomes direct exactly when it had a handshake within the
/// probe window, and then its backoff starts over.
pub proof fn promotion(e: EntryModel, info: Option<InfoModel>, t: Tunables, now: int)
    requires
        e.state == ProbeState::Probing,
    ensures
        ({
            let n = step(e, info, t, now);
            &&& n.state == ProbeState::Direct <==> shook_within(
                n,
                t.probe_window.nanos as nat,
                now,
            )
            &&& n.state == ProbeState::Direct ==> n.backoff == t.initial_backoff.nanos
        }),
{
}

/// A handshake that was seen is never forgotten for an older one.
pub proof fn handshakes_advance(e: EntryModel, info: Option<InfoModel>, t: Tunables, now: int)
    ensures
        e.last_handshake matches Some(h) ==> (step(e, info, t, now).last_handshake matches Some(n)
            && h <= n),
        observed(info) matches Some(h) ==> (step(e, info, t, now).last_handshake matches Some(n)
            && h <= n),
{
}

/// A peer on the relay has a time at which it is tried again.
pub open spec fn retry_set(e: EntryModel) -> bool {
    e.state == ProbeState::Relay ==> e.next_retry is Some
}

/// Whatever happens, a peer on the relay has a time at which it is tried
/// again, and once that time has passed the next transition probes it.
pub proof fn relay_is_retried(
    known: Map<Seq<char>, EntryModel>,
    peers: Seq<PeerModel>,
    handshakes: Map<Seq<char>, PeerInfo>,
    t: Tunables,
    now: int,
)
    requires
        forall|k: Seq<char>| #[trigger] known.contains_key(k) ==> retry_set(known[k]),
    ensures
        ({
            let m = reconciled(known, peers, handshakes, t, now);
            &&& forall|k: Seq<char>| #[trigger] m.contains_key(k) ==> retry_set(m[k])
            &&& forall|k: Seq<char>| #[trigger]
                m.contains_key(k) && known.contains_key(k) && known[k].state == ProbeState::Relay
                    && now > known[k].next_retry->0 ==> m[k].state == ProbeState::Probing
        }),
{
    let m = reconciled(known, peers, handshakes, t, now);
    assert forall|k: Seq<char>| #[trigger] m.contains_key(k) implies retry_set(m[k]) && (
    known.contains_key(k) && known[k].state == ProbeState::Relay && now > known[k].next_retry->0
        ==> m[k].state == ProbeState::Probing) by {
        last_peer_key(peers, k);
    }
}

/// A direct peer has had a handshake.
pub open spec fn direct_seen(e: EntryModel) -> bool {
    e.state == ProbeState::Direct ==> e.last_handshake is Some
}

/// Whatever happens, a direct peer has had a handshake, and after a round its
/// last one is no older than the probe window or the time after which it is
/// stale, whichever is longer: a peer that falls silent loses its route.
pub proof fn direct_is_alive(
    known: Map<Seq<char>, EntryModel>,
    peers: Seq<PeerModel>,
    handshakes: Map<Seq<char>, PeerInfo>,
    t: Tunables,
    now: int,
)
    requires
        forall|k: Seq<char>| #[trigger] known.contains_key(k) ==> direct_seen(known[k]),
    ensures
        ({
            let m = reconciled(known, peers, handshakes, t, now);
            forall|k: Seq<char>| #[trigger]
                m.contains_key(k) ==> direct_seen(m[k]) && (m[k].state == ProbeState::Direct ==> {
                    let age = now - m[k].last_handshake->0;
                    age <= t.probe_window.nanos || age <= t.direct_stale_after.nanos
                })
        }),
{
    let m = reconciled(known, peers, handshakes, t, now);
    assert forall|k: Seq<char>| #[trigger] m.contains_key(k) implies direct_seen(m[k]) && (
    m[k].state == ProbeState::Direct ==> {
        let age = now - m[k].last_handshake->0;
        age <= t.probe_window.nanos || age <= t.direct_stale_after.nanos
    }) by {
        last_peer_key(peers, k);
    }
}

/// The backoff lies between the initial and the greatest one.
pub open spec fn backoff_in_range(e: EntryModel, t: Tunables) -> bool {
    t.initial_backoff.nanos <= e.backoff <= t.max_backoff.nanos
}

/// With a factor of at least one, every backoff stays between the initial one
/// and the cap.
pub proof fn backoff_bounded(
    known: Map<Seq<char>, EntryModel>,
    peers: Seq<PeerModel>,
    handshakes: Map<Seq<char>, PeerInfo>,
    t: Tunables,
    now: int,
)
    requires
        t.initial_backoff.nanos <= t.max_backoff.nanos,
        t.backoff_multiplier.numer >= t.backoff_multiplier.denom,
        forall|k: Seq<char>| #[trigger] known.contains_key(k) ==> backoff_in_range(known[k], t),
    ensures
        forall|k: Seq<char>| #[trigger]
            reconciled(known, peers, handshakes, t, now).contains_key(k) ==> backoff_in_range(
                reconciled(known, peers, handshakes, t, now)[k],
                t,
            ),
{
    let m = reconciled(known, peers, handshakes, t, now);
    assert forall|k: Seq<char>| #[trigger] m.contains_key(k) implies backoff_in_range(m[k], t) by {
        let e = joined_entry(known, last_peer(peers, k)->0, t, now);
        last_peer_key(peers, k);
        growth(e.backoff, t);
    }
}

/// With a factor of at least one a backoff below the cap does not shrink, and
/// with the factor two it doubles, up to the cap.
pub proof fn growth(backoff: nat, t: Tunables)
    requires
        t.backoff_multiplier.numer >= t.backoff_multiplier.denom,
    ensures
        backoff <= t.max_backoff.nanos ==> backoff <= grown(backoff, t),
        grown(backoff, t) <= t.max_backoff.nanos,
        t.backoff_multiplier == (Ratio { numer: 2, denom: 1 }) ==> grown(backoff, t) == (if 2
            * backoff < t.max_backoff.nanos {
            (2 * backoff) as nat
        } else {
            t.max_backoff.nanos as nat
        }),
{
    let n = t.backoff_multiplier.numer as nat;
    let d = t.backoff_multiplier.denom as nat;
    if d > 0 {
        assert(backoff <= backoff * n / d) by (nonlinear_arith)
            requires
                n >= d,
                d > 0,
        ;
    }
    assert(backoff * 2 / 1 == 2 * backoff);
}

/// Does the interface get an entry for the key?
pub open spec fn speced(specs: Seq<SpecModel>, key: Seq<char>) -> bool {
    exists|i: int| 0 <= i < specs.len() && (#[trigger] specs[i]).pub_key == key
}

/// Every entry that the interface gets for a peer belongs to a peer of the set.
/// One that is probed claims no route; one that is direct claims the peer's own
/// address and nothing else; no other peer has one.
pub proof fn routes(keys: Seq<Seq<char>>, m: Map<Seq<char>, EntryModel>, t: Tunables)
    ensures
        forall|i: int|
            0 <= i < peer_specs(keys, m, t).len() ==> {
                let s = #[trigger] peer_specs(keys, m, t)[i];
                let e = m[s.pub_key];
                &&& keys.contains(s.pub_key)
                &&& s.endpoint == first_endpoint(e)
                &&& s.keepalive == Some(t.keepalive_secs())
                &&& (e.state == ProbeState::Probing && s.allowed_ips.len() == 0) || (e.state
                    == ProbeState::Direct && s.allowed_ips == seq![e.mesh_ip + "/32"@])
            },
    decreases keys.len(),
{
    if keys.len() > 0 {
        let init = keys.drop_last();
        routes(init, m, t);
        let head = peer_specs(init, m, t);
        let all = peer_specs(keys, m, t);
        assert forall|i: int| 0 <= i < all.len() implies {
            let s = #[trigger] all[i];
            let e = m[s.pub_key];
            &&& keys.contains(s.pub_key)
            &&& s.endpoint == first_endpoint(e)
            &&& s.keepalive == Some(t.keepalive_secs())
            &&& (e.state == ProbeState::Probing && s.allowed_ips.len() == 0) || (e.state
                == ProbeState::Direct && s.allowed_ips == seq![e.mesh_ip + "/32"@])
        } by {
            if i < head.len() {
                assert(all[i] == head[i]);
                let j = init.index_of(head[i].pub_key);
                assert(keys[j] == head[i].pub_key);
            } else {
                assert(all[i].pub_key == keys[keys.len() - 1]);
            }
        }
    }
}

/// A peer on the relay has no entry on the interface, so that its traffic
/// falls to the coordinator's route.
pub proof fn relayed_is_absent(
    keys: Seq<Seq<char>>,
    m: Map<Seq<char>, EntryModel>,
    t: Tunables,
    key: Seq<char>,
)
    requires
        m[key].state == ProbeState::Relay,
    ensures
        !speced(peer_specs(keys, m, t), key),
{
    routes(keys, m, t);
}

/// A direct peer has an entry on the interface, and so has one that is probed
/// and has an endpoint.
pub proof fn direct_is_speced(
    keys: Seq<Seq<char>>,
    m: Map<Seq<char>, EntryModel>,
    t: Tunables,
    key: Seq<char>,
)
    requires
        keys.contains(key),
        m[key].state == ProbeState::Direct || (m[key].state == ProbeState::Probing
            && m[key].endpoints.len() > 0),
    ensures
        speced(peer_specs(keys, m, t), key),
    decreases keys.len(),
{
    let init = keys.drop_last();
    let head = peer_specs(init, m, t);
    let all = peer_specs(keys, m, t);
    if keys.last() == key {
        assert(all[head.len() as int].pub_key == key);
    } else {
        let j = keys.index_of(key);
        assert(init[j] == key);
        direct_is_speced(init, m, t, key);
        let i = choose|i: int| 0 <= i < head.len() && (#[trigger] head[i]).pub_key == key;
        assert(all[i] == head[i]);
    }
}

/// The relay is on the interface, with the whole mesh, whatever the peers do.
pub proof fn relay_always_speced(
    relay: RelayModel,
    keys: Seq<Seq<char>>,
    m: Map<Seq<char>, EntryModel>,
    t: Tunables,
)
    requires
        relay.wg_public_key.len() > 0,
        relay.mesh_cidr.len() > 0,
    ensures
        ({
            let specs = relay_specs(Some(relay), t) + peer_specs(keys, m, t);
            &&& specs.len() > 0
            &&& specs[0].pub_key == relay.wg_public_key
            &&& specs[0].allowed_ips == seq![relay.mesh_cidr]
        }),
{
}

/// No peer has two entries on the interface.
pub proof fn one_entry_per_peer(keys: Seq<Seq<char>>, m: Map<Seq<char>, EntryModel>, t: Tunables)
    requires
        crate::strmap::ascending(keys),
    ensures
        forall|i: int, j: int|
            0 <= i < j < peer_specs(keys, m, t).len() ==> (#[trigger] peer_specs(
                keys,
                m,
                t,
            )[i]).pub_key != (#[trigger] peer_specs(keys, m, t)[j]).pub_key,
    decreases keys.len(),
{
    if keys.len() > 0 {
        let init = keys.drop_last();
        let head = peer_specs(init, m, t);
        let all = peer_specs(keys, m, t);
        assert forall|i: int, j: int| 0 <= i < j < init.len() implies #[trigger] text::lex_lt(
            init[i],
            init[j],
        ) by {
            assert(text::lex_lt(keys[i], keys[j]));
        }
        one_entry_per_peer(init, m, t);
        routes(init, m, t);
        assert forall|i: int, j: int| 0 <= i < j < all.len() implies (#[trigger] all[i]).pub_key
            != (#[trigger] all[j]).pub_key by {
            if j < head.len() {
                assert(all[i] == head[i] && all[j] == head[j]);
            } else {
                assert(all[j].pub_key == keys.last());
                assert(i < head.len());
                assert(all[i] == head[i]);
                let k = init.index_of(head[i].pub_key);
                assert(text::lex_lt(keys[k], keys[keys.len() - 1]));
                text::lex_irreflexive(keys.last());
            }
        }
    }
}

/// The last handshake of a peer after a round is the later of the one that is
/// remembered and the one that the kernel reports, in seconds; a report that is
/// not positive is none.
pub proof fn round_handshake(
    known: Map<Seq<char>, EntryModel>,
    peers: Seq<PeerModel>,
    handshakes: Map<Seq<char>, PeerInfo>,
    t: Tunables,
    now: int,
    k: Seq<char>,
)
    requires
        reconciled(known, peers, handshakes, t, now).contains_key(k),
    ensures
        ({
            let kept = known.contains_key(k) && known[k].last_handshake is Some;
            let seen = handshakes.contains_key(k) && handshakes[k].last_handshake_unix > 0;
            let a = known[k].last_handshake->0;
            let b = handshakes[k].last_handshake_unix * 1_000_000_000;
            let h = reconciled(known, peers, handshakes, t, now)[k].last_handshake;
            &&& h is Some <==> kept || seen
            &&& kept ==> h->0 >= a
            &&& seen ==> h->0 >= b
            &&& h is Some ==> (kept && h->0 == a) || (seen && h->0 == b)
        }),
{
    last_peer_key(peers, k);
}

/// A direct peer falls to the relay in a round if and only if its last handshake
/// is more than the stale time before now; otherwise it stays direct. Nothing
/// else decides, and nothing but the retry time changes.
pub proof fn round_of_direct(
    known: Map<Seq<char>, EntryModel>,
    peers: Seq<PeerModel>,
    handshakes: Map<Seq<char>, PeerInfo>,
    t: Tunables,
    now: int,
    k: Seq<char>,
)
    requires
        reconciled(known, peers, handshakes, t, now).contains_key(k),
        known.contains_key(k),
        known[k].state == ProbeState::Direct,
    ensures
        ({
            let e = known[k];
            let n = reconciled(known, peers, handshakes, t, now)[k];
            let stale = n.last_handshake is Some && now - n.last_handshake->0
                > t.direct_stale_after.nanos;
            &&& n.state == ProbeState::Relay <==> stale
            &&& n.state == ProbeState::Direct <==> !stale
            &&& n.backoff == e.backoff
            &&& n.probing_since == e.probing_since
            &&& stale ==> n.next_retry == Some(now + e.backoff)
            &&& !stale ==> n.next_retry == e.next_retry
        }),
{
    last_peer_key(peers, k);
}

/// A peer that is probed becomes direct in a round if and only if its last
/// handshake is not in the future and less than the probe window before now.
/// Otherwise it falls to the relay if and only if it has been probed for more
/// than the window. Nothing else decides.
#[verifier::rlimit(40)]
pub proof fn round_of_probing(
    known: Map<Seq<char>, EntryModel>,
    peers: Seq<PeerModel>,
    handshakes: Map<Seq<char>, PeerInfo>,
    t: Tunables,
    now: int,
    k: Seq<char>,
)
    requires
        reconciled(known, peers, handshakes, t, now).contains_key(k),
        known.contains_key(k),
        known[k].state == ProbeState::Probing,
    ensures
        ({
            let e = known[k];
            let n = reconciled(known, peers, handshakes, t, now)[k];
            let shook = n.last_handshake is Some && 0 <= now - n.last_handshake->0 < (
            t.probe_window.nanos as int);
            let timed_out = now - e.probing_since > t.probe_window.nanos;
            &&& n.state == ProbeState::Direct <==> shook
            &&& n.state == ProbeState::Relay <==> !shook && timed_out
            &&& n.state == ProbeState::Probing <==> !shook && !timed_out
            &&& n.probing_since == e.probing_since
            &&& n.backoff == (if shook {
                t.initial_backoff.nanos as nat
            } else {
                e.backoff
            })
            &&& n.next_retry == (if !shook && timed_out {
                Some(now + e.backoff)
            } else {
                e.next_retry
            })
        }),
{
    last_peer_key(peers, k);
}

/// A peer on the relay is probed again in a round if and only if its retry time
/// has passed; then its backoff has grown by the factor, rounded down, up to the
/// cap. Otherwise nothing changes, not even on a handshake.
#[verifier::rlimit(40)]
pub proof fn round_of_relay(
    known: Map<Seq<char>, EntryModel>,
    peers: Seq<PeerModel>,
    handshakes: Map<Seq<char>, PeerInfo>,
    t: Tunables,
    now: int,
    k: Seq<char>,
)
    requires
        reconciled(known, peers, handshakes, t, now).contains_key(k),
        known.contains_key(k),
        known[k].state == ProbeState::Relay,
    ensures
        ({
            let e = known[k];
            let n = reconciled(known, peers, handshakes, t, now)[k];
            let due = e.next_retry is Some && now > e.next_retry->0;
            let numer = t.backoff_multiplier.numer as int;
            let denom = t.backoff_multiplier.denom as int;
            let cap = t.max_backoff.nanos as int;
            &&& n.state == ProbeState::Probing <==> due
            &&& n.state == ProbeState::Relay <==> !due
            &&& n.next_retry == e.next_retry
            &&& due ==> {
                &&& n.probing_since == now
                &&& n.backoff <= cap
                &&& denom > 0 ==> n.backoff * denom <= e.backoff * numer
                &&& denom > 0 && n.backoff < cap ==> e.backoff * numer < (n.backoff + 1) * denom
                &&& denom == 0 ==> n.backoff == cap || n.backoff == e.backoff
                &&& denom == 0 ==> n.backoff <= e.backoff
            }
            &&& !due ==> n.probing_since == e.probing_since && n.backoff == e.backoff
        }),
{
    last_peer_key(peers, k);
    let e = known[k];
    let numer = t.backoff_multiplier.numer as int;
    let d = t.backoff_multiplier.denom as int;
    if d > 0 {
        let x = e.backoff * numer;
        assert(0 <= x) by (nonlinear_arith)
            requires
                x == e.backoff * numer,
                numer >= 0,
                e.backoff >= 0,
        ;
        let q = x / d;
        vstd::arithmetic::div_mod::lemma_fundamental_div_mod(x, d);
        vstd::arithmetic::div_mod::lemma_mod_bound(x, d);
        assert(q * d <= x < (q + 1) * d) by (nonlinear_arith)
            requires
                x == d * q + x % d,
                0 <= x % d < d,
        ;
        let g = grown(e.backoff, t);
        assert(g <= q);
        assert(g * d <= q * d) by (nonlinear_arith)
            requires
                g <= q,
                d > 0,
        ;
    }
}

/// A peer that is new to the list is probed from now on, unless the kernel
/// already reports a handshake within the window; no retry is set and its
/// backoff is the initial one.
pub proof fn round_of_newcomer(
    known: Map<Seq<char>, EntryModel>,
    peers: Seq<PeerModel>,
    handshakes: Map<Seq<char>, PeerInfo>,
    t: Tunables,
    now: int,
    k: Seq<char>,
)
    requires
        reconciled(known, peers, handshakes, t, now).contains_key(k),
        !known.contains_key(k),
    ensures
        ({
            let n = reconciled(known, peers, handshakes, t, now)[k];
            let b = handshakes[k].last_handshake_unix * 1_000_000_000;
            let shook = handshakes.contains_key(k) && handshakes[k].last_handshake_unix > 0 && 0
                <= now - b < (t.probe_window.nanos as int);
            &&& n.state == (if shook {
                ProbeState::Direct
            } else {
                ProbeState::Probing
            })
            &&& n.probing_since == now
            &&& n.backoff == t.initial_backoff.nanos
            &&& n.next_retry is None
        }),
{
    last_peer_key(peers, k);
}

/// A peer of unknown state is probed from now on.
pub proof fn round_of_unknown(
    known: Map<Seq<char>, EntryModel>,
    peers: Seq<PeerModel>,
    handshakes: Map<Seq<char>, PeerInfo>,
    t: Tunables,
    now: int,
    k: Seq<char>,
)
    requires
        reconciled(known, peers, handshakes, t, now).contains_key(k),
        known.contains_key(k),
        known[k].state == ProbeState::Unknown,
    ensures
        ({
            let n = reconciled(known, peers, handshakes, t, now)[k];
            &&& n.state == ProbeState::Probing
            &&& n.probing_since == now
            &&& n.backoff == known[k].backoff
            &&& n.next_retry == known[k].next_retry
        }),
{
    last_peer_key(peers, k);
}

/// Where the last peer with a key stands in the list.
#[verifier::rlimit(40)]
proof fn last_peer_at(peers: Seq<PeerModel>, k: Seq<char>) -> (i: int)
    ensures
        last_peer(peers, k) is Some ==> {
            &&& 0 <= i < peers.len()
            &&& last_peer(peers, k) == Some(peers[i])
            &&& peers[i].wg_public_key == k && k.len() > 0 && peers[i].mesh_ip.len() > 0
            &&& forall|j: int|
                i < j < peers.len() ==> !((#[trigger] peers[j]).wg_public_key == k
                    && peers[j].mesh_ip.len() > 0)
        },
        last_peer(peers, k) is None ==> k.len() == 0 || forall|j: int|
            0 <= j < peers.len() ==> !((#[trigger] peers[j]).wg_public_key == k
                && peers[j].mesh_ip.len() > 0),
    decreases peers.len(),
{
    if peers.len() == 0 {
        0
    } else if usable(peers.last()) && peers.last().wg_public_key == k {
        peers.len() - 1
    } else {
        let init = peers.drop_last();
        let i = last_peer_at(init, k);
        assert forall|j: int| 0 <= j < init.len() implies #[trigger] peers[j] == init[j] by {}
        i
    }
}

/// After a round a peer is remembered if and only if the list names its key,
/// which is not empty, with an address, and what is remembered of its address,
/// endpoints and name is what the last such entry of the list says.
#[verifier::rlimit(40)]
pub proof fn round_remembers_the_list(
    known: Map<Seq<char>, EntryModel>,
    peers: Seq<PeerModel>,
    handshakes: Map<Seq<char>, PeerInfo>,
    t: Tunables,
    now: int,
    k: Seq<char>,
)
    ensures
        ({
            let m = reconciled(known, peers, handshakes, t, now);
            &&& m.contains_key(k) <==> k.len() > 0 && exists|i: int|
                0 <= i < peers.len() && (#[trigger] peers[i]).wg_public_key == k
                    && peers[i].mesh_ip.len() > 0
            &&& forall|i: int|
                #![trigger peers[i]]
                m.contains_key(k) && 0 <= i < peers.len() && peers[i].wg_public_key == k
                    && peers[i].mesh_ip.len() > 0 && (forall|j: int|
                    i < j < peers.len() ==> !((#[trigger] peers[j]).wg_public_key == k
                        && peers[j].mesh_ip.len() > 0)) ==> {
                    &&& m[k].mesh_ip == peers[i].mesh_ip
                    &&& m[k].endpoints == peers[i].endpoints
                    &&& m[k].hostname == peers[i].hostname
                }
        }),
{
    let at = last_peer_at(peers, k);
    let m = reconciled(known, peers, handshakes, t, now);
    if m.contains_key(k) {
        assert(peers[at].wg_public_key == k);
    }
}

/// The interface gets the relay if and only if there is one with a key and a
/// block: one entry, with the relay's key, its endpoint unless that is empty,
/// the whole block, and the keepalive in seconds.
pub proof fn relay_entry(relay: Option<RelayModel>, t: Tunables)
    ensures
        relay_specs(relay, t).len() <= 1,
        relay_specs(relay, t).len() == 1 <==> relay is Some && relay->0.wg_public_key.len() > 0
            && relay->0.mesh_cidr.len() > 0,
        relay_specs(relay, t).len() == 1 ==> {
            let s = relay_specs(relay, t)[0];
            &&& s.pub_key == relay->0.wg_public_key
            &&& s.allowed_ips.len() == 1 && s.allowed_ips[0] == relay->0.mesh_cidr
            &&& s.endpoint is Some <==> relay->0.endpoint.len() > 0
            &&& s.endpoint is Some ==> s.endpoint->0 == relay->0.endpoint
            &&& s.keepalive is Some && s.keepalive->0 == (t.keepalive.nanos / 1_000_000_000)
                % 0x1_0000_0000
        },
{
    assert((t.keepalive.nanos as nat / 1_000_000_000) % 0x1_0000_0000 < 0x1_0000_0000);
}

/// Every entry that the interface gets for a peer says what is remembered of
/// that peer: its first endpoint; while it is probed, no route; when it is
/// direct, the route to its own address and no other. It is kept alive. A peer
/// in any other state, or probed without an endpoint, has none, and every other
/// one has exactly one, in key order.
#[verifier::rlimit(40)]
pub proof fn interface_entries(keys: Seq<Seq<char>>, m: Map<Seq<char>, EntryModel>, t: Tunables)
    requires
        forall|i: int, j: int|
            0 <= i < j < keys.len() ==> #[trigger] text::lex_lt(keys[i], keys[j]),
    ensures
        forall|i: int|
            0 <= i < peer_specs(keys, m, t).len() ==> {
                let s = #[trigger] peer_specs(keys, m, t)[i];
                let e = m[s.pub_key];
                &&& keys.contains(s.pub_key)
                &&& e.endpoints.len() == 0 <==> s.endpoint is None
                &&& s.endpoint is Some ==> s.endpoint->0 == e.endpoints[0]
                &&& s.keepalive is Some && s.keepalive->0 == (t.keepalive.nanos / 1_000_000_000)
                    % 0x1_0000_0000
                &&& e.state == ProbeState::Probing || e.state == ProbeState::Direct
                &&& e.state == ProbeState::Probing ==> s.allowed_ips.len() == 0 && s.endpoint is Some
                &&& e.state == ProbeState::Direct ==> s.allowed_ips.len() == 1 && s.allowed_ips[0]
                    == e.mesh_ip + "/32"@
            },
        forall|k: Seq<char>|
            #![trigger keys.contains(k)]
            keys.contains(k) && (m[k].state == ProbeState::Direct || (m[k].state
                == ProbeState::Probing && m[k].endpoints.len() > 0)) ==> exists|i: int|
                0 <= i < peer_specs(keys, m, t).len() && (#[trigger] peer_specs(
                    keys,
                    m,
                    t,
                )[i]).pub_key == k,
        forall|i: int, j: int|
            0 <= i < j < peer_specs(keys, m, t).len() ==> text::lex_lt(
                (#[trigger] peer_specs(keys, m, t)[i]).pub_key,
                (#[trigger] peer_specs(keys, m, t)[j]).pub_key,
            ),
    decreases keys.len(),
{
    assert((t.keepalive.nanos as nat / 1_000_000_000) % 0x1_0000_0000 < 0x1_0000_0000);
    let all = peer_specs(keys, m, t);
    routes(keys, m, t);
    assert forall|k: Seq<char>|
        #![trigger keys.contains(k)]
        keys.contains(k) && (m[k].state == ProbeState::Direct || (m[k].state == ProbeState::Probing
            && m[k].endpoints.len() > 0)) implies exists|i: int|
        0 <= i < all.len() && (#[trigger] all[i]).pub_key == k by {
        direct_is_speced(keys, m, t, k);
    }
    probing_has_endpoint(keys, m, t);
    if keys.len() > 0 {
        let init = keys.drop_last();
        let head = peer_specs(init, m, t);
        assert forall|i: int, j: int| 0 <= i < j < init.len() implies #[trigger] text::lex_lt(
            init[i],
            init[j],
        ) by {
            assert(text::lex_lt(keys[i], keys[j]));
        }
        interface_entries(init, m, t);
        assert forall|i: int, j: int| 0 <= i < j < all.len() implies text::lex_lt(
            (#[trigger] all[i]).pub_key,
            (#[trigger] all[j]).pub_key,
        ) by {
            assert(all[i] == head[i]);
            if j < head.len() {
                assert(all[j] == head[j]);
            } else {
                let k = init.index_of(head[i].pub_key);
                assert(text::lex_lt(keys[k], keys[keys.len() - 1]));
                assert(all[j].pub_key == keys.last());
            }
        }
    }
}

/// A peer that is probed has an entry only with an endpoint.
proof fn probing_has_endpoint(keys: Seq<Seq<char>>, m: Map<Seq<char>, EntryModel>, t: Tunables)
    ensures
        forall|i: int|
            0 <= i < peer_specs(keys, m, t).len() ==> {
                let s = #[trigger] peer_specs(keys, m, t)[i];
                m[s.pub_key].state == ProbeState::Probing ==> s.endpoint is Some
            },
    decreases keys.len(),
{
    if keys.len() > 0 {
        let head = peer_specs(keys.drop_last(), m, t);
        probing_has_endpoint(keys.drop_last(), m, t);
        let all = peer_specs(keys, m, t);
        assert forall|i: int| 0 <= i < all.len() implies {
            let s = #[trigger] all[i];
            m[s.pub_key].state == ProbeState::Probing ==> s.endpoint is Some
        } by {
            if i < head.len() {
                assert(all[i] == head[i]);
            }
        }
    }
}

/// How many peers are counted in a state is how many of the keys are in it.
pub proof fn counts(keys: Seq<Seq<char>>, m: Map<Seq<char>, EntryModel>, state: ProbeState)
    ensures
        count_in(keys, m, state) == keys.filter(|k: Seq<char>| m[k].state == state).len(),
    decreases keys.len(),
{
    reveal(Seq::filter);
    if keys.len() > 0 {
        counts(keys.drop_last(), m, state);
    }
}

} // verus!
