//! The agent's reconcile loop, step by step.
//!
//! One round: discover endpoints, register, take the address that was
//! assigned, ask for the peers, read the handshakes, and drive the probe state
//! machine. What is decided stands here; what is sent, read or run is handed in
//! and out.

use vstd::prelude::*;
use vstd::string::*;
use crate::api::{PeersResponse, RegisterRequest, RegisterResponse, RequestModel};
use crate::clock::Timestamp;
use crate::crypto;
use crate::keyderive::Identity;
use crate::probe;
use crate::probe::{ProbeManager, ProbeState, ReconcileSummary};
use crate::strmap;
use crate::strmap::StrMap;
use crate::text;
use crate::wglink;
use crate::wglink::{PeerInfo, PeerSpec};

verus! {

/// What the agent is told.
#[derive(Debug, Clone)]
pub struct AgentConfig {
    /// The OpenSSH ed25519 host key, for signing and for the WireGuard keys.
    pub ssh_key: String,
    /// The coordinator's URL.
    pub coordinator: String,
    /// The STUN server; empty for none.
    pub stun_server: String,
    /// The WireGuard interface.
    pub interface: String,
    /// The WireGuard port.
    pub listen_port: u16,
    /// How many seconds from one round to the next.
    pub poll_secs: u64,
    /// The name to announce; that of the host where it is absent.
    pub hostname: Option<String>,
    /// Whether to announce the host's own addresses.
    pub include_lan: bool,
    /// Interfaces whose addresses are not announced.
    pub skip_iface: Vec<String>,
}

impl AgentConfig {
    /// Is the public endpoint to be discovered?
    pub fn wants_stun(&self) -> (r: bool)
        ensures
            r == (self.stun_server@.len() > 0),
    {
        !self.stun_server.as_str().is_empty()
    }

    /// The interfaces whose addresses are not announced: the WireGuard
    /// interface itself, and those that were named.
    pub fn skipped(&self) -> (r: Vec<String>)
        ensures
            text::texts(r@) == seq![self.interface@] + text::texts(self.skip_iface@),
    {
        let mut out: Vec<String> = Vec::new();
        out.push(self.interface.clone());
        let mut i: usize = 0;
        let ghost names = text::texts(self.skip_iface@);
        assert(text::texts(out@) =~= seq![self.interface@] + names.take(0));
        while i < self.skip_iface.len()
            invariant
                i <= self.skip_iface@.len(),
                names == text::texts(self.skip_iface@),
                text::texts(out@) == seq![self.interface@] + names.take(i as int),
            decreases self.skip_iface@.len() - i,
        {
            let ghost was = out@;
            out.push(self.skip_iface[i].clone());
            assert(text::texts(out@) =~= text::texts(was).push(names[i as int]));
            assert(text::texts(out@) =~= seq![self.interface@] + names.take(i + 1));
            i = i + 1;
        }
        assert(names.take(names.len() as int) =~= names);
        out
    }
}

// ---------------------------------------------------------------------------
// Names
// ---------------------------------------------------------------------------
/// The name that `hostname` printed, or `unknown`.
pub open spec fn printed_name(printed: Option<Seq<char>>) -> Seq<char> {
    match printed {
        Some(s) => if text::trimmed(s).len() > 0 {
            text::trimmed(s)
        } else {
            "unknown"@
        },
        None => "unknown"@,
    }
}

/// The name that `hostname` printed, if it ran and printed text, or `unknown`.
pub fn read_hostname_or_unknown(printed: Option<String>) -> (r: String)
    ensures
        r@ == printed_name(text::opt_text(printed)),
{
    match printed {
        Some(s) => {
            let t = text::trim(s.as_str());
            if t.as_str().is_empty() {
                "unknown".to_owned()
            } else {
                t
            }
        },
        None => "unknown".to_owned(),
    }
}

/// The name to announce: the one that was told, else the environment's, else
/// the one that `hostname` printed.
pub fn pick_hostname(told: Option<String>, env: Option<String>, printed: Option<String>) -> (r:
    String)
    ensures
        r@ == (match (told, env) {
            (Some(s), _) => s@,
            (None, Some(s)) => s@,
            (None, None) => printed_name(text::opt_text(printed)),
        }),
{
    match (told, env) {
        (Some(s), _) => s,
        (None, Some(s)) => s,
        (None, None) => read_hostname_or_unknown(printed),
    }
}

/// The text before the first character that is one of `stops`.
pub open spec fn upto(s: Seq<char>, stops: Seq<char>) -> Seq<char>
    decreases s.len(),
{
    if s.len() == 0 || stops.contains(s[0]) {
        Seq::empty()
    } else {
        seq![s[0]] + upto(s.drop_first(), stops)
    }
}

/// The host in what follows `://` in a URL: up to the path, the query or the
/// fragment; of that, what stands in brackets, or what stands before the port.
pub open spec fn host_in(rest: Seq<char>) -> Option<Seq<char>> {
    let host_port = upto(rest, seq!['/', '?', '#']);
    if host_port.len() > 0 && host_port[0] == '[' {
        let inner = upto(host_port, seq![']']);
        if inner.len() < host_port.len() {
            Some(inner.push(']'))
        } else {
            None
        }
    } else {
        Some(upto(host_port, seq![':']))
    }
}

/// What follows the first `://`, if there is one.
pub open spec fn after_scheme(url: Seq<char>) -> Option<Seq<char>>
    decreases url.len(),
{
    if text::begins(url, "://"@) {
        Some(url.skip(3))
    } else if url.len() == 0 {
        None
    } else {
        after_scheme(url.drop_first())
    }
}

/// The host in a URL, if there is one.
pub open spec fn url_host(url: Seq<char>) -> Option<Seq<char>> {
    match after_scheme(url) {
        Some(rest) => host_in(rest),
        None => None,
    }
}

/// What follows the first `://` stands behind its first position.
proof fn scheme_at(url: Seq<char>, i: int)
    requires
        text::is_first(url, "://"@, i),
    ensures
        after_scheme(url) == Some(url.skip(i + 3)),
    decreases url.len(),
{
    reveal_strlit("://");
    if i > 0 {
        let t = url.drop_first();
        assert(!text::stands_at(url, "://"@, 0));
        assert(t.subrange(i - 1, i + 2) =~= url.subrange(i, i + 3));
        assert forall|j: int| 0 <= j < i - 1 implies !text::stands_at(t, "://"@, j) by {
            assert(!text::stands_at(url, "://"@, j + 1));
            if j + 3 <= t.len() {
                assert(t.subrange(j, j + 3) =~= url.subrange(j + 1, j + 4));
            }
        }
        scheme_at(t, i - 1);
        assert(t.skip(i + 2) =~= url.skip(i + 3));
    }
}

/// Without a `://` nothing follows it.
proof fn no_scheme(url: Seq<char>)
    requires
        !text::holds_text(url, "://"@),
    ensures
        after_scheme(url) is None,
    decreases url.len(),
{
    reveal_strlit("://");
    assert(!text::stands_at(url, "://"@, 0));
    if url.len() > 0 {
        let t = url.drop_first();
        assert forall|j: int| !text::stands_at(t, "://"@, j) by {
            assert(!text::stands_at(url, "://"@, j + 1));
            if 0 <= j && j + 3 <= t.len() {
                assert(t.subrange(j, j + 3) =~= url.subrange(j + 1, j + 4));
            }
        }
        no_scheme(t);
    }
}

/// Is the character one of the stops?
fn is_stop(stops: &Vec<char>, c: char) -> (r: bool)
    ensures
        r == stops@.contains(c),
{
    let mut j: usize = 0;
    while j < stops.len()
        invariant
            j <= stops@.len(),
            forall|k: int| 0 <= k < j ==> stops@[k] != c,
        decreases stops@.len() - j,
    {
        if stops[j] == c {
            return true;
        }
        j = j + 1;
    }
    false
}

/// Where the text from `from` to `to` meets one of the stops, or `to`.
fn stop_at(v: &Vec<char>, from: usize, to: usize, stops: &Vec<char>) -> (r: usize)
    requires
        from <= to <= v@.len(),
    ensures
        from <= r <= to,
        v@.subrange(from as int, r as int) == upto(v@.subrange(from as int, to as int), stops@),
{
    let ghost whole = upto(v@.subrange(from as int, to as int), stops@);
    let mut i: usize = from;
    assert(v@.subrange(from as int, from as int) + whole =~= whole);
    while i < to && !is_stop(stops, v[i])
        invariant
            from <= i <= to <= v@.len(),
            whole == v@.subrange(from as int, i as int) + upto(
                v@.subrange(i as int, to as int),
                stops@,
            ),
        decreases to - i,
    {
        proof {
            let s = v@.subrange(i as int, to as int);
            assert(s.drop_first() =~= v@.subrange(i + 1, to as int));
            assert(v@.subrange(from as int, i as int) + (seq![s[0]] + upto(s.drop_first(), stops@))
                =~= v@.subrange(from as int, i + 1) + upto(s.drop_first(), stops@));
        }
        i = i + 1;
    }
    assert(upto(v@.subrange(i as int, to as int), stops@) =~= Seq::<char>::empty());
    assert(whole =~= v@.subrange(from as int, i as int));
    i
}

/// The host in a URL of the form `https://host[:port][/path]`. An IPv6 host
/// keeps its brackets.
pub fn host_from_url(url: &str) -> (r: Option<String>)
    ensures
        text::opt_text(r) == url_host(url@),
{
    let v = text::chars_of(url);
    let n = v.len();
    let at = match text::find(&v, "://") {
        Some(i) => i,
        None => {
            proof {
                no_scheme(url@);
            }
            return None;
        },
    };
    proof {
        reveal_strlit("://");
        scheme_at(url@, at as int);
    }
    let from = at + 3;
    let ghost rest = url@.skip(from as int);
    assert(v@.subrange(from as int, n as int) =~= rest);
    let mut stops: Vec<char> = Vec::new();
    stops.push('/');
    stops.push('?');
    stops.push('#');
    assert(stops@ =~= seq!['/', '?', '#']);
    let end = stop_at(&v, from, n, &stops);
    let ghost host_port = v@.subrange(from as int, end as int);
    if from < end && v[from] == '[' {
        let mut stops: Vec<char> = Vec::new();
        stops.push(']');
        assert(stops@ =~= seq![']']);
        let close = stop_at(&v, from, end, &stops);
        let ghost inner = v@.subrange(from as int, close as int);
        if close < end {
            proof {
                upto_stop(host_port, seq![']']);
                assert(v@.subrange(from as int, close + 1) =~= inner.push(']'));
            }
            return Some(text::text_of(&v, from, close + 1));
        }
        return None;
    }
    let mut stops: Vec<char> = Vec::new();
    stops.push(':');
    assert(stops@ =~= seq![':']);
    let port = stop_at(&v, from, end, &stops);
    Some(text::text_of(&v, from, port))
}

/// What follows the text before a stop is a stop.
proof fn upto_stop(s: Seq<char>, stops: Seq<char>)
    ensures
        upto(s, stops).len() <= s.len(),
        upto(s, stops).len() < s.len() ==> stops.contains(s[upto(s, stops).len() as int]),
    decreases s.len(),
{
    if s.len() > 0 && !stops.contains(s[0]) {
        upto_stop(s.drop_first(), stops);
    }
}

/// The text before a stop begins the whole text and holds no stop.
proof fn upto_free(s: Seq<char>, stops: Seq<char>)
    ensures
        upto(s, stops).len() <= s.len(),
        forall|i: int|
            0 <= i < upto(s, stops).len() ==> #[trigger] upto(s, stops)[i] == s[i] && !stops.contains(
                s[i],
            ),
    decreases s.len(),
{
    if s.len() > 0 && !stops.contains(s[0]) {
        let t = s.drop_first();
        upto_free(t, stops);
        let u = upto(s, stops);
        assert forall|i: int| 0 <= i < u.len() implies #[trigger] u[i] == s[i] && !stops.contains(
            s[i],
        ) by {
            if i > 0 {
                assert(u[i] == upto(t, stops)[i - 1]);
                assert(t[i - 1] == s[i]);
            }
        }
    }
}

/// A host holds nothing of a path, a query or a fragment. One that starts with
/// a bracket ends with one; any other holds no port.
pub proof fn host_is_bare(url: Seq<char>)
    ensures
        url_host(url) matches Some(h) ==> {
            &&& forall|i: int|
                0 <= i < h.len() ==> #[trigger] h[i] != '/' && h[i] != '?' && h[i] != '#'
            &&& if h.len() > 0 && h[0] == '[' {
                h.last() == ']'
            } else {
                forall|i: int| 0 <= i < h.len() ==> #[trigger] h[i] != ':'
            }
        },
{
    if url_host(url) is Some {
        let rest = after_scheme(url)->0;
        let path = seq!['/', '?', '#'];
        let host_port = upto(rest, path);
        upto_free(rest, path);
        assert(path[0] == '/' && path[1] == '?' && path[2] == '#');
        upto_free(host_port, seq![']']);
        upto_free(host_port, seq![':']);
        assert(seq![':'][0] == ':');
        let h = url_host(url)->0;
        assert forall|i: int| 0 <= i < h.len() implies #[trigger] h[i] != '/' && h[i] != '?' && h[i]
            != '#' by {
            if h[i] != ']' {
                assert(h[i] == host_port[i]);
                assert(!path.contains(rest[i]));
            }
        }
    }
}

// ---------------------------------------------------------------------------
// One round
// ---------------------------------------------------------------------------
/// The list holds each endpoint once, in order, and no other text.
pub open spec fn is_endpoint_list(
    list: Seq<Seq<char>>,
    stun: Option<Seq<char>>,
    lan: Seq<Seq<char>>,
) -> bool {
    &&& strmap::ascending(list)
    &&& forall|x: Seq<char>| list.contains(x) <==> (stun == Some(x) || lan.contains(x))
}

/// The endpoints to announce: the public one, if it was discovered, and the
/// host's own, each once, sorted.
pub fn collect_endpoints(stun: Option<String>, lan: &Vec<String>) -> (r: Vec<String>)
    ensures
        is_endpoint_list(text::texts(r@), text::opt_text(stun), text::texts(lan@)),
{
    let ghost first = text::opt_text(stun);
    let ghost ls = text::texts(lan@);
    let mut found: StrMap<()> = StrMap::new();
    match stun {
        Some(s) => {
            found.insert(s, ());
        },
        None => {},
    }
    let mut i: usize = 0;
    while i < lan.len()
        invariant
            i <= lan@.len(),
            ls == text::texts(lan@),
            found.wf(),
            forall|x: Seq<char>| #[trigger]
                found@.contains_key(x) <==> (first == Some(x) || ls.take(i as int).contains(x)),
        decreases lan@.len() - i,
    {
        let ghost was = found@;
        found.insert(lan[i].clone(), ());
        proof {
            let a = ls.take(i as int);
            let b = ls.take(i + 1);
            assert(b =~= a.push(lan@[i as int]@));
            assert forall|x: Seq<char>| #[trigger] found@.contains_key(x) <==> (first == Some(x)
                || b.contains(x)) by {
                assert(found@.contains_key(x) <==> was.contains_key(x) || x == lan@[i as int]@);
                if a.contains(x) {
                    let k = a.index_of(x);
                    assert(b[k] == x);
                }
                assert(b[i as int] == lan@[i as int]@);
                if b.contains(x) && x != lan@[i as int]@ {
                    let k = b.index_of(x);
                    assert(a[k] == x);
                }
            }
        }
        i = i + 1;
    }
    assert(ls.take(ls.len() as int) =~= ls);
    let ghost keys = found.key_seq();
    let n = found.len();
    let mut out: Vec<String> = Vec::new();
    let mut i: usize = 0;
    while i < n
        invariant
            found.wf(),
            keys == found.key_seq(),
            n == keys.len(),
            i <= n,
            text::texts(out@) == keys.take(i as int),
        decreases n - i,
    {
        let ghost was = out@;
        out.push(found.key_at(i).clone());
        assert(text::texts(out@) =~= text::texts(was).push(keys[i as int]));
        assert(keys.take(i + 1) =~= keys.take(i as int).push(keys[i as int]));
        i = i + 1;
    }
    assert(text::texts(out@) =~= keys);
    assert forall|x: Seq<char>| keys.contains(x) <==> (first == Some(x) || ls.contains(x)) by {
        assert(found@.contains_key(x) <==> keys.contains(x));
    }
    out
}

/// The agent between two rounds.
pub struct Agent {
    pub cfg: AgentConfig,
    /// The WireGuard public key, in base64.
    pub wg_pub_b64: String,
    pub hostname: String,
    /// The SSH public key line.
    pub pub_line: String,
    pub probe: ProbeManager,
    /// The address that was last set, with its prefix length.
    pub mesh_cidr: String,
}

/// The registration to send for what was found.
pub open spec fn announcement(
    r: RequestModel,
    a: Agent,
    stun: Option<Seq<char>>,
    lan: Seq<Seq<char>>,
) -> bool {
    &&& r.hostname == a.hostname@
    &&& r.ssh_public_key == a.pub_line@
    &&& r.wg_public_key == a.wg_pub_b64@
    &&& r.listen_port == a.cfg.listen_port
    &&& is_endpoint_list(
        r.endpoints,
        if a.cfg.stun_server@.len() > 0 {
            stun
        } else {
            None
        },
        if a.cfg.include_lan {
            lan
        } else {
            Seq::empty()
        },
    )
}

/// The peer set to install is the one of the state machine after a transition.
pub open spec fn driven(
    before: ProbeManager,
    after: ProbeManager,
    pr: PeersResponse,
    hs: Map<Seq<char>, PeerInfo>,
    now: Timestamp,
    specs: Seq<PeerSpec>,
    summary: ReconcileSummary,
) -> bool {
    let t = before.tunables;
    &&& after.tunables == t
    &&& after@ == probe::reconciled(before@, pr@.peers, hs, t, now.nanos as int)
    &&& wglink::spec_models(specs) == probe::relay_specs(pr@.relay, t) + probe::peer_specs(
        after.order(),
        after@,
        t,
    )
    &&& summary.has_relay == (probe::relay_specs(pr@.relay, t).len() == 1)
    &&& summary.probing == probe::count_in(after.order(), after@, ProbeState::Probing)
    &&& summary.direct == probe::count_in(after.order(), after@, ProbeState::Direct)
    &&& summary.relayed == probe::count_in(after.order(), after@, ProbeState::Relay)
}

impl Agent {
    /// The state machine is in order.
    pub open spec fn wf(self) -> bool {
        self.probe.wf() && self.probe.tunables.valid()
    }

    /// The agent of an identity, before its first round: it announces the
    /// WireGuard key and the SSH public key line of that identity.
    pub fn new(cfg: AgentConfig, id: &Identity, hostname: String) -> (r: Self)
        ensures
            r.wf(),
            r.cfg == cfg,
            r.wg_pub_b64@ == crypto::b64_text(id.wg_pub@),
            r.hostname == hostname,
            r.pub_line@ == id.ssh_pub_line@,
            r.probe@ == Map::<Seq<char>, probe::EntryModel>::empty(),
            r.probe.tunables == probe::standard_tunables(),
            r.mesh_cidr@.len() == 0,
    {
        Agent {
            cfg,
            wg_pub_b64: id.wg_pub_b64(),
            hostname,
            pub_line: id.ssh_pub_line.clone(),
            probe: ProbeManager::new(),
            mesh_cidr: String::new(),
        }
    }

    /// The registration to send, given the public endpoint, if one was
    /// discovered, and the host's own. The former counts only where a STUN
    /// server was named, the latter only where they are to be announced.
    pub fn announce(&self, stun: Option<String>, lan: &Vec<String>) -> (r: RegisterRequest)
        ensures
            announcement(r@, *self, text::opt_text(stun), text::texts(lan@)),
    {
        let public = if self.cfg.wants_stun() {
            stun
        } else {
            None
        };
        let none: Vec<String> = Vec::new();
        assert(text::texts(none@) =~= Seq::<Seq<char>>::empty());
        let endpoints = if self.cfg.include_lan {
            collect_endpoints(public, lan)
        } else {
            collect_endpoints(public, &none)
        };
        RegisterRequest {
            hostname: self.hostname.clone(),
            ssh_public_key: self.pub_line.clone(),
            wg_public_key: self.wg_pub_b64.clone(),
            endpoints,
            listen_port: self.cfg.listen_port,
        }
    }

    /// Is there an address to set? There is when one was assigned and it is not
    /// the one that was last set.
    pub fn must_assign(&self, resp: &RegisterResponse) -> (r: bool)
        ensures
            r == (resp.mesh_ip@.len() > 0 && resp.mesh_ip@ != self.mesh_cidr@),
    {
        !resp.mesh_ip.as_str().is_empty() && !text::same(
            resp.mesh_ip.as_str(),
            self.mesh_cidr.as_str(),
        )
    }

    /// The address that was assigned has been set: it need not be set again.
    pub fn assigned(&mut self, resp: &RegisterResponse)
        ensures
            final(self).mesh_cidr@ == resp.mesh_ip@,
            *final(self) == (Agent { mesh_cidr: final(self).mesh_cidr, ..*old(self) }),
    {
        self.mesh_cidr = resp.mesh_ip.clone();
    }

    /// Drive the probe state machine with what the coordinator answered and
    /// what the kernel shows. The result is the peer set to install.
    pub fn drive(&mut self, pr: &PeersResponse, hs: &StrMap<PeerInfo>, now: Timestamp) -> (r: (
        Vec<PeerSpec>,
        ReconcileSummary,
    ))
        requires
            old(self).wf(),
            hs.wf(),
            now.valid(),
        ensures
            final(self).wf(),
            *final(self) == (Agent { probe: final(self).probe, ..*old(self) }),
            driven(old(self).probe, final(self).probe, *pr, hs@, now, r.0@, r.1),
    {
        let relay = match &pr.relay {
            Some(h) => Some(h),
            None => None,
        };
        self.probe.reconcile(pr.peers.as_slice(), relay, hs, now)
    }
}

// ---------------------------------------------------------------------------
// The order of a round
// ---------------------------------------------------------------------------
/// What a round waits for.
pub enum Phase {
    /// The time of the next round.
    Resting,
    /// The endpoints.
    Discovering,
    /// The answer to the registration.
    Registering,
    /// That the address is set.
    Assigning(RegisterResponse),
    /// The peers.
    Asking,
    /// The handshakes; the peers have come.
    Reading(PeersResponse),
    /// That the peer set is installed.
    Installing,
}

/// What has happened.
pub enum Event {
    /// It is time for a round.
    Due,
    /// The public endpoint, if one was discovered, and the host's own.
    Found { stun: Option<String>, lan: Vec<String> },
    /// The registration was answered.
    Registered(RegisterResponse),
    /// The address was set.
    AddressSet,
    /// The peers were answered.
    Answered(PeersResponse),
    /// What the kernel shows, and when.
    Observed { handshakes: StrMap<PeerInfo>, now: Timestamp },
    /// The peer set was installed.
    Installed,
    /// What was to be done failed.
    Failed,
}

/// What is to be done.
pub enum Action {
    /// Find the endpoints: from the STUN server, if one is named, and the
    /// host's own without those of some interfaces, if they are to be told.
    Discover { stun: Option<String>, lan: Option<Vec<String>> },
    /// Register.
    Register(RegisterRequest),
    /// Make this the interface's only address.
    SetAddress(String),
    /// Ask for the peers.
    AskPeers,
    /// Read the handshakes.
    ReadHandshakes,
    /// Install the peer set.
    Install { specs: Vec<PeerSpec>, summary: ReconcileSummary },
    /// Rest for a number of seconds.
    Rest(u64),
}

/// An agent, and what its round waits for.
pub struct Round {
    pub agent: Agent,
    pub phase: Phase,
}

/// What is to be found at the start of a round.
pub open spec fn discovery(a: Action, cfg: AgentConfig) -> bool {
    a matches Action::Discover { stun, lan } && text::opt_text(stun) == (
    if cfg.stun_server@.len() > 0 {
        Some(cfg.stun_server@)
    } else {
        None
    }) && match lan {
        Some(skip) => cfg.include_lan && text::texts(skip@) == seq![cfg.interface@] + text::texts(
            cfg.skip_iface@,
        ),
        None => !cfg.include_lan,
    }
}

/// What follows an event. A round discovers, registers, sets the address where
/// it is a new one, asks for the peers, reads the handshakes and installs the
/// peer set, in this order. Whatever fails, or comes out of turn, ends the
/// round: the agent rests, and the next round starts over.
pub open spec fn follows(before: Round, event: Event, after: Round, action: Action) -> bool {
    match (before.phase, event) {
        (Phase::Resting, Event::Due) => {
            &&& after.phase is Discovering
            &&& after.agent == before.agent
            &&& discovery(action, before.agent.cfg)
        },
        (Phase::Discovering, Event::Found { stun, lan }) => {
            &&& after.phase is Registering
            &&& after.agent == before.agent
            &&& action matches Action::Register(req) && announcement(
                req@,
                before.agent,
                text::opt_text(stun),
                text::texts(lan@),
            )
        },
        (Phase::Registering, Event::Registered(resp)) => {
            &&& after.agent == before.agent
            &&& if resp.mesh_ip@.len() > 0 && resp.mesh_ip@ != before.agent.mesh_cidr@ {
                after.phase == Phase::Assigning(resp) && (action matches Action::SetAddress(c) && c@
                    == resp.mesh_ip@)
            } else {
                after.phase is Asking && action is AskPeers
            }
        },
        (Phase::Assigning(resp), Event::AddressSet) => {
            &&& after.phase is Asking
            &&& action is AskPeers
            &&& after.agent.mesh_cidr@ == resp.mesh_ip@
            &&& after.agent == (Agent { mesh_cidr: after.agent.mesh_cidr, ..before.agent })
        },
        (Phase::Asking, Event::Answered(pr)) => {
            &&& after.phase == Phase::Reading(pr)
            &&& after.agent == before.agent
            &&& action is ReadHandshakes
        },
        (Phase::Reading(pr), Event::Observed { handshakes, now }) => {
            &&& after.phase is Installing
            &&& after.agent == (Agent { probe: after.agent.probe, ..before.agent })
            &&& action matches Action::Install { specs, summary } && driven(
                before.agent.probe,
                after.agent.probe,
                pr,
                handshakes@,
                now,
                specs@,
                summary,
            )
        },
        _ => {
            &&& after.phase is Resting
            &&& after.agent == before.agent
            &&& action == Action::Rest(before.agent.cfg.poll_secs)
        },
    }
}

impl Round {
    /// The state machine is in order.
    pub open spec fn wf(self) -> bool {
        self.agent.wf()
    }

    /// What to do after an event.
    pub fn step(self, event: Event) -> (r: (Round, Action))
        requires
            self.wf(),
            event matches Event::Observed { handshakes, now } ==> handshakes.wf() && now.valid(),
        ensures
            r.0.wf(),
            follows(self, event, r.0, r.1),
    {
        let mut agent = self.agent;
        match (self.phase, event) {
            (Phase::Resting, Event::Due) => {
                let stun = if agent.cfg.wants_stun() {
                    Some(agent.cfg.stun_server.clone())
                } else {
                    None
                };
                let lan = if agent.cfg.include_lan {
                    Some(agent.cfg.skipped())
                } else {
                    None
                };
                (Round { agent, phase: Phase::Discovering }, Action::Discover { stun, lan })
            },
            (Phase::Discovering, Event::Found { stun, lan }) => {
                let req = agent.announce(stun, &lan);
                (Round { agent, phase: Phase::Registering }, Action::Register(req))
            },
            (Phase::Registering, Event::Registered(resp)) => if agent.must_assign(&resp) {
                let cidr = resp.mesh_ip.clone();
                (Round { agent, phase: Phase::Assigning(resp) }, Action::SetAddress(cidr))
            } else {
                (Round { agent, phase: Phase::Asking }, Action::AskPeers)
            },
            (Phase::Assigning(resp), Event::AddressSet) => {
                agent.assigned(&resp);
                (Round { agent, phase: Phase::Asking }, Action::AskPeers)
            },
            (Phase::Asking, Event::Answered(pr)) => (
                Round { agent, phase: Phase::Reading(pr) },
                Action::ReadHandshakes,
            ),
            (Phase::Reading(pr), Event::Observed { handshakes, now }) => {
                let (specs, summary) = agent.drive(&pr, &handshakes, now);
                (Round { agent, phase: Phase::Installing }, Action::Install { specs, summary })
            },
            _ => {
                let rest = agent.cfg.poll_secs;
                (Round { agent, phase: Phase::Resting }, Action::Rest(rest))
            },
        }
    }
}

/// Only a round that has set an address remembers another one, and only a round
/// that has read the handshakes moves the state machine on. What the agent
/// announces of itself stays what it is.
pub proof fn round_keeps(before: Round, event: Event, after: Round, action: Action)
    requires
        follows(before, event, after, action),
    ensures
        after.agent.mesh_cidr != before.agent.mesh_cidr ==> before.phase is Assigning
            && event is AddressSet,
        after.agent.probe != before.agent.probe ==> before.phase is Reading && event is Observed,
        after.agent.cfg == before.agent.cfg,
        after.agent.wg_pub_b64 == before.agent.wg_pub_b64,
        after.agent.pub_line == before.agent.pub_line,
        after.agent.hostname == before.agent.hostname,
        event is Failed ==> after.phase is Resting && after.agent == before.agent,
{
}

/// An address that a round has set is not set again while it stays assigned:
/// the next registration that brings it goes on to the peers.
pub proof fn address_set_once(
    first: Round,
    resp: RegisterResponse,
    second: Round,
    asked: Action,
    again: Round,
    same: RegisterResponse,
    third: Round,
    action: Action,
)
    requires
        first.phase == Phase::Assigning(resp),
        follows(first, Event::AddressSet, second, asked),
        again.phase is Registering,
        again.agent.mesh_cidr == second.agent.mesh_cidr,
        same.mesh_ip@ == resp.mesh_ip@,
        follows(again, Event::Registered(same), third, action),
    ensures
        action is AskPeers,
{
}

/// A text goes up to the first stop.
proof fn upto_is(a: Seq<char>, b: Seq<char>, stops: Seq<char>)
    requires
        forall|i: int| 0 <= i < a.len() ==> !stops.contains(#[trigger] a[i]),
        b.len() == 0 || stops.contains(b[0]),
    ensures
        upto(a + b, stops) == a,
    decreases a.len(),
{
    if a.len() == 0 {
        assert(a + b =~= b);
        assert(upto(a + b, stops) =~= a);
    } else {
        let t = a.drop_first();
        assert(!stops.contains(a[0]));
        assert forall|i: int| 0 <= i < t.len() implies !stops.contains(#[trigger] t[i]) by {
            assert(t[i] == a[i + 1]);
        }
        upto_is(t, b, stops);
        assert((a + b).drop_first() =~= t + b);
        assert((a + b)[0] == a[0]);
        assert(seq![a[0]] + t =~= a);
    }
}

/// The host of a URL is what stands between `://` and the port, the path, the
/// query or the fragment, whichever comes first, in whatever scheme. A host in
/// brackets keeps them and may hold colons; one whose bracket is not closed is
/// none.
#[verifier::rlimit(40)]
pub proof fn host_of_url(scheme: Seq<char>, host: Seq<char>, port: Seq<char>, rest: Seq<char>)
    requires
        !scheme.contains(':'),
        forall|i: int| 0 <= i < host.len() ==> !seq!['/', '?', '#'].contains(#[trigger] host[i]),
        forall|i: int| 0 <= i < port.len() ==> !seq!['/', '?', '#'].contains(#[trigger] port[i]),
        port.len() == 0 || port[0] == ':',
        rest.len() == 0 || seq!['/', '?', '#'].contains(rest[0]),
    ensures
        ({
            let found = url_host(scheme + "://"@ + (host + port + rest));
            &&& (host.len() == 0 || host[0] != '[') && !host.contains(':') ==> found == Some(host)
            &&& host.len() > 1 && host[0] == '[' && host.last() == ']'
                && !host.drop_last().contains(']') ==> found == Some(host)
            &&& host.len() > 0 && host[0] == '[' && !host.contains(']') && !port.contains(']')
                ==> found is None
        }),
{
    let tail = host + port + rest;
    let url = scheme + "://"@ + tail;
    let stops = seq!['/', '?', '#'];
    reveal_strlit("://");
    let n = scheme.len() as int;
    assert(url.subrange(n, n + 3) =~= "://"@);
    assert forall|j: int| 0 <= j < n implies !text::stands_at(url, "://"@, j) by {
        if text::stands_at(url, "://"@, j) {
            assert(url.subrange(j, j + 3)[0] == scheme[j]);
            assert(scheme.contains(scheme[j]));
        }
    }
    scheme_at(url, n);
    assert(url.skip(n + 3) =~= tail);
    let hp = host + port;
    assert forall|i: int| 0 <= i < hp.len() implies !stops.contains(#[trigger] hp[i]) by {
        if i < host.len() {
            assert(hp[i] == host[i]);
        } else {
            assert(hp[i] == port[i - host.len()]);
        }
    }
    upto_is(hp, rest, stops);
    assert(upto(tail, stops) == hp);
    if (host.len() == 0 || host[0] != '[') && !host.contains(':') {
        let colon = seq![':'];
        assert(colon[0] == ':');
        assert forall|i: int| 0 <= i < host.len() implies !colon.contains(#[trigger] host[i]) by {
            assert(host.contains(host[i]));
        }
        upto_is(host, port, colon);
    }
    let close = seq![']'];
    assert(close[0] == ']');
    if host.len() > 1 && host[0] == '[' && host.last() == ']' && !host.drop_last().contains(']') {
        let inner = host.drop_last();
        assert forall|i: int| 0 <= i < inner.len() implies !close.contains(#[trigger] inner[i]) by {
            assert(inner.contains(inner[i]));
        }
        let after = seq![']'] + port;
        assert(inner + after =~= hp);
        upto_is(inner, after, close);
        assert(inner.push(']') =~= host);
    }
    if host.len() > 0 && host[0] == '[' && !host.contains(']') && !port.contains(']') {
        assert forall|i: int| 0 <= i < hp.len() implies !close.contains(#[trigger] hp[i]) by {
            if i < host.len() {
                assert(host.contains(host[i]));
            } else {
                assert(port.contains(port[i - host.len()]));
            }
        }
        let none = Seq::<char>::empty();
        assert(hp + none =~= hp);
        upto_is(hp, none, close);
    }
}

/// A text without `://` has no host.
pub proof fn no_scheme_no_host(url: Seq<char>)
    requires
        !text::holds_text(url, "://"@),
    ensures
        url_host(url) is None,
{
    no_scheme(url);
}

/// The name is what was printed, without white space around it; where nothing
/// but white space was printed, or nothing at all, it is `unknown`.
pub proof fn name_rules(printed: Option<Seq<char>>)
    ensures
        printed is None ==> printed_name(printed) == "unknown"@,
        printed matches Some(s) ==> {
            let blank = forall|i: int| 0 <= i < s.len() ==> text::is_space(#[trigger] s[i]);
            &&& blank ==> printed_name(printed) == "unknown"@
            &&& !blank ==> printed_name(printed) == text::trimmed(s)
        },
{
    if printed is Some {
        text::trimmed_is_the_middle(printed->0);
    }
}

/// The endpoints that are announced: the public one where a STUN server is named
/// and one was discovered, the host's own where they are to be told, no others,
/// none twice, in ascending order. The rest is what the agent is.
#[verifier::rlimit(40)]
pub proof fn announced(
    r: RequestModel,
    a: Agent,
    stun: Option<Seq<char>>,
    lan: Seq<Seq<char>>,
    x: Seq<char>,
)
    requires
        announcement(r, a, stun, lan),
    ensures
        r.hostname == a.hostname@,
        r.ssh_public_key == a.pub_line@,
        r.wg_public_key == a.wg_pub_b64@,
        r.listen_port == a.cfg.listen_port,
        r.endpoints.contains(x) <==> (a.cfg.stun_server@.len() > 0 && stun is Some && stun->0 == x)
            || (a.cfg.include_lan && lan.contains(x)),
        forall|i: int, j: int|
            0 <= i < j < r.endpoints.len() ==> #[trigger] text::lex_lt(
                r.endpoints[i],
                r.endpoints[j],
            ),
        r.endpoints.no_duplicates(),
{
    let e = r.endpoints;
    assert(strmap::ascending(e));
    assert forall|i: int, j: int| 0 <= i < e.len() && 0 <= j < e.len() && i != j implies e[i]
        != e[j] by {
        text::lex_irreflexive(e[i]);
        if i < j {
            assert(text::lex_lt(e[i], e[j]));
        } else {
            assert(text::lex_lt(e[j], e[i]));
        }
    }
}

/// What each step of a round does next: it discovers when it is due, with the
/// STUN server and the interfaces to skip that were named; registers what was
/// found; sets the address if and only if it is a new one; asks for the peers;
/// reads the handshakes; and installs. Everything else is a rest.
#[verifier::rlimit(40)]
pub proof fn round_order(before: Round, event: Event, after: Round, action: Action)
    requires
        follows(before, event, after, action),
    ensures
        action is Discover <==> before.phase is Resting && event is Due,
        action matches Action::Discover { stun, lan } ==> {
            let cfg = before.agent.cfg;
            &&& stun is Some <==> cfg.stun_server@.len() > 0
            &&& stun matches Some(s) ==> s@ == cfg.stun_server@
            &&& lan is Some <==> cfg.include_lan
            &&& lan matches Some(skip) ==> forall|x: Seq<char>| #[trigger]
                text::texts(skip@).contains(x) <==> x == cfg.interface@ || text::texts(
                    cfg.skip_iface@,
                ).contains(x)
        },
        action is Register <==> before.phase is Discovering && event is Found,
        action is SetAddress <==> before.phase is Registering && (
        event matches Event::Registered(resp) && resp.mesh_ip@.len() > 0 && resp.mesh_ip@
            != before.agent.mesh_cidr@),
        action matches Action::SetAddress(c) ==> event->Registered_0.mesh_ip@ == c@,
        action is AskPeers <==> (before.phase is Registering && (
        event matches Event::Registered(resp) && (resp.mesh_ip@.len() == 0 || resp.mesh_ip@
            == before.agent.mesh_cidr@))) || (before.phase is Assigning && event is AddressSet),
        before.phase is Assigning && event is AddressSet ==> after.agent.mesh_cidr@
            == before.phase->Assigning_0.mesh_ip@,
        action is ReadHandshakes <==> before.phase is Asking && event is Answered,
        action is Install <==> before.phase is Reading && event is Observed,
        action matches Action::Rest(n) ==> n == before.agent.cfg.poll_secs && after.agent
            == before.agent,
        after.phase is Discovering <==> action is Discover,
        after.phase is Registering <==> action is Register,
        after.phase is Assigning <==> action is SetAddress,
        after.phase is Asking <==> action is AskPeers,
        after.phase is Reading <==> action is ReadHandshakes,
        after.phase is Installing <==> action is Install,
        after.phase is Resting <==> action is Rest,
{
    if let Action::Discover { stun, lan } = action {
        if let Some(skip) = lan {
            let cfg = before.agent.cfg;
            let (a, b) = (seq![cfg.interface@], text::texts(cfg.skip_iface@));
            assert(stun is Some ==> text::opt_text(stun) == Some(stun->0@));
            assert(text::texts(skip@) == a + b);
            assert forall|x: Seq<char>| #[trigger] text::texts(skip@).contains(x) <==> x
                == cfg.interface@ || b.contains(x) by {
                if (a + b).contains(x) {
                    let i = (a + b).index_of(x);
                    if i >= 1 {
                        assert(b[i - 1] == x);
                    }
                }
                if x == cfg.interface@ {
                    assert((a + b)[0] == x);
                }
                if b.contains(x) {
                    assert((a + b)[b.index_of(x) + 1] == x);
                }
            }
        }
    }
}

/// What a round installs is what the coordinator answered and the kernel shows:
/// the state machine has taken one step with exactly those peers and those
/// handshakes. Then come the relay, if there is one with a key and a block, and
/// the peers that are direct, or probed at an endpoint, in the order of their
/// keys; and the summary counts what is remembered.
#[verifier::rlimit(60)]
pub proof fn installs_what_was_answered(
    before: Round,
    pr: PeersResponse,
    handshakes: StrMap<PeerInfo>,
    now: Timestamp,
    after: Round,
    specs: Vec<PeerSpec>,
    summary: ReconcileSummary,
    k: Seq<char>,
)
    requires
        before.phase == Phase::Reading(pr),
        after.wf(),
        follows(
            before,
            Event::Observed { handshakes, now },
            after,
            Action::Install { specs, summary },
        ),
    ensures
        ({
            let m = after.agent.probe@;
            let t = before.agent.probe.tunables;
            let peers = pr@.peers;
            let relay = pr@.relay;
            let s = wglink::spec_models(specs@);
            let hub = relay is Some && relay->0.wg_public_key.len() > 0 && relay->0.mesh_cidr.len()
                > 0;
            let from: int = if hub {
                1
            } else {
                0
            };
            &&& m == probe::reconciled(before.agent.probe@, peers, handshakes@, t, now.nanos as int)
            &&& m.contains_key(k) <==> k.len() > 0 && exists|i: int|
                0 <= i < peers.len() && (#[trigger] peers[i]).wg_public_key == k
                    && peers[i].mesh_ip.len() > 0
            &&& summary.has_relay <==> hub
            &&& s.len() >= from
            &&& hub ==> s[0].pub_key == relay->0.wg_public_key && s[0].allowed_ips
                == seq![relay->0.mesh_cidr]
            &&& forall|i: int|
                from <= i < s.len() ==> {
                    let e = m[(#[trigger] s[i]).pub_key];
                    &&& m.contains_key(s[i].pub_key)
                    &&& e.state == ProbeState::Direct || e.state == ProbeState::Probing
                    &&& e.state == ProbeState::Direct ==> s[i].allowed_ips == seq![
                        e.mesh_ip + "/32"@,
                    ]
                    &&& e.state == ProbeState::Probing ==> s[i].allowed_ips.len() == 0
                }
            &&& m.contains_key(k) && (m[k].state == ProbeState::Direct || (m[k].state
                == ProbeState::Probing && m[k].endpoints.len() > 0)) ==> exists|i: int|
                from <= i < s.len() && (#[trigger] s[i]).pub_key == k
        }),
{
    let p = after.agent.probe;
    let m = p@;
    let t = before.agent.probe.tunables;
    let keys = p.order();
    p.order_of_keys();
    let head = probe::relay_specs(pr@.relay, t);
    let tail = probe::peer_specs(keys, m, t);
    let s = wglink::spec_models(specs@);
    assert(s == head + tail);
    probe::relay_entry(pr@.relay, t);
    probe::interface_entries(keys, m, t);
    probe::round_remembers_the_list(
        before.agent.probe@,
        pr@.peers,
        handshakes@,
        t,
        now.nanos as int,
        k,
    );
    let from = head.len() as int;
    if from == 1 {
        assert(s[0] == head[0]);
        assert(s[0].allowed_ips =~= seq![pr@.relay->0.mesh_cidr]);
    }
    assert forall|i: int| from <= i < s.len() implies {
        let e = m[(#[trigger] s[i]).pub_key];
        &&& m.contains_key(s[i].pub_key)
        &&& e.state == ProbeState::Direct || e.state == ProbeState::Probing
        &&& e.state == ProbeState::Direct ==> s[i].allowed_ips == seq![e.mesh_ip + "/32"@]
        &&& e.state == ProbeState::Probing ==> s[i].allowed_ips.len() == 0
    } by {
        assert(s[i] == tail[i - from]);
        let e = m[s[i].pub_key];
        if e.state == ProbeState::Direct {
            assert(s[i].allowed_ips =~= seq![e.mesh_ip + "/32"@]);
        }
    }
    if m.contains_key(k) && (m[k].state == ProbeState::Direct || (m[k].state == ProbeState::Probing
        && m[k].endpoints.len() > 0)) {
        assert(keys.contains(k));
        let i = choose|i: int| 0 <= i < tail.len() && (#[trigger] tail[i]).pub_key == k;
        assert(s[i + from] == tail[i]);
    }
}

} // verus!
