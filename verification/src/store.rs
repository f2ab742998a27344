//! The registry of nodes, and the mesh addresses that they keep.

use vstd::prelude::*;
use vstd::string::*;
use crate::api::{Peer, PeerModel, RegisterRequest, RequestModel};
use crate::clock::{Duration, Timestamp};
use crate::net;
use crate::net::Ipv4Addr;
use crate::num;
use crate::strmap::StrMap;
use crate::text;

verus! {

/// Why the registry failed.
#[derive(Debug)]
pub enum StoreError {
    /// The file could not be read or written.
    Io(String),
    /// The file makes no sense.
    Parse(String),
    /// No address is left.
    Exhausted,
}

impl StoreError {
    /// The wording of the error.
    pub open spec fn wording(self) -> Seq<char> {
        match self {
            StoreError::Io(e) => "io: "@ + e@,
            StoreError::Parse(e) => "parse state: "@ + e@,
            StoreError::Exhausted => "mesh CIDR exhausted"@,
        }
    }

    /// The wording of the error.
    pub fn message(&self) -> (r: String)
        ensures
            r@ == self.wording(),
    {
        match self {
            StoreError::Io(e) => "io: ".to_owned().concat(e.as_str()),
            StoreError::Parse(e) => "parse state: ".to_owned().concat(e.as_str()),
            StoreError::Exhausted => "mesh CIDR exhausted".to_owned(),
        }
    }
}

/// One registered node.
#[derive(Debug, Clone)]
pub struct Node {
    pub ed_pub: String,
    pub hostname: String,
    pub wg_pubkey: String,
    pub mesh_ip: String,
    pub endpoints: Vec<String>,
    pub listen_port: u16,
    pub last_seen: Timestamp,
}

/// What a node is, as texts and numbers.
#[verifier::ext_equal]
pub struct NodeModel {
    pub ed_pub: Seq<char>,
    pub hostname: Seq<char>,
    pub wg_pubkey: Seq<char>,
    pub mesh_ip: Seq<char>,
    pub endpoints: Seq<Seq<char>>,
    pub listen_port: u16,
    pub last_seen: int,
}

impl View for Node {
    type V = NodeModel;

    open spec fn view(&self) -> NodeModel {
        NodeModel {
            ed_pub: self.ed_pub@,
            hostname: self.hostname@,
            wg_pubkey: self.wg_pubkey@,
            mesh_ip: self.mesh_ip@,
            endpoints: text::texts(self.endpoints@),
            listen_port: self.listen_port,
            last_seen: self.last_seen.nanos as int,
        }
    }
}

/// What is kept on disk.
#[derive(Debug)]
pub struct StateFile {
    /// Where the search for the next address starts, counted from the first
    /// address of the mesh.
    pub next_host_bits: u32,
    /// The nodes, by their ed25519 public key in base64.
    pub nodes: StrMap<Node>,
}

/// The registry.
#[derive(Debug)]
pub struct Store {
    /// The first address of the mesh.
    pub network: u32,
    /// The prefix length of the mesh.
    pub prefix_bits: u8,
    /// The addresses that no node is given.
    pub reserved: Vec<String>,
    pub state: StateFile,
}

/// The models of the entries of a map.
pub open spec fn node_models(m: Map<Seq<char>, Node>) -> Map<Seq<char>, NodeModel> {
    Map::new(|k: Seq<char>| m.contains_key(k), |k: Seq<char>| m[k]@)
}

/// What the registry is.
#[verifier::ext_equal]
pub struct StoreModel {
    pub network: nat,
    pub bits: u8,
    pub reserved: Seq<Seq<char>>,
    pub next: nat,
    pub nodes: Map<Seq<char>, NodeModel>,
}

impl View for Store {
    type V = StoreModel;

    open spec fn view(&self) -> StoreModel {
        StoreModel {
            network: self.network as nat,
            bits: self.prefix_bits,
            reserved: text::texts(self.reserved@),
            next: self.state.next_host_bits as nat,
            nodes: node_models(self.state.nodes@),
        }
    }
}

// ---------------------------------------------------------------------------
// Addresses
// ---------------------------------------------------------------------------
impl StoreModel {
    /// Every address that a node can be given is a 32-bit number.
    pub open spec fn fits(self) -> bool {
        self.bits <= 32 && self.network + net::block(self.bits) <= 0x1_0000_0001
    }

    /// Every address that the next search looks at is a 32-bit number: those up
    /// to the first free one, or all that are left where none is free.
    pub open spec fn search_fits(self) -> bool {
        &&& self.bits <= 32
        &&& match self.first_free(self.next) {
            Some(off) => self.network + off <= u32::MAX,
            None => self.next < self.last_offset() ==> self.network + self.last_offset()
                <= 0x1_0000_0000,
        }
    }

    /// The offset of the last address, which no node is given.
    pub open spec fn last_offset(self) -> int {
        net::block(self.bits) - 1
    }

    /// The address at an offset.
    pub open spec fn address(self, off: nat) -> Seq<char> {
        net::ipv4_text((self.network + off) as u32)
    }

    /// A node has the address, or none is given it.
    pub open spec fn taken(self, ip: Seq<char>) -> bool {
        ||| exists|k: Seq<char>| #[trigger] self.nodes.contains_key(k) && self.nodes[k].mesh_ip == ip
        ||| self.reserved.contains(ip)
    }

    /// The first offset from `off` on whose address is not taken.
    pub open spec fn first_free(self, off: nat) -> Option<nat>
        decreases self.last_offset() - off,
    {
        if off >= self.last_offset() {
            None
        } else if !self.taken(self.address(off)) {
            Some(off)
        } else {
            self.first_free(off + 1)
        }
    }

    /// Where the next search starts, after a search.
    pub open spec fn next_after(self) -> nat {
        match self.first_free(self.next) {
            Some(off) => off + 1,
            None => if self.next < self.last_offset() {
                self.last_offset() as nat
            } else {
                self.next
            },
        }
    }

    /// The address that a node has or is given.
    pub open spec fn address_for(self, ed_pub: Seq<char>) -> Option<Seq<char>> {
        if self.nodes.contains_key(ed_pub) {
            Some(self.nodes[ed_pub].mesh_ip)
        } else {
            match self.first_free(self.next) {
                Some(off) => Some(self.address(off)),
                None => None,
            }
        }
    }

    /// The registry after a node has registered; without an address for it only
    /// the search has moved on.
    pub open spec fn upserted(self, ed_pub: Seq<char>, req: RequestModel, now: int) -> StoreModel {
        StoreModel {
            next: if self.nodes.contains_key(ed_pub) {
                self.next
            } else {
                self.next_after()
            },
            nodes: match self.address_for(ed_pub) {
                Some(mesh_ip) => self.nodes.insert(
                    ed_pub,
                    NodeModel {
                        ed_pub,
                        hostname: req.hostname,
                        wg_pubkey: req.wg_public_key,
                        mesh_ip,
                        endpoints: req.endpoints,
                        listen_port: req.listen_port,
                        last_seen: now,
                    },
                ),
                None => self.nodes,
            },
            ..self
        }
    }
}

/// The registry as it is after a file with this content was read, if there was
/// one.
pub open spec fn opened(
    file: Option<(nat, Map<Seq<char>, NodeModel>)>,
    network: nat,
    bits: u8,
    reserved: Seq<Seq<char>>,
) -> StoreModel {
    let (next, nodes) = match file {
        Some((next, nodes)) => (
            if next == 0 {
                1
            } else {
                next
            },
            nodes,
        ),
        None => (1, Map::empty()),
    };
    StoreModel { network, bits, reserved, next, nodes }
}

/// The content of a file that may be absent.
pub open spec fn file_model(f: Option<StateFile>) -> Option<(nat, Map<Seq<char>, NodeModel>)> {
    match f {
        Some(s) => Some((s.next_host_bits as nat, node_models(s.nodes@))),
        None => None,
    }
}

/// A byte of white space.
pub open spec fn blank_byte(b: u8) -> bool {
    b == 32 || b == 9 || b == 10 || b == 12 || b == 13
}

/// Does the file hold nothing but white space? Such a file counts as absent.
pub fn is_blank(data: &[u8]) -> (r: bool)
    ensures
        r == (forall|i: int| 0 <= i < data@.len() ==> blank_byte(#[trigger] data@[i])),
{
    let mut i: usize = 0;
    while i < data.len()
        invariant
            i <= data@.len(),
            forall|j: int| 0 <= j < i ==> blank_byte(#[trigger] data@[j]),
        decreases data@.len() - i,
    {
        let b = data[i];
        if !(b == 32 || b == 9 || b == 10 || b == 12 || b == 13) {
            assert(!blank_byte(data@[i as int]));
            return false;
        }
        i = i + 1;
    }
    true
}

impl Store {
    /// The nodes stand in key order.
    pub open spec fn wf(self) -> bool {
        self.state.nodes.wf()
    }

    /// Open the registry, given what its file held: nothing where it was absent
    /// or blank, or the error in reading it.
    pub fn open(
        read: Result<Option<StateFile>, StoreError>,
        network: Ipv4Addr,
        prefix_bits: u8,
        reserved: &Vec<String>,
    ) -> (r: Result<Self, StoreError>)
        requires
            read matches Ok(Some(f)) ==> f.nodes.wf(),
        ensures
            match (read, r) {
                (Ok(f), Ok(s)) => s.wf() && s@ == opened(
                    file_model(f),
                    network.bits as nat,
                    prefix_bits,
                    text::texts(reserved@),
                ) && (prefix_bits <= 32 && net::network_of(network.bits as nat, prefix_bits)
                    == network.bits ==> s@.fits()),
                (Err(e), Err(f)) => e == f,
                _ => false,
            },
    {
        proof {
            if prefix_bits <= 32 {
                net::network_block(network.bits as nat, prefix_bits);
            }
        }
        let state = match read {
            Ok(Some(f)) => {
                let next: u32 = if f.next_host_bits == 0 {
                    1
                } else {
                    f.next_host_bits
                };
                StateFile { next_host_bits: next, nodes: f.nodes }
            },
            Ok(None) => {
                let s = StateFile { next_host_bits: 1, nodes: StrMap::new() };
                assert(node_models(s.nodes@) =~= Map::<Seq<char>, NodeModel>::empty());
                s
            },
            Err(e) => {
                return Err(e);
            },
        };
        Ok(
            Store {
                network: network.bits,
                prefix_bits,
                reserved: text::clone_texts(reserved),
                state,
            },
        )
    }

    /// Does a node have the address, or is it one that none is given?
    fn is_taken(&self, ip: &str) -> (r: bool)
        requires
            self.wf(),
        ensures
            r == self@.taken(ip@),
    {
        let nodes = &self.state.nodes;
        let n = nodes.len();
        let mut i: usize = 0;
        while i < n
            invariant
                self.wf(),
                *nodes == self.state.nodes,
                n == nodes.key_seq().len(),
                i <= n,
                forall|j: int| 0 <= j < i ==> (#[trigger] nodes.val_seq()[j]).mesh_ip@ != ip@,
            decreases n - i,
        {
            if text::same(nodes.val_at(i).mesh_ip.as_str(), ip) {
                proof {
                    nodes.entry(i as int);
                    let k = nodes.key_seq()[i as int];
                    assert(self@.nodes.contains_key(k) && self@.nodes[k].mesh_ip == ip@);
                }
                return true;
            }
            i = i + 1;
        }
        assert forall|k: Seq<char>| #[trigger] self@.nodes.contains_key(k) implies
            self@.nodes[k].mesh_ip != ip@ by {
            let j = nodes.key_seq().index_of(k);
            nodes.entry(j);
            assert(nodes.val_seq()[j].mesh_ip@ != ip@);
        }
        let mut i: usize = 0;
        while i < self.reserved.len()
            invariant
                i <= self.reserved@.len(),
                forall|j: int| 0 <= j < i ==> (#[trigger] self.reserved@[j])@ != ip@,
                forall|k: Seq<char>| #[trigger]
                    self@.nodes.contains_key(k) ==> self@.nodes[k].mesh_ip != ip@,
            decreases self.reserved@.len() - i,
        {
            if text::same(self.reserved[i].as_str(), ip) {
                assert(self@.reserved[i as int] == ip@);
                return true;
            }
            i = i + 1;
        }
        assert forall|j: int| 0 <= j < self@.reserved.len() implies self@.reserved[j] != ip@ by {
            assert(self.reserved@[j]@ != ip@);
        }
        false
    }

    /// The next free address, if there is one, and where the next search starts.
    fn allocate(&self) -> (r: (Result<String, StoreError>, u32))
        requires
            self.wf(),
            self@.search_fits(),
        ensures
            r.1 == self@.next_after(),
            match r.0 {
                Ok(ip) => self@.first_free(self@.next) matches Some(off) && ip@ == self@.address(
                    off,
                ),
                Err(e) => self@.first_free(self@.next) is None && e == StoreError::Exhausted,
            },
    {
        let ghost m = self@;
        let last: u64 = net::block_size(self.prefix_bits) - 1;
        proof {
            first_free_is_first(m, m.next);
        }
        let mut off: u64 = self.state.next_host_bits as u64;
        while off < last
            invariant
                self.wf(),
                m == self@,
                m.search_fits(),
                match m.first_free(m.next) {
                    Some(o) => o < last,
                    None => true,
                },
                last == m.last_offset(),
                last <= 0xffff_ffff,
                m.next <= off <= 0xffff_ffff,
                off == m.next || off <= last,
                m.first_free(m.next) == m.first_free(off as nat),
            decreases last - off,
        {
            proof {
                first_free_is_first(m, off as nat);
            }
            let ip = (Ipv4Addr { bits: (self.network as u64 + off) as u32 }).text();
            if !self.is_taken(ip.as_str()) {
                return (Ok(ip), (off + 1) as u32);
            }
            off = off + 1;
        }
        (Err(StoreError::Exhausted), off as u32)
    }

    /// Register a node: it keeps the address that it has, or is given one, and
    /// everything else about it is replaced.
    pub fn upsert(&mut self, ed_pub: &str, req: &RegisterRequest, now: Timestamp) -> (r: Result<
        String,
        StoreError,
    >)
        requires
            old(self).wf(),
            old(self)@.nodes.contains_key(ed_pub@) || old(self)@.fits() || old(
                self,
            )@.search_fits(),
        ensures
            final(self).wf(),
            final(self)@ == old(self)@.upserted(ed_pub@, req@, now.nanos as int),
            match r {
                Ok(ip) => old(self)@.address_for(ed_pub@) == Some(ip@),
                Err(e) => old(self)@.address_for(ed_pub@) is None && e == StoreError::Exhausted,
            },
            r matches Ok(ip) ==> final(self).state.nodes@.contains_key(ed_pub@) && ({
                let n = final(self).state.nodes@[ed_pub@];
                &&& n.ed_pub@ == ed_pub@
                &&& n.hostname@ == req.hostname@
                &&& n.wg_pubkey@ == req.wg_public_key@
                &&& n.mesh_ip@ == ip@
                &&& text::texts(n.endpoints@) == text::texts(req.endpoints@)
                &&& n.listen_port == req.listen_port
                &&& n.last_seen == now
            }),
    {
        let ghost m = self@;
        let known: Option<String> = match self.state.nodes.get(ed_pub) {
            Some(n) => Some(n.mesh_ip.clone()),
            None => None,
        };
        let mesh_ip = match known {
            Some(ip) => ip,
            None => {
                proof {
                    if m.fits() {
                        fits_searches(m);
                    }
                }
                let (found, next) = self.allocate();
                self.state.next_host_bits = next;
                match found {
                    Ok(ip) => ip,
                    Err(e) => {
                        return Err(e);
                    },
                }
            },
        };
        let node = Node {
            ed_pub: ed_pub.to_owned(),
            hostname: req.hostname.clone(),
            wg_pubkey: req.wg_public_key.clone(),
            mesh_ip: mesh_ip.clone(),
            endpoints: text::clone_texts(&req.endpoints),
            listen_port: req.listen_port,
            last_seen: now,
        };
        let ghost was = self.state.nodes@;
        self.state.nodes.insert(ed_pub.to_owned(), node);
        assert(node_models(self.state.nodes@) =~= node_models(was).insert(ed_pub@, node@));
        Ok(mesh_ip)
    }
}

// ---------------------------------------------------------------------------
// Reading
// ---------------------------------------------------------------------------
/// What other nodes are told of a node.
pub open spec fn peer_of(n: NodeModel) -> PeerModel {
    PeerModel {
        hostname: n.hostname,
        wg_public_key: n.wg_pubkey,
        mesh_ip: n.mesh_ip,
        endpoints: n.endpoints,
        listen_port: n.listen_port,
        last_seen: n.last_seen,
    }
}

/// The time before which a node that was last seen is no longer listed.
pub open spec fn cutoff(now: Timestamp, ttl: Duration) -> int {
    now.nanos - ttl.nanos
}

/// Is the node told of to the one that asks? An empty asker is told of all.
pub open spec fn is_listed(k: Seq<char>, n: NodeModel, asker: Seq<char>, since: int) -> bool {
    (asker.len() == 0 || k != asker) && n.last_seen >= since
}

/// The nodes among `keys` that the one that asks is told of, in that order.
pub open spec fn listed(
    keys: Seq<Seq<char>>,
    nodes: Map<Seq<char>, NodeModel>,
    asker: Seq<char>,
    since: int,
) -> Seq<PeerModel>
    decreases keys.len(),
{
    if keys.len() == 0 {
        Seq::empty()
    } else {
        let head = listed(keys.drop_last(), nodes, asker, since);
        let k = keys.last();
        if is_listed(k, nodes[k], asker, since) {
            head.push(peer_of(nodes[k]))
        } else {
            head
        }
    }
}

/// Sorted by mesh address, as text.
pub open spec fn by_address(s: Seq<PeerModel>) -> bool {
    forall|i: int, j: int|
        0 <= i < j < s.len() ==> text::lex_le(
            (#[trigger] s[i]).mesh_ip,
            (#[trigger] s[j]).mesh_ip,
        )
}

/// Put a peer behind those that sort no later.
fn insert_peer(out: &mut Vec<Peer>, p: Peer)
    requires
        by_address(crate::api::peer_models(old(out)@)),
    ensures
        by_address(crate::api::peer_models(final(out)@)),
        crate::api::peer_models(final(out)@).to_multiset() == crate::api::peer_models(
            old(out)@,
        ).to_multiset().insert(p@),
{
    let ghost ms = crate::api::peer_models(out@);
    let mut i: usize = 0;
    while i < out.len() && !text::before(p.mesh_ip.as_str(), out[i].mesh_ip.as_str())
        invariant
            i <= out@.len(),
            ms == crate::api::peer_models(out@),
            forall|j: int| 0 <= j < i ==> text::lex_le((#[trigger] ms[j]).mesh_ip, p@.mesh_ip),
        decreases out@.len() - i,
    {
        assert(ms[i as int] == out@[i as int]@);
        i = i + 1;
    }
    proof {
        if i < out@.len() {
            assert(ms[i as int] == out@[i as int]@);
            text::lex_asymmetric(p@.mesh_ip, ms[i as int].mesh_ip);
            assert forall|j: int| i <= j < ms.len() implies text::lex_le(
                p@.mesh_ip,
                (#[trigger] ms[j]).mesh_ip,
            ) by {
                if i < j {
                    text::lex_le_transitive(p@.mesh_ip, ms[i as int].mesh_ip, ms[j].mesh_ip);
                }
            }
        }
        vstd::seq_lib::to_multiset_insert(ms, i as int, p@);
    }
    let ghost q = p@;
    out.insert(i, p);
    let ghost now = crate::api::peer_models(out@);
    assert(now =~= ms.insert(i as int, q));
    assert forall|a: int, b: int| 0 <= a < b < now.len() implies text::lex_le(
        (#[trigger] now[a]).mesh_ip,
        (#[trigger] now[b]).mesh_ip,
    ) by {
        if b < i {
            assert(now[a] == ms[a] && now[b] == ms[b]);
        } else if a > i {
            assert(now[a] == ms[a - 1] && now[b] == ms[b - 1]);
        } else if a == i {
            assert(now[b] == ms[b - 1]);
        } else if b == i {
            assert(now[a] == ms[a]);
        } else {
            assert(now[a] == ms[a] && now[b] == ms[b - 1]);
        }
    }
}

impl Store {
    /// The nodes that were seen within `ttl` of `now`, without the one that
    /// asks, sorted by address. An empty key includes all.
    pub fn peers(&self, self_ed_pub: &str, ttl: Duration, now: Timestamp) -> (r: Vec<Peer>)
        requires
            self.wf(),
            ttl.valid(),
            now.valid(),
        ensures
            by_address(crate::api::peer_models(r@)),
            crate::api::peer_models(r@).to_multiset() == listed(
                self.state.nodes.key_seq(),
                self@.nodes,
                self_ed_pub@,
                cutoff(now, ttl),
            ).to_multiset(),
            forall|i: int|
                #![trigger r@[i]]
                0 <= i < r@.len() ==> r@[i].last_seen.nanos >= now.nanos - ttl.nanos && exists|
                    k: Seq<char>,
                |
                    #![trigger self.state.nodes@[k]]
                    self.state.nodes@.contains_key(k) && (k != self_ed_pub@ || k.len() == 0)
                        && r@[i]@ == peer_of(self.state.nodes@[k]@),
            forall|k: Seq<char>|
                #![trigger self.state.nodes@[k]]
                self.state.nodes@.contains_key(k) && self.state.nodes@[k].last_seen.nanos
                    >= now.nanos - ttl.nanos && (k != self_ed_pub@ || k.len() == 0) ==> exists|
                    i: int,
                |
                    #![trigger r@[i]]
                    0 <= i < r@.len() && r@[i]@ == peer_of(self.state.nodes@[k]@),
    {
        let since: i128 = now.nanos - (ttl.nanos as i128);
        let all = self_ed_pub.is_empty();
        let nodes = &self.state.nodes;
        let ghost keys = nodes.key_seq();
        let ghost m = self@.nodes;
        let n = nodes.len();
        let mut out: Vec<Peer> = Vec::new();
        let mut i: usize = 0;
        assert(crate::api::peer_models(out@) =~= listed(
            keys.take(0),
            m,
            self_ed_pub@,
            since as int,
        ));
        while i < n
            invariant
                self.wf(),
                *nodes == self.state.nodes,
                keys == nodes.key_seq(),
                m == self@.nodes,
                n == keys.len(),
                i <= n,
                all == (self_ed_pub@.len() == 0),
                by_address(crate::api::peer_models(out@)),
                crate::api::peer_models(out@).to_multiset() == listed(
                    keys.take(i as int),
                    m,
                    self_ed_pub@,
                    since as int,
                ).to_multiset(),
            decreases n - i,
        {
            let key = nodes.key_at(i);
            let node = nodes.val_at(i);
            proof {
                nodes.entry(i as int);
                assert(keys.take(i + 1).drop_last() =~= keys.take(i as int));
                assert(keys.take(i + 1).last() == key@);
                assert(m[key@] == node@);
            }
            if (all || !text::same(key.as_str(), self_ed_pub)) && node.last_seen.nanos >= since {
                let p = Peer {
                    hostname: node.hostname.clone(),
                    wg_public_key: node.wg_pubkey.clone(),
                    mesh_ip: node.mesh_ip.clone(),
                    endpoints: text::clone_texts(&node.endpoints),
                    listen_port: node.listen_port,
                    last_seen: node.last_seen,
                };
                assert(p@ == peer_of(node@));
                proof {
                    vstd::seq_lib::to_multiset_build(
                        listed(keys.take(i as int), m, self_ed_pub@, since as int),
                        p@,
                    );
                }
                insert_peer(&mut out, p);
            }
            i = i + 1;
        }
        assert(keys.take(n as int) =~= keys);
        proof {
            let answer = crate::api::peer_models(out@);
            let held = self.state.nodes@;
            answer_tells_all(keys, m, self_ed_pub@, now, ttl, answer);
            assert forall|i: int| #![trigger out@[i]] 0 <= i < out@.len() implies out@[i].last_seen.nanos
                >= now.nanos - ttl.nanos && exists|k: Seq<char>|
                #![trigger held[k]]
                held.contains_key(k) && (k != self_ed_pub@ || k.len() == 0) && out@[i]@ == peer_of(
                    held[k]@,
                ) by {
                assert(answer[i] == out@[i]@);
                let k = choose|k: Seq<char>|
                    #![trigger m[k]]
                    m.contains_key(k) && (k != self_ed_pub@ || self_ed_pub@.len() == 0)
                        && answer[i].last_seen == m[k].last_seen && answer[i].hostname
                        == m[k].hostname && answer[i].wg_public_key == m[k].wg_pubkey
                        && answer[i].mesh_ip == m[k].mesh_ip && answer[i].endpoints
                        == m[k].endpoints && answer[i].listen_port == m[k].listen_port;
                assert(m[k] == held[k]@);
            }
            assert forall|k: Seq<char>|
                #![trigger held[k]]
                held.contains_key(k) && held[k].last_seen.nanos >= now.nanos - ttl.nanos && (k
                    != self_ed_pub@ || k.len() == 0) implies exists|i: int|
                #![trigger out@[i]]
                0 <= i < out@.len() && out@[i]@ == peer_of(held[k]@) by {
                assert(m[k] == held[k]@);
                let i = choose|i: int|
                    #![trigger answer[i]]
                    0 <= i < answer.len() && answer[i].last_seen == m[k].last_seen
                        && answer[i].hostname == m[k].hostname && answer[i].wg_public_key
                        == m[k].wg_pubkey && answer[i].mesh_ip == m[k].mesh_ip
                        && answer[i].endpoints == m[k].endpoints && answer[i].listen_port
                        == m[k].listen_port;
                assert(answer[i] == out@[i]@);
            }
        }
        out
    }

    /// The address of a node with the prefix length of the mesh, if it has one.
    pub fn mesh_ip_cidr(&self, ed_pub: &str) -> (r: Option<String>)
        requires
            self.wf(),
        ensures
            text::opt_text(r) == self@.cidr_of(ed_pub@),
    {
        match self.state.nodes.get(ed_pub) {
            Some(n) => if n.mesh_ip.as_str().is_empty() {
                None
            } else {
                Some(
                    n.mesh_ip.clone().concat("/").concat(
                        num::show(self.prefix_bits as u64).as_str(),
                    ),
                )
            },
            None => None,
        }
    }
}

impl StoreModel {
    /// The address of a node with the prefix length of the mesh, if it has one.
    pub open spec fn cidr_of(self, ed_pub: Seq<char>) -> Option<Seq<char>> {
        if self.nodes.contains_key(ed_pub) && self.nodes[ed_pub].mesh_ip.len() > 0 {
            Some(self.nodes[ed_pub].mesh_ip + "/"@ + num::decimal(self.bits as nat))
        } else {
            None
        }
    }
}

// ---------------------------------------------------------------------------
// Laws
// ---------------------------------------------------------------------------
/// No two nodes have the same address.
pub open spec fn distinct(m: StoreModel) -> bool {
    forall|a: Seq<char>, b: Seq<char>|
        #![trigger m.nodes[a], m.nodes[b]]
        m.nodes.contains_key(a) && m.nodes.contains_key(b) && a != b ==> m.nodes[a].mesh_ip
            != m.nodes[b].mesh_ip
}

/// No node has an address that none is given.
pub open spec fn unreserved(m: StoreModel) -> bool {
    forall|a: Seq<char>| #[trigger]
        m.nodes.contains_key(a) ==> !m.reserved.contains(m.nodes[a].mesh_ip)
}

/// A free offset is the first one from where the search starts whose address is
/// not taken, and none is found exactly when all of them are taken.
pub proof fn first_free_is_first(m: StoreModel, off: nat)
    ensures
        match m.first_free(off) {
            Some(o) => off <= o < m.last_offset() && !m.taken(m.address(o)) && (forall|x: nat|
                off <= x < o ==> m.taken(#[trigger] m.address(x))),
            None => forall|x: nat| off <= x < m.last_offset() ==> m.taken(#[trigger] m.address(x)),
        },
    decreases m.last_offset() - off,
{
    if off < m.last_offset() && m.taken(m.address(off)) {
        first_free_is_first(m, off + 1);
    }
}

/// Where every address of the mesh is a 32-bit number, so is every one that a
/// search looks at.
pub proof fn fits_searches(m: StoreModel)
    requires
        m.fits(),
    ensures
        m.search_fits(),
{
    first_free_is_first(m, m.next);
}

/// A node that registers again keeps its address, and so does every other node.
pub proof fn address_is_stable(m: StoreModel, ed_pub: Seq<char>, req: RequestModel, now: int)
    ensures
        ({
            let n = m.upserted(ed_pub, req, now);
            &&& m.nodes.contains_key(ed_pub) ==> m.address_for(ed_pub) == Some(
                m.nodes[ed_pub].mesh_ip,
            ) && n.next == m.next
            &&& forall|k: Seq<char>| #[trigger]
                m.nodes.contains_key(k) ==> n.nodes.contains_key(k) && n.nodes[k].mesh_ip
                    == m.nodes[k].mesh_ip
            &&& forall|k: Seq<char>|
                k != ed_pub ==> (#[trigger] n.nodes.contains_key(k) <==> m.nodes.contains_key(k))
                    && n.nodes[k] == m.nodes[k]
        }),
{
}

/// Registering twice with the same request is registering once.
pub proof fn register_idempotent(m: StoreModel, ed_pub: Seq<char>, req: RequestModel, now: int)
    requires
        m.address_for(ed_pub) is Some,
    ensures
        ({
            let n = m.upserted(ed_pub, req, now);
            n.upserted(ed_pub, req, now) == n && n.address_for(ed_pub) == m.address_for(ed_pub)
        }),
{
    let n = m.upserted(ed_pub, req, now);
    assert(n.upserted(ed_pub, req, now).nodes =~= n.nodes);
}

/// A new node's address was free, and is one of the mesh, neither its first nor
/// its last.
pub proof fn new_address(m: StoreModel, ed_pub: Seq<char>, ip: Seq<char>)
    requires
        m.network <= u32::MAX,
        m.bits <= 32,
        net::network_of(m.network, m.bits) == m.network,
        m.next >= 1,
        !m.nodes.contains_key(ed_pub),
        m.address_for(ed_pub) == Some(ip),
    ensures
        m.fits(),
        !m.taken(ip),
        net::ipv4_value(ip) matches Some(v) && net::network_of(v, m.bits) == m.network && m.network
            < v < m.network + net::block(m.bits) - 1,
{
    first_free_is_first(m, m.next);
    let off = m.first_free(m.next)->0;
    net::network_block(m.network, m.bits);
    net::offset_inside(m.network, off, m.bits);
    net::ipv4_roundtrip((m.network + off) as u32);
}

/// Whatever registers, no two nodes come to share an address, and none comes to
/// have one that none is given.
pub proof fn addresses_stay_distinct(m: StoreModel, ed_pub: Seq<char>, req: RequestModel, now: int)
    requires
        distinct(m),
        unreserved(m),
    ensures
        distinct(m.upserted(ed_pub, req, now)),
        unreserved(m.upserted(ed_pub, req, now)),
{
    let n = m.upserted(ed_pub, req, now);
    if !m.nodes.contains_key(ed_pub) && m.address_for(ed_pub) is Some {
        let ip = m.address_for(ed_pub)->0;
        first_free_is_first(m, m.next);
        assert(!m.taken(ip));
        assert forall|k: Seq<char>| #[trigger] m.nodes.contains_key(k) implies m.nodes[k].mesh_ip
            != ip by {}
    }
    assert forall|a: Seq<char>, b: Seq<char>|
        #![trigger n.nodes[a], n.nodes[b]]
        n.nodes.contains_key(a) && n.nodes.contains_key(b) && a != b implies n.nodes[a].mesh_ip
        != n.nodes[b].mesh_ip by {
        if a != ed_pub && b != ed_pub {
            assert(m.nodes[a].mesh_ip != m.nodes[b].mesh_ip);
        } else if a == ed_pub {
            assert(m.nodes.contains_key(b));
        } else {
            assert(m.nodes.contains_key(a));
        }
    }
    assert forall|a: Seq<char>| #[trigger] n.nodes.contains_key(a) implies !n.reserved.contains(
        n.nodes[a].mesh_ip,
    ) by {
        if a != ed_pub {
            assert(m.nodes.contains_key(a));
        }
    }
}

/// A node that registered is found under its key, with the address that it was
/// told.
pub proof fn registered_is_found(
    m: StoreModel,
    ed_pub: Seq<char>,
    req: RequestModel,
    now: int,
    ip: Seq<char>,
)
    requires
        m.address_for(ed_pub) == Some(ip),
        ip.len() > 0,
    ensures
        m.upserted(ed_pub, req, now).cidr_of(ed_pub) == Some(
            ip + "/"@ + num::decimal(m.bits as nat),
        ),
{
}

/// Once a node has registered, what it is told of its address stays the same,
/// whoever registers after it, the node itself included.
pub proof fn answer_is_stable(
    m: StoreModel,
    ed_pub: Seq<char>,
    other: Seq<char>,
    req: RequestModel,
    now: int,
)
    requires
        m.nodes.contains_key(ed_pub),
    ensures
        m.upserted(other, req, now).nodes.contains_key(ed_pub),
        m.upserted(other, req, now).cidr_of(ed_pub) == m.cidr_of(ed_pub),
{
    address_is_stable(m, other, req, now);
}

/// Whatever registers, the search never starts at the first address of the
/// mesh, and a registry that is opened on what was kept is what it was.
pub proof fn reopen_keeps(m: StoreModel, ed_pub: Seq<char>, req: RequestModel, now: int)
    requires
        m.next >= 1,
    ensures
        m.upserted(ed_pub, req, now).next >= 1,
        opened(Some((m.next, m.nodes)), m.network, m.bits, m.reserved) == m,
{
    first_free_is_first(m, m.next);
}

/// The one that asks is told of exactly those other nodes that were seen since.
pub proof fn listing(
    keys: Seq<Seq<char>>,
    nodes: Map<Seq<char>, NodeModel>,
    asker: Seq<char>,
    since: int,
    p: PeerModel,
)
    ensures
        listed(keys, nodes, asker, since).contains(p) <==> exists|i: int|
            #![trigger keys[i]]
            0 <= i < keys.len() && is_listed(keys[i], nodes[keys[i]], asker, since) && p == peer_of(
                nodes[keys[i]],
            ),
    decreases keys.len(),
{
    let l = listed(keys, nodes, asker, since);
    if keys.len() > 0 {
        let init = keys.drop_last();
        let head = listed(init, nodes, asker, since);
        listing(init, nodes, asker, since, p);
        let k = keys.last();
        if l.contains(p) {
            let j = l.index_of(p);
            if j < head.len() {
                assert(head[j] == p);
                let i = choose|i: int|
                    #![trigger init[i]]
                    0 <= i < init.len() && is_listed(init[i], nodes[init[i]], asker, since) && p
                        == peer_of(nodes[init[i]]);
                assert(keys[i] == init[i]);
            } else {
                assert(keys[keys.len() - 1] == k);
            }
        }
        if exists|i: int|
            #![trigger keys[i]]
            0 <= i < keys.len() && is_listed(keys[i], nodes[keys[i]], asker, since) && p == peer_of(
                nodes[keys[i]],
            ) {
            let i = choose|i: int|
                #![trigger keys[i]]
                0 <= i < keys.len() && is_listed(keys[i], nodes[keys[i]], asker, since) && p
                    == peer_of(nodes[keys[i]]);
            if i < init.len() {
                assert(init[i] == keys[i]);
                let j = head.index_of(p);
                assert(l[j] == p);
            } else {
                assert(l[head.len() as int] == p);
            }
        }
    }
}

/// Whoever registers and is given an address stands under its key with exactly
/// what it asked for, seen now, whether or not it was registered before. Only
/// the address is what it was, where there was one.
pub proof fn registered_as_asked(m: StoreModel, ed_pub: Seq<char>, req: RequestModel, now: int)
    ensures
        m.address_for(ed_pub) is Some ==> {
            let n = m.upserted(ed_pub, req, now);
            let e = n.nodes[ed_pub];
            &&& n.nodes.contains_key(ed_pub)
            &&& e.ed_pub == ed_pub
            &&& e.hostname == req.hostname
            &&& e.wg_pubkey == req.wg_public_key
            &&& e.endpoints == req.endpoints
            &&& e.listen_port == req.listen_port
            &&& e.last_seen == now
            &&& m.address_for(ed_pub) == Some(e.mesh_ip)
        },
        m.nodes.contains_key(ed_pub) ==> m.address_for(ed_pub) is Some && m.upserted(
            ed_pub,
            req,
            now,
        ).nodes[ed_pub].mesh_ip == m.nodes[ed_pub].mesh_ip,
{
}

/// Registering touches one entry at most: every other node, the block and the
/// addresses that none is given stay as they are, and so does everything but the
/// start of the search where no address is left.
pub proof fn registering_touches_one(m: StoreModel, ed_pub: Seq<char>, req: RequestModel, now: int)
    ensures
        ({
            let n = m.upserted(ed_pub, req, now);
            &&& n.network == m.network
            &&& n.bits == m.bits
            &&& n.reserved == m.reserved
            &&& forall|k: Seq<char>|
                k != ed_pub ==> (#[trigger] n.nodes.contains_key(k) <==> m.nodes.contains_key(k))
                    && (m.nodes.contains_key(k) ==> n.nodes[k] == m.nodes[k])
            &&& m.address_for(ed_pub) is None ==> n.nodes == m.nodes
            &&& m.nodes.contains_key(ed_pub) ==> n.next == m.next
        }),
{
}

/// What is registered of a node is what was asked for last, whatever else was
/// registered of it before.
#[verifier::rlimit(40)]
pub proof fn last_registration_wins(
    m: StoreModel,
    ed_pub: Seq<char>,
    first: RequestModel,
    then: int,
    req: RequestModel,
    now: int,
)
    requires
        m.address_for(ed_pub) is Some,
    ensures
        m.upserted(ed_pub, first, then).upserted(ed_pub, req, now) == m.upserted(ed_pub, req, now),
{
    let once = m.upserted(ed_pub, req, now);
    let twice = m.upserted(ed_pub, first, then).upserted(ed_pub, req, now);
    assert(once.nodes =~= twice.nodes);
}

/// A new node is given the lowest address from where the search starts that no
/// node has and that is not withheld, and the search then goes on behind it.
#[verifier::rlimit(40)]
pub proof fn lowest_free_is_given(
    m: StoreModel,
    ed_pub: Seq<char>,
    req: RequestModel,
    now: int,
    v: u32,
)
    requires
        !m.nodes.contains_key(ed_pub),
        m.network + m.next <= v < m.network + vstd::arithmetic::power2::pow2((32 - m.bits) as nat)
            - 1,
        forall|k: Seq<char>| #[trigger]
            m.nodes.contains_key(k) ==> m.nodes[k].mesh_ip != net::ipv4_text(v),
        !m.reserved.contains(net::ipv4_text(v)),
        forall|u: u32|
            m.network + m.next <= u < v ==> m.reserved.contains(#[trigger] net::ipv4_text(u)) || exists|
                k: Seq<char>,
            | #[trigger]
                m.nodes.contains_key(k) && m.nodes[k].mesh_ip == net::ipv4_text(u),
    ensures
        m.address_for(ed_pub) == Some(net::ipv4_text(v)),
        m.upserted(ed_pub, req, now).nodes[ed_pub].mesh_ip == net::ipv4_text(v),
        m.upserted(ed_pub, req, now).next == v - m.network + 1,
{
    first_free_is_first(m, m.next);
    let want = (v - m.network) as nat;
    assert(m.address(want) == net::ipv4_text(v));
    assert(!m.taken(m.address(want)));
    let o = m.first_free(m.next)->0;
    if o < want {
        let u = (m.network + o) as u32;
        assert(m.address(o) == net::ipv4_text(u));
        assert(m.taken(m.address(o)));
    }
    assert(o == want);
}

/// A new node is refused where every address from where the search starts, but
/// the last of the block, is some node's or withheld; the next search then starts
/// no earlier than at that last one.
#[verifier::rlimit(40)]
pub proof fn none_left_is_refused(m: StoreModel, ed_pub: Seq<char>, req: RequestModel, now: int)
    requires
        !m.nodes.contains_key(ed_pub),
        m.fits(),
        forall|u: u32|
            m.network + m.next <= u < m.network + vstd::arithmetic::power2::pow2(
                (32 - m.bits) as nat,
            ) - 1 ==> m.reserved.contains(#[trigger] net::ipv4_text(u)) || exists|k: Seq<char>| #[trigger]
                m.nodes.contains_key(k) && m.nodes[k].mesh_ip == net::ipv4_text(u),
    ensures
        m.address_for(ed_pub) is None,
        m.upserted(ed_pub, req, now).nodes == m.nodes,
        ({
            let last = vstd::arithmetic::power2::pow2((32 - m.bits) as nat) - 1;
            let n = m.upserted(ed_pub, req, now).next;
            n >= m.next && n >= last && (n == m.next || n == last)
        }),
{
    first_free_is_first(m, m.next);
    if m.first_free(m.next) is Some {
        let o = m.first_free(m.next)->0;
        let u = (m.network + o) as u32;
        assert(m.address(o) == net::ipv4_text(u));
        assert(m.taken(m.address(o)));
    }
}

/// As many nodes are told of as there are keys that qualify.
proof fn listed_at(
    keys: Seq<Seq<char>>,
    nodes: Map<Seq<char>, NodeModel>,
    asker: Seq<char>,
    since: int,
)
    ensures
        listed(keys, nodes, asker, since).len() == keys.filter(
            |k: Seq<char>| (asker.len() == 0 || k != asker) && nodes[k].last_seen >= since,
        ).len(),
    decreases keys.len(),
{
    reveal(Seq::filter);
    if keys.len() > 0 {
        listed_at(keys.drop_last(), nodes, asker, since);
    }
}

/// What a peer list is to say, whoever asks: every peer in it is a registered
/// node that was last seen no longer than `ttl` before `now` and is not the one
/// that asks; every such node is in it, with what is registered of it; there is
/// one peer per such node; and addresses come in ascending order.
#[verifier::rlimit(40)]
pub proof fn answer_tells_all(
    keys: Seq<Seq<char>>,
    nodes: Map<Seq<char>, NodeModel>,
    asker: Seq<char>,
    now: Timestamp,
    ttl: Duration,
    answer: Seq<PeerModel>,
)
    requires
        forall|k: Seq<char>| #[trigger] keys.contains(k) <==> nodes.contains_key(k),
        by_address(answer),
        answer.to_multiset() == listed(keys, nodes, asker, cutoff(now, ttl)).to_multiset(),
    ensures
        forall|i: int|
            #![trigger answer[i]]
            0 <= i < answer.len() ==> answer[i].last_seen >= now.nanos - ttl.nanos && exists|
                k: Seq<char>,
            |
                #![trigger nodes[k]]
                nodes.contains_key(k) && (k != asker || asker.len() == 0) && answer[i].last_seen
                    == nodes[k].last_seen && answer[i].hostname == nodes[k].hostname
                    && answer[i].wg_public_key == nodes[k].wg_pubkey && answer[i].mesh_ip
                    == nodes[k].mesh_ip && answer[i].endpoints == nodes[k].endpoints
                    && answer[i].listen_port == nodes[k].listen_port,
        forall|k: Seq<char>|
            #![trigger nodes[k]]
            nodes.contains_key(k) && nodes[k].last_seen >= now.nanos - ttl.nanos && (k != asker
                || asker.len() == 0) ==> exists|i: int|
                #![trigger answer[i]]
                0 <= i < answer.len() && answer[i].last_seen == nodes[k].last_seen
                    && answer[i].hostname == nodes[k].hostname && answer[i].wg_public_key
                    == nodes[k].wg_pubkey && answer[i].mesh_ip == nodes[k].mesh_ip
                    && answer[i].endpoints == nodes[k].endpoints && answer[i].listen_port
                    == nodes[k].listen_port,
        answer.len() == keys.filter(
            |k: Seq<char>|
                (asker.len() == 0 || k != asker) && nodes[k].last_seen >= now.nanos - ttl.nanos,
        ).len(),
        forall|i: int, j: int|
            0 <= i < j < answer.len() ==> !text::lex_lt(
                (#[trigger] answer[j]).mesh_ip,
                (#[trigger] answer[i]).mesh_ip,
            ),
{
    let since = cutoff(now, ttl);
    let l = listed(keys, nodes, asker, since);
    listed_at(keys, nodes, asker, since);
    assert(answer.len() == l.len()) by {
        vstd::seq_lib::to_multiset_len(answer);
        vstd::seq_lib::to_multiset_len(l);
    }
    assert(keys.filter(
        |k: Seq<char>| (asker.len() == 0 || k != asker) && nodes[k].last_seen >= since,
    ) == keys.filter(
        |k: Seq<char>|
            (asker.len() == 0 || k != asker) && nodes[k].last_seen >= now.nanos - ttl.nanos,
    )) by {
        assert((|k: Seq<char>| (asker.len() == 0 || k != asker) && nodes[k].last_seen >= since)
            =~= (|k: Seq<char>|
            (asker.len() == 0 || k != asker) && nodes[k].last_seen >= now.nanos - ttl.nanos));
    }
    assert forall|i: int| #![trigger answer[i]] 0 <= i < answer.len() implies answer[i].last_seen
        >= now.nanos - ttl.nanos && exists|k: Seq<char>|
        #![trigger nodes[k]]
        nodes.contains_key(k) && (k != asker || asker.len() == 0) && answer[i].last_seen
            == nodes[k].last_seen && answer[i].hostname == nodes[k].hostname
            && answer[i].wg_public_key == nodes[k].wg_pubkey && answer[i].mesh_ip
            == nodes[k].mesh_ip && answer[i].endpoints == nodes[k].endpoints
            && answer[i].listen_port == nodes[k].listen_port by {
        let p = answer[i];
        vstd::seq_lib::to_multiset_contains(answer, p);
        vstd::seq_lib::to_multiset_contains(l, p);
        listing(keys, nodes, asker, since, p);
        let j = choose|j: int|
            #![trigger keys[j]]
            0 <= j < keys.len() && is_listed(keys[j], nodes[keys[j]], asker, since) && p == peer_of(
                nodes[keys[j]],
            );
        assert(keys.contains(keys[j]));
    }
    assert forall|k: Seq<char>|
        #![trigger nodes[k]]
        nodes.contains_key(k) && nodes[k].last_seen >= now.nanos - ttl.nanos && (k != asker
            || asker.len() == 0) implies exists|i: int|
        #![trigger answer[i]]
        0 <= i < answer.len() && answer[i].last_seen == nodes[k].last_seen && answer[i].hostname
            == nodes[k].hostname && answer[i].wg_public_key == nodes[k].wg_pubkey
            && answer[i].mesh_ip == nodes[k].mesh_ip && answer[i].endpoints == nodes[k].endpoints
            && answer[i].listen_port == nodes[k].listen_port by {
        let p = peer_of(nodes[k]);
        assert(keys.contains(k));
        let j = keys.index_of(k);
        assert(keys[j] == k);
        listing(keys, nodes, asker, since, p);
        vstd::seq_lib::to_multiset_contains(l, p);
        vstd::seq_lib::to_multiset_contains(answer, p);
        let i = answer.index_of(p);
        assert(answer[i] == p);
    }
}

/// A registry that is opened searches from where the file says, but never from
/// the first address; it holds the file's nodes, or none where there was no
/// file.
pub proof fn opens_as_kept(
    file: Option<(nat, Map<Seq<char>, NodeModel>)>,
    network: nat,
    bits: u8,
    reserved: Seq<Seq<char>>,
)
    ensures
        ({
            let m = opened(file, network, bits, reserved);
            &&& m.network == network
            &&& m.bits == bits
            &&& m.reserved == reserved
            &&& m.next >= 1
            &&& file is None ==> m.next == 1 && forall|k: Seq<char>|
                !#[trigger] m.nodes.contains_key(k)
            &&& file matches Some((next, nodes)) ==> m.nodes == nodes && (next >= 1 ==> m.next
                == next) && (next == 0 ==> m.next == 1)
        }),
{
}

/// A node is told its own address and the prefix length, which can be read back,
/// if and only if it is registered with an address.
#[verifier::rlimit(40)]
pub proof fn cidr_reads_back(m: StoreModel, ed_pub: Seq<char>)
    ensures
        m.cidr_of(ed_pub) is Some <==> m.nodes.contains_key(ed_pub)
            && m.nodes[ed_pub].mesh_ip.len() > 0,
        m.cidr_of(ed_pub) is Some && !m.nodes[ed_pub].mesh_ip.contains('/') ==> {
            let p = text::pieces(m.cidr_of(ed_pub)->0, text::Sep::Char('/'));
            &&& p.len() == 2
            &&& p[0] == m.nodes[ed_pub].mesh_ip
            &&& num::unsigned_value(p[1], 255) == Ok::<nat, num::IntError>(m.bits as nat)
        },
{
    if m.cidr_of(ed_pub) is Some && !m.nodes[ed_pub].mesh_ip.contains('/') {
        let ip = m.nodes[ed_pub].mesh_ip;
        let d = num::decimal(m.bits as nat);
        let sep = text::Sep::Char('/');
        reveal_strlit("/");
        assert(ip + "/"@ + d =~= ip + seq!['/'] + d);
        assert forall|i: int| 0 <= i < ip.len() implies !sep.splits(#[trigger] ip[i]) by {
            assert(ip.contains(ip[i]));
        }
        num::decimal_shape(m.bits as nat);
        num::unsigned_roundtrip(m.bits as nat, 255);
        text::pieces_concat(ip, '/', d, sep);
        text::pieces_single(ip, sep);
        text::pieces_single(d, sep);
    }
}

/// White space in a file is a tab, a line feed, a form feed, a carriage return
/// or a blank, and a file of nothing else is blank, an empty one too.
pub proof fn blank_bytes(b: u8)
    ensures
        blank_byte(b) <==> seq![0x09u8, 0x0au8, 0x0cu8, 0x0du8, 0x20u8].contains(b),
{
    let t = seq![0x09u8, 0x0au8, 0x0cu8, 0x0du8, 0x20u8];
    assert(t[0] == 9 && t[1] == 10 && t[2] == 12 && t[3] == 13 && t[4] == 32);
}

} // verus!
