//! The coordinator's WireGuard hub. Every agent is a peer with its own address,
//! and traffic between agents that have no direct tunnel passes through.

use vstd::prelude::*;
use vstd::string::*;
use crate::api;
use crate::api::{Peer, PeerModel, RelayModel};
use crate::clock::{Duration, Timestamp};
use crate::config::Config;
use crate::crypto;
use crate::keyderive::Identity;
use crate::num;
use crate::store;
use crate::store::Store;
use crate::text;
use crate::wglink;
use crate::wglink::{Manager, PeerSpec, SpecModel};

verus! {

/// The hub.
pub struct Relay {
    pub wg_pub: [u8; 32],
    pub endpoint: String,
    pub mesh_ip: String,
    pub mesh_cidr: String,
    pub prefix_bits: u8,
    pub peer_ttl: Duration,
    pub wm: Manager,
}

/// What the hub installs for a peer: nothing without a key and an address.
pub open spec fn hub_spec(p: PeerModel) -> Seq<SpecModel> {
    if p.wg_public_key.len() == 0 || p.mesh_ip.len() == 0 {
        Seq::empty()
    } else {
        seq![
            SpecModel {
                pub_key: p.wg_public_key,
                endpoint: if p.endpoints.len() == 0 {
                    None
                } else {
                    Some(p.endpoints[0])
                },
                allowed_ips: seq![p.mesh_ip + "/32"@],
                keepalive: Some(25),
            },
        ]
    }
}

/// What the hub installs for a list of peers, in that order.
pub open spec fn hub_specs(peers: Seq<PeerModel>) -> Seq<SpecModel>
    decreases peers.len(),
{
    if peers.len() == 0 {
        Seq::empty()
    } else {
        hub_specs(peers.drop_last()) + hub_spec(peers.last())
    }
}

/// What the hub installs for a list of peers.
pub fn specs_for(peers: &Vec<Peer>) -> (r: Vec<PeerSpec>)
    ensures
        wglink::spec_models(r@) == hub_specs(api::peer_models(peers@)),
{
    let ghost ms = api::peer_models(peers@);
    let mut out: Vec<PeerSpec> = Vec::new();
    let mut i: usize = 0;
    assert(wglink::spec_models(out@) =~= hub_specs(ms.take(0)));
    while i < peers.len()
        invariant
            i <= peers@.len(),
            ms == api::peer_models(peers@),
            wglink::spec_models(out@) == hub_specs(ms.take(i as int)),
        decreases peers@.len() - i,
    {
        let p = &peers[i];
        let ghost was = out@;
        proof {
            assert(ms.take(i + 1).drop_last() =~= ms.take(i as int));
            assert(ms.take(i + 1).last() == p@);
        }
        if !p.wg_public_key.as_str().is_empty() && !p.mesh_ip.as_str().is_empty() {
            let mut allowed: Vec<String> = Vec::new();
            allowed.push(p.mesh_ip.clone().concat("/32"));
            assert(text::texts(allowed@) =~= seq![p.mesh_ip@ + "/32"@]);
            out.push(
                PeerSpec {
                    pub_key_b64: p.wg_public_key.clone(),
                    endpoint: if p.endpoints.len() > 0 {
                        Some(p.endpoints[0].clone())
                    } else {
                        None
                    },
                    allowed_ips: allowed,
                    keepalive_secs: Some(25),
                },
            );
        }
        assert(wglink::spec_models(out@) =~= wglink::spec_models(was) + hub_spec(p@));
        i = i + 1;
    }
    assert(ms.take(peers@.len() as int) =~= ms);
    out
}

impl Relay {
    /// The hub of a configuration, with the keys of the coordinator.
    pub fn start(cfg: &Config, id: &Identity) -> (r: Self)
        ensures
            r.wg_pub@ == id.wg_pub@,
            r.endpoint@ == cfg.relay_endpoint@,
            r.mesh_ip@ == cfg.relay_mesh_ip@,
            r.mesh_cidr@ == cfg.mesh_cidr@,
            r.prefix_bits == cfg.prefix_bits,
            r.peer_ttl == cfg.peer_ttl,
            r.wm.iface@ == cfg.relay_interface@,
    {
        Relay {
            wg_pub: id.wg_pub,
            endpoint: cfg.relay_endpoint.clone(),
            mesh_ip: cfg.relay_mesh_ip.clone(),
            mesh_cidr: cfg.mesh_cidr.clone(),
            prefix_bits: cfg.prefix_bits,
            peer_ttl: cfg.peer_ttl,
            wm: Manager::new(cfg.relay_interface.as_str()),
        }
    }

    /// The hub's own address, with the prefix length of the mesh.
    pub fn address(&self) -> (r: String)
        ensures
            r@ == self.mesh_ip@ + "/"@ + num::decimal(self.prefix_bits as nat),
    {
        self.mesh_ip.clone().concat("/").concat(num::show(self.prefix_bits as u64).as_str())
    }

    /// What agents are told of the hub.
    pub open spec fn info_model(self) -> RelayModel {
        RelayModel {
            wg_public_key: crypto::b64_text(self.wg_pub@),
            endpoint: self.endpoint@,
            mesh_ip: self.mesh_ip@,
            mesh_cidr: self.mesh_cidr@,
        }
    }

    /// What agents are told of the hub.
    pub fn info(&self) -> (r: api::Relay)
        ensures
            r@ == self.info_model(),
    {
        api::Relay {
            wg_public_key: crypto::b64_encode(&self.wg_pub),
            endpoint: self.endpoint.clone(),
            mesh_ip: self.mesh_ip.clone(),
            mesh_cidr: self.mesh_cidr.clone(),
        }
    }

    /// The peer set that the hub should have: the nodes that were seen lately,
    /// sorted by address.
    pub fn reconcile(&self, store: &Store, now: Timestamp) -> (r: Vec<PeerSpec>)
        requires
            store.wf(),
            self.peer_ttl.valid(),
            now.valid(),
        ensures
            exists|peers: Seq<PeerModel>|
                {
                    &&& store::by_address(peers)
                    &&& peers.to_multiset() == store::listed(
                        store.state.nodes.key_seq(),
                        store@.nodes,
                        ""@,
                        store::cutoff(now, self.peer_ttl),
                    ).to_multiset()
                    &&& wglink::spec_models(r@) == #[trigger] hub_specs(peers)
                },
    {
        let peers = store.peers("", self.peer_ttl, now);
        let r = specs_for(&peers);
        assert(wglink::spec_models(r@) == hub_specs(api::peer_models(peers@)));
        r
    }
}

/// Each agent has an entry of its own on the hub, with its own address and
/// nothing else, and every entry is some agent's.
pub proof fn hub_routes(peers: Seq<PeerModel>, s: SpecModel)
    ensures
        hub_specs(peers).contains(s) <==> exists|i: int|
            #![trigger peers[i]]
            0 <= i < peers.len() && hub_spec(peers[i]) == seq![s],
    decreases peers.len(),
{
    let all = hub_specs(peers);
    if peers.len() > 0 {
        let init = peers.drop_last();
        let head = hub_specs(init);
        let p = peers.last();
        hub_routes(init, s);
        if all.contains(s) {
            let j = all.index_of(s);
            if j < head.len() {
                assert(head[j] == s);
                let i = choose|i: int|
                    #![trigger init[i]]
                    0 <= i < init.len() && hub_spec(init[i]) == seq![s];
                assert(peers[i] == init[i]);
            } else {
                assert(hub_spec(p)[j - head.len()] == s);
                assert(hub_spec(peers[peers.len() - 1]) =~= seq![s]);
            }
        }
        if exists|i: int|
            #![trigger peers[i]]
            0 <= i < peers.len() && hub_spec(peers[i]) == seq![s] {
            let i = choose|i: int|
                #![trigger peers[i]]
                0 <= i < peers.len() && hub_spec(peers[i]) == seq![s];
            if i < init.len() {
                assert(init[i] == peers[i]);
                let j = head.index_of(s);
                assert(all[j] == s);
            } else {
                assert(hub_spec(p)[0] == s);
                assert(all[head.len() as int] == s);
            }
        }
    }
}

/// What the hub installs: one entry for each node that has a key and an address,
/// in the order of the list, with the node's own address and no other, its first
/// endpoint, if it has any, and a keepalive of 25 seconds.
pub proof fn hub_entries(peers: Seq<PeerModel>)
    ensures
        ({
            let on = peers.filter(
                |p: PeerModel| p.wg_public_key.len() > 0 && p.mesh_ip.len() > 0,
            );
            &&& hub_specs(peers).len() == on.len()
            &&& forall|i: int|
                #![trigger hub_specs(peers)[i]]
                0 <= i < on.len() ==> {
                    let s = hub_specs(peers)[i];
                    let p = on[i];
                    &&& s.pub_key == p.wg_public_key
                    &&& s.allowed_ips.len() == 1 && s.allowed_ips[0] == p.mesh_ip + "/32"@
                    &&& s.endpoint is None <==> p.endpoints.len() == 0
                    &&& s.endpoint is Some ==> s.endpoint->0 == p.endpoints[0]
                    &&& s.keepalive == Some(25u32)
                }
        }),
    decreases peers.len(),
{
    reveal(Seq::filter);
    if peers.len() > 0 {
        hub_entries(peers.drop_last());
        let head = hub_specs(peers.drop_last());
        let all = hub_specs(peers);
        assert forall|i: int| 0 <= i < head.len() implies all[i] == #[trigger] head[i] by {}
    }
}

} // verus!
