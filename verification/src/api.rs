//! What coordinator and agents say to each other.

use vstd::prelude::*;
use crate::clock::Timestamp;
use crate::text;

verus! {

pub const HEADER_TIMESTAMP: &'static str = "X-Sig-Timestamp";

pub const HEADER_PUBKEY: &'static str = "X-Sig-Pubkey";

pub const HEADER_SIGNATURE: &'static str = "X-Sig-Signature";

/// How far the clocks of two ends may differ, either way.
pub const MAX_CLOCK_SKEW_SECS: i64 = 60;

/// An agent announces itself.
#[derive(Debug, Clone)]
pub struct RegisterRequest {
    pub hostname: String,
    pub ssh_public_key: String,
    pub wg_public_key: String,
    pub endpoints: Vec<String>,
    pub listen_port: u16,
}

/// The mesh address, with its prefix length, that the agent was given.
#[derive(Debug, Clone)]
pub struct RegisterResponse {
    pub mesh_ip: String,
}

/// One other node of the mesh.
#[derive(Debug, Clone)]
pub struct Peer {
    pub hostname: String,
    pub wg_public_key: String,
    pub mesh_ip: String,
    pub endpoints: Vec<String>,
    pub listen_port: u16,
    pub last_seen: Timestamp,
}

/// The coordinator's WireGuard hub. Agents install it as a peer that takes all
/// of `mesh_cidr`.
#[derive(Debug, Clone)]
pub struct Relay {
    pub wg_public_key: String,
    pub endpoint: String,
    pub mesh_ip: String,
    pub mesh_cidr: String,
}

/// The answer to an agent that asks for its peers.
#[derive(Debug, Clone)]
pub struct PeersResponse {
    pub self_pubkey: String,
    pub relay: Option<Relay>,
    pub peers: Vec<Peer>,
}

/// What a peer is, as texts and numbers.
#[verifier::ext_equal]
pub struct PeerModel {
    pub hostname: Seq<char>,
    pub wg_public_key: Seq<char>,
    pub mesh_ip: Seq<char>,
    pub endpoints: Seq<Seq<char>>,
    pub listen_port: u16,
    pub last_seen: int,
}

/// What a relay is, as texts.
#[verifier::ext_equal]
pub struct RelayModel {
    pub wg_public_key: Seq<char>,
    pub endpoint: Seq<char>,
    pub mesh_ip: Seq<char>,
    pub mesh_cidr: Seq<char>,
}

/// What a registration is, as texts and numbers.
#[verifier::ext_equal]
pub struct RequestModel {
    pub hostname: Seq<char>,
    pub ssh_public_key: Seq<char>,
    pub wg_public_key: Seq<char>,
    pub endpoints: Seq<Seq<char>>,
    pub listen_port: u16,
}

/// What an answer with peers is.
#[verifier::ext_equal]
pub struct PeersModel {
    pub self_pubkey: Seq<char>,
    pub relay: Option<RelayModel>,
    pub peers: Seq<PeerModel>,
}

impl View for Peer {
    type V = PeerModel;

    open spec fn view(&self) -> PeerModel {
        PeerModel {
            hostname: self.hostname@,
            wg_public_key: self.wg_public_key@,
            mesh_ip: self.mesh_ip@,
            endpoints: text::texts(self.endpoints@),
            listen_port: self.listen_port,
            last_seen: self.last_seen.nanos as int,
        }
    }
}

impl View for Relay {
    type V = RelayModel;

    open spec fn view(&self) -> RelayModel {
        RelayModel {
            wg_public_key: self.wg_public_key@,
            endpoint: self.endpoint@,
            mesh_ip: self.mesh_ip@,
            mesh_cidr: self.mesh_cidr@,
        }
    }
}

impl View for RegisterRequest {
    type V = RequestModel;

    open spec fn view(&self) -> RequestModel {
        RequestModel {
            hostname: self.hostname@,
            ssh_public_key: self.ssh_public_key@,
            wg_public_key: self.wg_public_key@,
            endpoints: text::texts(self.endpoints@),
            listen_port: self.listen_port,
        }
    }
}

/// The models of a sequence of peers.
pub open spec fn peer_models(v: Seq<Peer>) -> Seq<PeerModel> {
    v.map_values(|p: Peer| p@)
}

/// The model of a relay that may be absent.
pub open spec fn opt_relay(v: Option<Relay>) -> Option<RelayModel> {
    match v {
        Some(r) => Some(r@),
        None => None,
    }
}

impl View for PeersResponse {
    type V = PeersModel;

    open spec fn view(&self) -> PeersModel {
        PeersModel {
            self_pubkey: self.self_pubkey@,
            relay: opt_relay(self.relay),
            peers: peer_models(self.peers@),
        }
    }
}

} // verus!
