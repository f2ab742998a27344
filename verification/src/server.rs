//! What the coordinator answers: `POST /register`, `GET /peers`, `GET /healthz`.
//! The first two are signed.

use vstd::prelude::*;
use vstd::string::*;
use crate::api;
use crate::api::{PeersResponse, RegisterRequest, RegisterResponse};
use crate::clock::Timestamp;
use crate::config::Config;
use crate::crypto;
use crate::net;
use crate::num;
use crate::relay::Relay;
use crate::sig;
use crate::sig::{SigFault, Verified};
use crate::signers::Signers;
use crate::store;
use crate::store::{Store, StoreError, StoreModel};
use crate::text;

verus! {

/// What the coordinator knows.
pub struct AppState {
    pub cfg: Config,
    pub store: Store,
    pub signers: Signers,
    pub relay: Option<Relay>,
}

/// The signature headers of a request, empty where absent, and its body.
#[derive(Debug)]
pub struct SignedRequest {
    pub timestamp: String,
    pub pubkey: String,
    pub signature: String,
    pub body: Vec<u8>,
}

/// An answer.
#[derive(Debug)]
pub enum Reply {
    /// A status other than 200, with a text.
    Refused { status: u16, text: String },
    /// The address of a node that has registered.
    Registered(RegisterResponse),
    /// The peers of a node that asks.
    Peers(PeersResponse),
}

/// The signature headers of a request and its body, as texts and bytes.
#[verifier::ext_equal]
pub struct SignedModel {
    pub timestamp: Seq<char>,
    pub pubkey: Seq<char>,
    pub signature: Seq<char>,
    pub body: Seq<u8>,
}

impl View for SignedRequest {
    type V = SignedModel;

    open spec fn view(&self) -> SignedModel {
        SignedModel {
            timestamp: self.timestamp@,
            pubkey: self.pubkey@,
            signature: self.signature@,
            body: self.body@,
        }
    }
}

/// A refusal with a status and a text.
pub open spec fn refuses(r: Reply, status: u16, text: Seq<char>) -> bool {
    r matches Reply::Refused { status: s, text: t } && s == status && t@ == text
}

/// Who asks, in base64, or why the request is refused, under an allowlist.
pub open spec fn asker(
    allowed: Map<Seq<char>, Seq<char>>,
    req: SignedModel,
    method: Seq<char>,
    path: Seq<char>,
    now: int,
) -> Result<Seq<char>, SigFault> {
    match sig::claim_of(req.timestamp, req.pubkey, req.signature, now) {
        Err(e) => Err(e),
        Ok((ts, key)) => sig::verdict(
            req.timestamp,
            req.pubkey,
            req.signature,
            method,
            path,
            req.body,
            now,
            allowed.contains_key(crypto::b64_text(key)),
        ),
    }
}

/// The whole seconds of a point in time, rounded down.
pub open spec fn unix_secs(now: Timestamp) -> int {
    now.nanos as int / 1_000_000_000
}

/// What the registry answers to a registration: nothing wrong, or a refusal.
pub open spec fn registration(
    m: StoreModel,
    key: Seq<char>,
    parsed: Result<RegisterRequest, String>,
) -> Option<(u16, Seq<char>)> {
    match parsed {
        Err(e) => Some((400, "json: "@ + e@)),
        Ok(req) => if req@.wg_public_key.len() == 0 {
            Some((400, "wg_public_key required"@))
        } else if m.address_for(key) is None {
            Some((500, StoreError::Exhausted.wording()))
        } else {
            None
        },
    }
}

/// The registry after a registration was looked at.
pub open spec fn store_after(
    m: StoreModel,
    key: Seq<char>,
    parsed: Result<RegisterRequest, String>,
    now: Timestamp,
) -> StoreModel {
    match parsed {
        Err(e) => m,
        Ok(req) => if req@.wg_public_key.len() == 0 {
            m
        } else {
            m.upserted(key, req@, now.nanos as int)
        },
    }
}

impl AppState {
    /// Registry and allowlist are in order, and addresses are 32-bit numbers.
    pub open spec fn wf(self) -> bool {
        &&& self.store.wf()
        &&& self.store@.fits()
        &&& self.signers.wf()
        &&& self.cfg.peer_ttl.valid()
    }

    /// What a coordinator knows when it starts: its registry is one of the mesh
    /// that the configuration names.
    pub fn new(cfg: Config, store: Store, signers: Signers, relay: Option<Relay>) -> (r: Self)
        requires
            cfg.wf(),
            store.wf(),
            store@.network == cfg.network_addr.bits,
            store@.bits == cfg.prefix_bits,
            signers.wf(),
        ensures
            r.wf(),
            r.cfg == cfg,
            r.store == store,
            r.signers == signers,
            r.relay == relay,
    {
        proof {
            net::network_block(cfg.network_addr.bits as nat, cfg.prefix_bits);
        }
        AppState { cfg, store, signers, relay }
    }

    /// Who asks? A request that an allowed key signed, within the clock skew, is
    /// not refused.
    pub fn authorize(&self, req: &SignedRequest, method: &str, path: &str, now: Timestamp) -> (r:
        Result<Verified, Reply>)
        requires
            self.wf(),
            now.valid(),
        ensures
            match r {
                Ok(v) => v.ssh_pub_line@ == req.pubkey@ && asker(
                    self.signers@,
                    req@,
                    method@,
                    path@,
                    unix_secs(now),
                ) == Ok::<Seq<char>, SigFault>(v.ed_pub_raw_b64@),
                Err(a) => asker(self.signers@, req@, method@, path@, unix_secs(now)) matches Err(e)
                    && refuses(a, 401, e.wording()),
            },
            r matches Ok(v) ==> v.ed_pub_raw_b64@.len() == 44,
            forall|seed: Seq<u8>, ts: int| #[trigger]
                sig::signed_by(
                    seed,
                    ts,
                    req.timestamp@,
                    req.pubkey@,
                    req.signature@,
                    method@,
                    path@,
                    req.body@,
                ) && sig::fresh(unix_secs(now), ts) && self.signers.allows(
                    crypto::b64_text(crypto::ed25519_public(seed)),
                ) ==> r is Ok,
    {
        let signers = &self.signers;
        let allowed = |k: &str| -> (b: bool)
            ensures
                b == signers.allows(k@),
            { signers.contains(k) };
        let r = sig::verify(
            req.timestamp.as_str(),
            req.pubkey.as_str(),
            req.signature.as_str(),
            method,
            path,
            req.body.as_slice(),
            now.unix(),
            allowed,
        );
        match r {
            Ok(v) => Ok(v),
            Err(e) => Err(Reply::Refused { status: 401, text: e.message() }),
        }
    }

    /// Look at a registration, given its body as parsed or the wording of the
    /// error in parsing it. Where it is good the registry has changed, and is to
    /// be kept before `finish_register` answers.
    pub fn handle_register(
        &mut self,
        req: &SignedRequest,
        parsed: Result<RegisterRequest, String>,
        now: Timestamp,
    ) -> (r: Result<Verified, Reply>)
        requires
            old(self).wf(),
            now.valid(),
        ensures
            final(self).wf(),
            final(self).cfg == old(self).cfg,
            final(self).signers == old(self).signers,
            final(self).relay == old(self).relay,
            match asker(old(self).signers@, req@, "POST"@, "/register"@, unix_secs(now)) {
                Err(e) => (r matches Err(a) && refuses(a, 401, e.wording())) && *final(self)
                    == *old(self),
                Ok(key) => {
                    &&& final(self).store@ == store_after(old(self).store@, key, parsed, now)
                    &&& match registration(old(self).store@, key, parsed) {
                        Some((status, text)) => r matches Err(a) && refuses(a, status, text),
                        None => r matches Ok(v) && v.ed_pub_raw_b64@ == key,
                    }
                },
            },
    {
        let v = match self.authorize(req, "POST", "/register", now) {
            Ok(v) => v,
            Err(a) => {
                return Err(a);
            },
        };
        let body = match parsed {
            Ok(b) => b,
            Err(e) => {
                return Err(
                    Reply::Refused { status: 400, text: "json: ".to_owned().concat(e.as_str()) },
                );
            },
        };
        if body.wg_public_key.as_str().is_empty() {
            return Err(
                Reply::Refused { status: 400, text: "wg_public_key required".to_owned() },
            );
        }
        match self.store.upsert(v.ed_pub_raw_b64.as_str(), &body, now) {
            Ok(_) => Ok(v),
            Err(e) => Err(Reply::Refused { status: 500, text: e.message() }),
        }
    }

    /// Answer a good registration, given whether the registry was kept.
    pub fn finish_register(&self, v: &Verified, kept: Result<(), StoreError>) -> (r: Reply)
        requires
            self.wf(),
        ensures
            match kept {
                Err(e) => refuses(r, 500, e.wording()),
                Ok(_) => r matches Reply::Registered(a) && a.mesh_ip@ == (match self.store@.cidr_of(
                    v.ed_pub_raw_b64@,
                ) {
                    Some(c) => c,
                    None => Seq::empty(),
                }),
            },
    {
        match kept {
            Ok(_) => Reply::Registered(
                RegisterResponse {
                    mesh_ip: match self.store.mesh_ip_cidr(v.ed_pub_raw_b64.as_str()) {
                        Some(c) => c,
                        None => String::new(),
                    },
                },
            ),
            Err(e) => Reply::Refused { status: 500, text: e.message() },
        }
    }

    /// Answer a node that asks for its peers.
    pub fn handle_peers(&self, req: &SignedRequest, now: Timestamp) -> (r: Reply)
        requires
            self.wf(),
            now.valid(),
        ensures
            match asker(self.signers@, req@, "GET"@, "/peers"@, unix_secs(now)) {
                Err(e) => refuses(r, 401, e.wording()),
                Ok(key) => r matches Reply::Peers(a) && {
                    &&& a.self_pubkey@ == key && key.len() == 44
                    &&& api::opt_relay(a.relay) == (match self.relay {
                        Some(h) => Some(h.info_model()),
                        None => None,
                    })
                    &&& store::by_address(api::peer_models(a.peers@))
                    &&& api::peer_models(a.peers@).to_multiset() == store::listed(
                        self.store.state.nodes.key_seq(),
                        self.store@.nodes,
                        key,
                        store::cutoff(now, self.cfg.peer_ttl),
                    ).to_multiset()
                },
            },
    {
        let v = match self.authorize(req, "GET", "/peers", now) {
            Ok(v) => v,
            Err(a) => {
                return a;
            },
        };
        let peers = self.store.peers(v.ed_pub_raw_b64.as_str(), self.cfg.peer_ttl, now);
        let relay = match &self.relay {
            Some(h) => Some(h.info()),
            None => None,
        };
        Reply::Peers(PeersResponse { self_pubkey: v.ed_pub_raw_b64, relay, peers })
    }
}

/// What `/healthz` answers, to anyone.
pub fn healthz() -> (r: &'static str)
    ensures
        r@ == "ok"@,
{
    "ok"
}

/// A request without one of the signature headers is refused, and so is one
/// whose key is not on the allowlist.
pub proof fn strangers_refused(
    allowed: Map<Seq<char>, Seq<char>>,
    req: SignedModel,
    method: Seq<char>,
    path: Seq<char>,
    now: int,
)
    ensures
        req.timestamp.len() == 0 || req.pubkey.len() == 0 || req.signature.len() == 0 ==> asker(
            allowed,
            req,
            method,
            path,
            now,
        ) == Err::<Seq<char>, SigFault>(SigFault::MissingHeader),
        asker(allowed, req, method, path, now) matches Ok(key) ==> allowed.contains_key(key),
        sig::claim_of(req.timestamp, req.pubkey, req.signature, now) matches Ok(c)
            ==> !allowed.contains_key(crypto::b64_text(c.1)) ==> asker(
            allowed,
            req,
            method,
            path,
            now,
        ) == Err::<Seq<char>, SigFault>(SigFault::NotAuthorized),
{
}

/// Who asks, and exactly when a request is heard: its headers are there, its
/// time is within a minute of this end's, its line names an ed25519 key that is
/// on the allowlist, and the signature is one of this very request under it.
#[verifier::rlimit(40)]
pub proof fn heard_rules(
    allowed: Map<Seq<char>, Seq<char>>,
    req: SignedModel,
    method: Seq<char>,
    path: Seq<char>,
    now: int,
)
    ensures
        ({
            let a = asker(allowed, req, method, path, now);
            let ts = num::signed_value(req.timestamp);
            let line = crypto::ssh_public(text::trimmed(req.pubkey));
            let (_, held) = line->Ok_0;
            let id = crypto::b64_text(held->0);
            let sig = crypto::b64_bytes(req.signature);
            &&& a is Ok <==> {
                &&& req.timestamp.len() > 0 && req.pubkey.len() > 0 && req.signature.len() > 0
                &&& ts is Ok && now - ts->Ok_0 <= 60 && ts->Ok_0 - now <= 60
                &&& line is Ok && held is Some
                &&& allowed.contains_key(id)
                &&& sig is Some && sig->0.len() == 64 && crypto::ed25519_valid(
                    held->0,
                    vstd::utf8::encode_utf8(
                        num::signed_decimal(ts->Ok_0) + "\n"@ + method + "\n"@ + path + "\n"@
                            + crypto::hex_text(crypto::sha256(req.body)),
                    ),
                    sig->0,
                )
            }
            &&& a is Ok ==> a->Ok_0 == id
        }),
{
    sig::verdict_rules(
        req.timestamp,
        req.pubkey,
        req.signature,
        method,
        path,
        req.body,
        now,
        true,
    );
    sig::verdict_rules(
        req.timestamp,
        req.pubkey,
        req.signature,
        method,
        path,
        req.body,
        now,
        false,
    );
}

/// A registration is refused with 400 where its body is none or names no
/// WireGuard key, and then changes nothing; with 500 where no address is left;
/// and otherwise taken, for a node that is known always.
#[verifier::rlimit(40)]
pub proof fn registration_rules(
    m: StoreModel,
    key: Seq<char>,
    parsed: Result<RegisterRequest, String>,
    now: Timestamp,
)
    ensures
        match registration(m, key, parsed) {
            None => parsed is Ok && parsed->Ok_0.wg_public_key@.len() > 0 && m.address_for(
                key,
            ) is Some,
            Some((status, text)) => {
                ||| status == 400 && parsed is Err && text == "json: "@ + parsed->Err_0@
                ||| status == 400 && parsed is Ok && parsed->Ok_0.wg_public_key@.len() == 0 && text
                    == "wg_public_key required"@
                ||| status == 500 && parsed is Ok && parsed->Ok_0.wg_public_key@.len() > 0
                    && m.address_for(key) is None
            },
        },
        parsed is Err || parsed->Ok_0.wg_public_key@.len() == 0 ==> store_after(m, key, parsed, now)
            == m,
        registration(m, key, parsed) is None ==> {
            let n = store_after(m, key, parsed, now).nodes;
            let req = parsed->Ok_0;
            &&& n.contains_key(key)
            &&& n[key].hostname == req.hostname@
            &&& n[key].wg_pubkey == req.wg_public_key@
            &&& n[key].endpoints == text::texts(req.endpoints@)
            &&& n[key].listen_port == req.listen_port
            &&& n[key].last_seen == now.nanos
            &&& m.nodes.contains_key(key) ==> n[key].mesh_ip == m.nodes[key].mesh_ip
        },
        parsed is Ok && parsed->Ok_0.wg_public_key@.len() > 0 && m.nodes.contains_key(key)
            ==> registration(m, key, parsed) is None,
        forall|k: Seq<char>|
            k != key ==> (#[trigger] store_after(m, key, parsed, now).nodes.contains_key(k)
                <==> m.nodes.contains_key(k)) && (m.nodes.contains_key(k) ==> store_after(
                m,
                key,
                parsed,
                now,
            ).nodes[k] == m.nodes[k]),
{
    if parsed is Ok {
        store::registered_as_asked(m, key, parsed->Ok_0@, now.nanos as int);
        store::registering_touches_one(m, key, parsed->Ok_0@, now.nanos as int);
    }
}

/// What a node registers is what every other node is then told of it, until it
/// has not been heard of for the time that peers stay listed.
#[verifier::rlimit(40)]
pub proof fn registered_is_told(
    m: StoreModel,
    key: Seq<char>,
    parsed: Result<RegisterRequest, String>,
    then: Timestamp,
    keys: Seq<Seq<char>>,
    asker: Seq<char>,
    now: Timestamp,
    ttl: crate::clock::Duration,
    answer: Seq<api::PeerModel>,
)
    requires
        registration(m, key, parsed) is None,
        forall|k: Seq<char>| #[trigger]
            keys.contains(k) <==> store_after(m, key, parsed, then).nodes.contains_key(k),
        store::by_address(answer),
        answer.to_multiset() == store::listed(
            keys,
            store_after(m, key, parsed, then).nodes,
            asker,
            store::cutoff(now, ttl),
        ).to_multiset(),
        key != asker,
        now.nanos - then.nanos <= ttl.nanos,
    ensures
        exists|i: int|
            #![trigger answer[i]]
            0 <= i < answer.len() && answer[i].hostname == parsed->Ok_0.hostname@
                && answer[i].wg_public_key == parsed->Ok_0.wg_public_key@ && answer[i].endpoints
                == text::texts(parsed->Ok_0.endpoints@) && answer[i].listen_port
                == parsed->Ok_0.listen_port && answer[i].last_seen == then.nanos,
{
    registration_rules(m, key, parsed, then);
    let nodes = store_after(m, key, parsed, then).nodes;
    store::answer_tells_all(keys, nodes, asker, now, ttl, answer);
    assert(nodes[key].last_seen == then.nanos);
}

} // verus!
