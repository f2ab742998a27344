use wgmesh::api::{RegisterRequest, RegisterResponse};
use wgmesh::clock::{Duration, Timestamp};
use wgmesh::config::Config;
use wgmesh::coord_client::{receive, ClientError, CoordClient, Incoming, MAX_REPLY_BYTES};
use wgmesh::keyderive::identity_of_parsed;
use wgmesh::net::Ipv4Addr;
use wgmesh::relay::{specs_for, Relay};
use wgmesh::server::{healthz, AppState, Reply, SignedRequest};
use wgmesh::sig::{ed_pub_b64_from_authorized_line, sign, SigningKey};
use wgmesh::signers::{comment_of, Signers, SignersError};
use wgmesh::store::{Store, StoreError};

struct TestNode {
    sk: SigningKey,
    line: String,
}

impl TestNode {
    fn new(seed: u8) -> Self {
        let sk = SigningKey::from_bytes(&[seed; 32]);
        let kd = ssh_key::public::KeyData::Ed25519(ssh_key::public::Ed25519PublicKey(
            sk.verifying_key(),
        ));
        let pk = ssh_key::PublicKey::new(kd, "test");
        let line = pk.to_openssh().unwrap();
        Self { sk, line }
    }

    fn signed_request(&self, method: &str, path: &str, body: &[u8]) -> SignedRequest {
        let ts = NOW;
        SignedRequest {
            timestamp: ts.to_string(),
            pubkey: self.line.clone(),
            signature: sign(ts, method, path, body, &self.sk),
            body: body.to_vec(),
        }
    }
}

const NOW: i64 = 1_700_000_000;

fn now() -> Timestamp {
    Timestamp::from_unix(NOW)
}

fn make_cfg() -> Config {
    Config {
        listen_addr: ":0".into(),
        tls_cert: None,
        tls_key: None,
        mesh_cidr: "10.42.0.0/16".into(),
        state_path: "state.json".into(),
        authorized_signers: "authorized_signers".into(),
        peer_ttl: Duration::from_secs(600),
        relay_enabled: false,
        relay_ssh_key: String::new(),
        relay_interface: String::new(),
        relay_listen_port: 0,
        relay_endpoint: String::new(),
        relay_mesh_ip: String::new(),
        network_addr: Ipv4Addr::new(10, 42, 0, 0),
        prefix_bits: 16,
    }
}

fn setup(signers: &[&TestNode]) -> AppState {
    let mut content = String::new();
    for n in signers {
        content.push_str(&n.line);
        content.push('\n');
    }
    let cfg = make_cfg();
    let store = Store::open(Ok(None), cfg.network_addr, cfg.prefix_bits, &vec![]).unwrap();
    let signers = Signers::load(cfg.authorized_signers.as_str(), Ok(content)).unwrap();
    AppState::new(cfg, store, signers, None)
}

fn register(app: &mut AppState, n: &TestNode, req: RegisterRequest) -> Reply {
    let signed = n.signed_request("POST", "/register", b"{}");
    match app.handle_register(&signed, Ok(req), now()) {
        Ok(v) => app.finish_register(&v, Ok(())),
        Err(reply) => reply,
    }
}

fn registered(r: Reply) -> RegisterResponse {
    match r {
        Reply::Registered(a) => a,
        other => panic!("{other:?}"),
    }
}

fn refusal(r: Reply) -> (u16, String) {
    match r {
        Reply::Refused { status, text } => (status, text),
        other => panic!("{other:?}"),
    }
}

fn node_req(host: &str, line: &str, wg: &str, endpoint: &str) -> RegisterRequest {
    RegisterRequest {
        hostname: host.into(),
        ssh_public_key: line.into(),
        wg_public_key: wg.into(),
        endpoints: vec![endpoint.into()],
        listen_port: 51820,
    }
}

#[test]
fn register_assigns_stable_mesh_ip_and_peers_excludes_self() {
    let a = TestNode::new(1);
    let b = TestNode::new(2);
    let mut app = setup(&[&a, &b]);

    // A registers.
    let reg_a = || node_req("node-a", &a.line, "AAAA-fake-wg-pub-A", "1.2.3.4:51820");
    let resp_a = registered(register(&mut app, &a, reg_a()));
    assert!(
        resp_a.mesh_ip.starts_with("10.42.0.") && resp_a.mesh_ip.ends_with("/16"),
        "unexpected mesh ip: {}",
        resp_a.mesh_ip
    );

    // Re-register A: same mesh IP.
    let resp_a2 = registered(register(&mut app, &a, reg_a()));
    assert_eq!(resp_a.mesh_ip, resp_a2.mesh_ip);

    // B registers.
    let reg_b = node_req("node-b", &b.line, "AAAA-fake-wg-pub-B", "5.6.7.8:51820");
    registered(register(&mut app, &b, reg_b));

    // A fetches /peers: it sees B but not itself.
    let pr = match app.handle_peers(&a.signed_request("GET", "/peers", b""), now()) {
        Reply::Peers(p) => p,
        other => panic!("{other:?}"),
    };
    assert_eq!(pr.peers.len(), 1, "expected 1 peer");
    assert_eq!(pr.peers[0].wg_public_key, "AAAA-fake-wg-pub-B");
    assert_eq!(pr.peers[0].hostname, "node-b");
    assert!(pr.relay.is_none(), "relay should be omitted in coord-only mode");
    assert_eq!(pr.self_pubkey, ed_pub_b64_from_authorized_line(&a.line).unwrap());
}

#[test]
fn register_rejects_unknown_signer() {
    let a = TestNode::new(1);
    let intruder = TestNode::new(3); // not in allowlist
    let mut app = setup(&[&a]);
    let req = RegisterRequest {
        hostname: "x".into(),
        ssh_public_key: intruder.line.clone(),
        wg_public_key: "X".into(),
        endpoints: vec![],
        listen_port: 0,
    };
    let (status, text) = refusal(register(&mut app, &intruder, req));
    assert_eq!(status, 401);
    assert_eq!(text, "pubkey not authorized");
}

#[test]
fn register_rejects_missing_signature_headers() {
    let a = TestNode::new(1);
    let mut app = setup(&[&a]);
    let unsigned = SignedRequest {
        timestamp: String::new(),
        pubkey: String::new(),
        signature: String::new(),
        body: b"{}".to_vec(),
    };
    let req = RegisterRequest {
        hostname: "x".into(),
        ssh_public_key: String::new(),
        wg_public_key: "X".into(),
        endpoints: vec![],
        listen_port: 0,
    };
    let reply = app.handle_register(&unsigned, Ok(req), now()).unwrap_err();
    assert_eq!(refusal(reply).0, 401);
}

#[test]
fn store_persists_assignment_across_reopen() {
    let a = TestNode::new(1);
    let mut app = setup(&[&a]);
    let req = node_req("x", &a.line, "K", "1.1.1.1:51820");
    registered(register(&mut app, &a, req));

    // Re-open the store directly; A's assignment must still be there.
    let store2 = Store::open(
        Ok(Some(app.store.state)),
        Ipv4Addr::new(10, 42, 0, 0),
        16,
        &vec![],
    )
    .unwrap();
    let raw = ed_pub_b64_from_authorized_line(&a.line).unwrap();
    assert!(
        store2.mesh_ip_cidr(&raw).is_some(),
        "expected persisted assignment"
    );
}

#[test]
fn healthz_unauthenticated() {
    assert_eq!(healthz().as_bytes(), b"ok");
}

#[test]
fn registrations_that_make_no_sense_are_refused() {
    let a = TestNode::new(1);
    let mut app = setup(&[&a]);
    let signed = a.signed_request("POST", "/register", b"{");
    let reply = app.handle_register(&signed, Err("EOF".into()), now()).unwrap_err();
    assert_eq!(refusal(reply), (400, "json: EOF".to_string()));
    let reply = register(&mut app, &a, node_req("x", "", "", "e"));
    assert_eq!(refusal(reply), (400, "wg_public_key required".to_string()));
    assert_eq!(app.store.state.nodes.len(), 0);
    // A request for one path is none for another.
    let signed = a.signed_request("GET", "/peers", b"{}");
    let reply = app
        .handle_register(&signed, Ok(node_req("x", "", "W", "e")), now())
        .unwrap_err();
    assert_eq!(refusal(reply), (401, "signature verification failed".to_string()));
    // A replay is refused once the clocks differ too much.
    let signed = a.signed_request("GET", "/peers", b"");
    let reply = app.handle_peers(&signed, Timestamp::from_unix(NOW + 61));
    assert_eq!(refusal(reply), (401, "timestamp skew 61s exceeds 60s".to_string()));
}

#[test]
fn registrations_that_cannot_be_kept_fail() {
    let a = TestNode::new(1);
    let mut app = setup(&[&a]);
    let signed = a.signed_request("POST", "/register", b"{}");
    let v = app
        .handle_register(&signed, Ok(node_req("x", "", "W", "e")), now())
        .unwrap();
    let reply = app.finish_register(&v, Err(StoreError::Io("full".into())));
    assert_eq!(refusal(reply), (500, "io: full".to_string()));
    app.store.state.next_host_bits = 65535;
    let b = TestNode::new(2);
    app.signers = Signers::load("p", Ok(b.line.clone())).unwrap();
    let reply = register(&mut app, &b, node_req("y", "", "W", "e"));
    assert_eq!(refusal(reply), (500, "mesh CIDR exhausted".to_string()));
}

#[test]
fn the_hub_is_told_of_and_has_every_agent() {
    let a = TestNode::new(1);
    let mut app = setup(&[&a]);
    app.cfg.relay_endpoint = "hub:51820".into();
    app.cfg.relay_mesh_ip = "10.42.0.1".into();
    app.cfg.relay_interface = "wg7".into();
    let id = match identity_of_parsed(Ok(wgmesh::crypto::SshPrivateKey {
        encrypted: false,
        algorithm: "ssh-ed25519".into(),
        seed: Some([9; 32]),
        public_line: Ok("line".into()),
    })) {
        Ok(id) => id,
        Err(e) => panic!("{}", e.message()),
    };
    let hub = Relay::start(&app.cfg, &id);
    assert_eq!(hub.address(), "10.42.0.1/16");
    assert_eq!(hub.wm.iface, "wg7");
    let info = hub.info();
    assert_eq!(info.endpoint, "hub:51820");
    assert_eq!(info.mesh_cidr, "10.42.0.0/16");
    assert_eq!(info.wg_public_key.len(), 44);
    app.relay = Some(hub);
    registered(register(&mut app, &a, node_req("x", "", "W", "1.1.1.1:5")));
    let specs = app.relay.as_ref().unwrap().reconcile(&app.store, now());
    assert_eq!(specs.len(), 1);
    assert_eq!(specs[0].pub_key_b64, "W");
    assert_eq!(specs[0].endpoint.as_deref(), Some("1.1.1.1:5"));
    assert_eq!(specs[0].allowed_ips, vec!["10.42.0.1/32".to_string()]);
    assert_eq!(specs[0].keepalive_secs, Some(25));
    match app.handle_peers(&a.signed_request("GET", "/peers", b""), now()) {
        Reply::Peers(p) => assert_eq!(p.relay.unwrap().mesh_ip, "10.42.0.1"),
        other => panic!("{other:?}"),
    }
    let mut peers = app.store.peers("", Duration::from_secs(600), now());
    peers[0].wg_public_key = String::new();
    assert!(specs_for(&peers).is_empty());
}

#[test]
fn allowlists_are_read_line_by_line() {
    let a = TestNode::new(1);
    let b = TestNode::new(2);
    let text = format!("# who\n\n  {}  \r\n{} more words\n", a.line, b.line);
    let mut s = Signers::load("p", Ok(text)).unwrap();
    assert_eq!(s.len(), 2);
    let key = ed_pub_b64_from_authorized_line(&b.line).unwrap();
    assert!(s.contains(&key));
    assert!(!s.contains(&b.line));
    assert_eq!(s.entries.get(&key).unwrap(), "test more words");
    assert_eq!(comment_of("a b  c   d"), "c d");
    assert_eq!(comment_of("a"), "");
    // A bad line changes nothing.
    let e = s.reload(Ok(format!("{}\nnonsense\n", a.line))).unwrap_err();
    assert!(matches!(e, SignersError::BadLine { line: 2, .. }));
    assert!(e.message().starts_with("p:2: parse pubkey: "));
    assert_eq!(s.len(), 2);
    let e = s.reload(Err("gone".into())).unwrap_err();
    assert!(matches!(e, SignersError::Io { .. }));
    assert_eq!(e.message(), "read p: gone");
    assert_eq!(s.len(), 2);
    s.reload(Ok(a.line.clone())).unwrap();
    assert_eq!(s.len(), 1);
    assert!(!s.contains(&key));
    s.reload(Ok(String::new())).unwrap();
    assert_eq!(s.len(), 0);
}

fn client(seed: u8) -> CoordClient {
    let pair = ssh_key::private::Ed25519Keypair::from_seed(&[seed; 32]);
    let key = ssh_key::PrivateKey::new(ssh_key::private::KeypairData::from(pair), "c").unwrap();
    let pem = key.to_openssh(ssh_key::LineEnding::LF).unwrap().as_bytes().to_vec();
    match CoordClient::new("http://h:1//", "/k", Ok(pem)) {
        Ok(c) => c,
        Err(e) => panic!("{}", e.message()),
    }
}

#[test]
fn what_a_client_signs_the_coordinator_accepts() {
    let c = client(4);
    let a = TestNode::new(4);
    let mut app = setup(&[&a]);
    let out = c.register(b"{}", NOW - 30);
    assert_eq!(out.method, "POST");
    assert_eq!(out.url, "http://h:1/register");
    assert_eq!(out.body.as_deref(), Some(&b"{}"[..]));
    let names: Vec<&str> = out.headers.iter().map(|h| h.0.as_str()).collect();
    assert_eq!(
        names,
        vec!["Content-Type", "X-Sig-Timestamp", "X-Sig-Pubkey", "X-Sig-Signature"]
    );
    assert_eq!(out.headers[0].1, "application/json");
    assert_eq!(out.headers[2].1, c.pub_line());
    let signed = SignedRequest {
        timestamp: out.headers[1].1.clone(),
        pubkey: out.headers[2].1.clone(),
        signature: out.headers[3].1.clone(),
        body: out.body.unwrap(),
    };
    assert!(app
        .handle_register(&signed, Ok(node_req("x", "", "W", "e")), now())
        .is_ok());
    let out = c.peers(NOW);
    assert_eq!(out.url, "http://h:1/peers");
    assert_eq!(out.body, None);
    let signed = SignedRequest {
        timestamp: out.headers[1].1.clone(),
        pubkey: out.headers[2].1.clone(),
        signature: out.headers[3].1.clone(),
        body: vec![],
    };
    assert!(matches!(app.handle_peers(&signed, now()), Reply::Peers(_)));
}

#[test]
fn answers_are_judged() {
    assert_eq!(receive("GET", "/peers", Incoming::Answer(vec![1, 2])).unwrap(), vec![1, 2]);
    let long = vec![7u8; MAX_REPLY_BYTES + 5];
    assert_eq!(receive("GET", "/peers", Incoming::Answer(long)).unwrap().len(), MAX_REPLY_BYTES);
    let e = receive("GET", "/peers", Incoming::Status(401, " no \n".into())).unwrap_err();
    assert_eq!(e.message(), "GET /peers: status 401: no");
    let e = receive("POST", "/register", Incoming::Failed("refused".into())).unwrap_err();
    assert_eq!(e.message(), "POST /register: refused");
    let e = client(4).do_request("PUT", "/x", b"", NOW).unwrap_err();
    assert!(matches!(e, ClientError::UnsupportedMethod(_)));
    assert_eq!(e.message(), "unsupported method PUT");
    let r = CoordClient::new("http://h", "/k", Err("gone".into()));
    assert!(r.is_err());
}
