use wgmesh::agent::{
    collect_endpoints, host_from_url, pick_hostname, read_hostname_or_unknown, Action, Agent,
    AgentConfig, Event, Phase, Round,
};
use wgmesh::api::{Peer, PeersResponse, RegisterResponse, Relay};
use wgmesh::clock::Timestamp;
use wgmesh::crypto::SshPrivateKey;
use wgmesh::keyderive::{identity_of_parsed, Identity};
use wgmesh::lan::{local_endpoints, share_worthy, Interface};
use wgmesh::net::{IpAddr, Ipv4Addr, Ipv6Addr};
use wgmesh::strmap::StrMap;
use wgmesh::tools::{convert_line, pick_pubkey_part, Converted};

fn v4(s: &str) -> IpAddr {
    IpAddr::V4(Ipv4Addr::parse(s).unwrap())
}

/// An address of a few leading and a few trailing groups, zeros between them.
fn v6(s: &str) -> IpAddr {
    let group = |g: &str| u16::from_str_radix(g, 16).unwrap();
    let (head, tail) = s.split_once("::").unwrap();
    let mut segments = [0u16; 8];
    for (i, g) in head.split(':').filter(|g| !g.is_empty()).enumerate() {
        segments[i] = group(g);
    }
    for (i, g) in tail.split(':').filter(|g| !g.is_empty()).rev().enumerate() {
        segments[7 - i] = group(g);
    }
    IpAddr::V6(Ipv6Addr::new(segments))
}

#[test]
fn share_worthy_filters_link_local_v4() {
    assert!(!share_worthy(v4("169.254.5.5")));
    assert!(!share_worthy(v4("127.0.0.1")));
    assert!(share_worthy(v4("10.0.0.5")));
    assert!(share_worthy(v4("203.0.113.7")));
}

#[test]
fn share_worthy_filters_link_local_v6() {
    assert!(!share_worthy(v6("fe80::1")));
    assert!(share_worthy(v6("2001:db8::1")));
}

#[test]
fn host_from_url_strips_scheme_path_and_port() {
    assert_eq!(
        host_from_url("https://mesh.example.com:8443").as_deref(),
        Some("mesh.example.com")
    );
    assert_eq!(
        host_from_url("http://10.0.0.1").as_deref(),
        Some("10.0.0.1")
    );
    assert_eq!(
        host_from_url("https://api.example.com/path?q=1").as_deref(),
        Some("api.example.com")
    );
}

#[test]
fn host_from_url_keeps_ipv6_brackets() {
    assert_eq!(
        host_from_url("https://[2001:db8::1]:8443").as_deref(),
        Some("[2001:db8::1]")
    );
    assert_eq!(
        host_from_url("https://[::1]/path").as_deref(),
        Some("[::1]")
    );
}

#[test]
fn host_from_url_returns_none_when_scheme_missing() {
    assert_eq!(host_from_url("mesh.example.com:8443"), None);
}

#[test]
fn hosts_at_the_edges() {
    assert_eq!(host_from_url("https://"), Some(String::new()));
    assert_eq!(host_from_url("https://[::1"), None);
    assert_eq!(host_from_url("a://b://c").as_deref(), Some("b"));
    assert_eq!(host_from_url("x://h#f").as_deref(), Some("h"));
    assert_eq!(host_from_url("x://h?q:1").as_deref(), Some("h"));
}

#[test]
fn addresses_at_the_edges() {
    for s in ["0.0.0.0", "127.255.0.1", "224.0.0.1", "239.255.255.255", "169.254.0.0"] {
        assert!(!share_worthy(v4(s)), "{s}");
    }
    for s in ["0.0.0.1", "128.0.0.1", "223.255.255.255", "240.0.0.0", "169.253.9.9", "169.255.0.1"] {
        assert!(share_worthy(v4(s)), "{s}");
    }
    for s in ["::", "::1", "ff02::1", "febf::1", "fe80::"] {
        assert!(!share_worthy(v6(s)), "{s}");
    }
    for s in ["::2", "fec0::1", "fe7f::1", "fd00::1", "::ffff:7f00:1"] {
        assert!(share_worthy(v6(s)), "{s}");
    }
}

fn iface(name: &str, loopback: bool, ip: IpAddr) -> Interface {
    Interface {
        name: name.into(),
        up: name != "down0",
        loopback,
        ip,
    }
}

#[test]
fn interfaces_are_filtered() {
    let list = vec![
        iface("lo", true, v4("10.9.9.9")),
        iface("wg0", false, v4("10.42.0.2")),
        iface("eth0", false, v4("192.168.1.5")),
        iface("eth0", false, v6("fe80::5")),
        iface("down0", false, v4("192.168.2.5")),
        iface("eth1", false, v6("2001:db8::7")),
    ];
    let got = local_endpoints(51820, &vec!["wg0".to_string()], Some(list));
    assert_eq!(got.len(), 2);
    assert_eq!(got[0].ip, v4("192.168.1.5"));
    assert_eq!(got[1].ip, v6("2001:db8::7"));
    assert_eq!(got[1].port, 51820);
    assert!(local_endpoints(1, &vec![], None).is_empty());
}

#[test]
fn endpoints_are_sorted_and_told_once() {
    let lan = vec!["b:1".to_string(), "a:1".to_string(), "c:1".to_string(), "b:1".to_string()];
    assert_eq!(
        collect_endpoints(Some("c:1".into()), &lan),
        vec!["a:1".to_string(), "b:1".to_string(), "c:1".to_string()]
    );
    assert!(collect_endpoints(None, &vec![]).is_empty());
}

#[test]
fn names_fall_back() {
    let s = |t: &str| Some(t.to_string());
    assert_eq!(pick_hostname(s("a"), s("b"), s("c")), "a");
    assert_eq!(pick_hostname(None, s("b"), s("c")), "b");
    assert_eq!(pick_hostname(None, None, s(" c\n")), "c");
    assert_eq!(read_hostname_or_unknown(s("\n")), "unknown");
    assert_eq!(read_hostname_or_unknown(None), "unknown");
}

fn agent(stun: &str, include_lan: bool) -> Agent {
    Agent::new(
        AgentConfig {
            ssh_key: "/k".into(),
            coordinator: "https://h".into(),
            stun_server: stun.into(),
            interface: "wg0".into(),
            listen_port: 51820,
            poll_secs: 30,
            hostname: None,
            include_lan,
            skip_iface: vec!["eth9".into()],
        },
        &identity(),
        "me".into(),
    )
}

fn identity() -> Identity {
    match identity_of_parsed(Ok(SshPrivateKey {
        encrypted: false,
        algorithm: "ssh-ed25519".into(),
        seed: Some([0u8; 32]),
        public_line: Ok("ssh-ed25519 AAAA me".into()),
    })) {
        Ok(id) => id,
        Err(e) => panic!("{}", e.message()),
    }
}

#[test]
fn a_round_announces_what_was_found() {
    let a = agent("stun:3478", true);
    assert!(a.cfg.wants_stun());
    assert_eq!(a.cfg.skipped(), vec!["wg0".to_string(), "eth9".to_string()]);
    let r = a.announce(Some("9.9.9.9:1".into()), &vec!["1.1.1.1:1".to_string()]);
    assert_eq!(r.hostname, "me");
    assert_eq!(r.wg_public_key, "W/Vcc7guviK+gPNDBmevVw+uJVamQV5rMNQGUwCqlH0=");
    assert_eq!(r.ssh_public_key, "ssh-ed25519 AAAA me");
    assert_eq!(r.listen_port, 51820);
    assert_eq!(r.endpoints, vec!["1.1.1.1:1".to_string(), "9.9.9.9:1".to_string()]);
    let a = agent("", false);
    assert!(!a.cfg.wants_stun());
    let r = a.announce(Some("9.9.9.9:1".into()), &vec!["1.1.1.1:1".to_string()]);
    assert!(r.endpoints.is_empty());
}

#[test]
fn an_address_is_set_once() {
    let mut a = agent("", false);
    let resp = |s: &str| RegisterResponse { mesh_ip: s.into() };
    assert!(!a.must_assign(&resp("")));
    assert!(a.must_assign(&resp("10.42.0.7/16")));
    a.assigned(&resp("10.42.0.7/16"));
    assert!(!a.must_assign(&resp("10.42.0.7/16")));
    assert!(a.must_assign(&resp("10.42.0.8/16")));
}

#[test]
fn a_round_drives_the_state_machine() {
    let mut a = agent("", false);
    let pr = PeersResponse {
        self_pubkey: "me".into(),
        relay: Some(Relay {
            wg_public_key: "HUB".into(),
            endpoint: "h:1".into(),
            mesh_ip: "10.42.0.1".into(),
            mesh_cidr: "10.42.0.0/16".into(),
        }),
        peers: vec![Peer {
            hostname: "n".into(),
            wg_public_key: "A".into(),
            mesh_ip: "10.42.0.5".into(),
            endpoints: vec!["1.2.3.4:51820".into()],
            listen_port: 51820,
            last_seen: Timestamp::from_unix(0),
        }],
    };
    let (specs, sum) = a.drive(&pr, &StrMap::new(), Timestamp::from_unix(1_000_000));
    assert_eq!(specs.len(), 2);
    assert_eq!(specs[0].pub_key_b64, "HUB");
    assert!(specs[1].allowed_ips.is_empty());
    assert!(sum.has_relay);
    assert_eq!(sum.probing, 1);
}

#[test]
fn key_parts_are_picked() {
    assert_eq!(
        pick_pubkey_part("host ssh-ed25519  AAAA c d"),
        Some(("ssh-ed25519".to_string(), "ssh-ed25519 AAAA c d".to_string()))
    );
    assert_eq!(pick_pubkey_part("no-pty ecdsa-x B").unwrap().0, "ecdsa-x");
    assert_eq!(pick_pubkey_part("sk-x").unwrap().1, "sk-x");
    assert_eq!(pick_pubkey_part("nothing here"), None);
}

#[test]
fn lines_are_converted() {
    let pair = ssh_key::private::Ed25519Keypair::from_seed(&[6u8; 32]);
    let kd = ssh_key::public::KeyData::Ed25519(pair.public);
    let line = ssh_key::PublicKey::new(kd, "x").to_openssh().unwrap();
    let wg = wgmesh::keyderive::derive_wg_from_seed(&[6u8; 32]).pub_key;
    let want = base64::Engine::encode(&base64::engine::general_purpose::STANDARD, wg);
    match convert_line(&format!(" host.example {line}\n")) {
        Converted::Key(k) => assert_eq!(k, want),
        other => panic!("{other:?}"),
    }
    assert!(matches!(convert_line(" # remark"), Converted::Nothing));
    assert!(matches!(convert_line("  "), Converted::Nothing));
    assert!(matches!(convert_line("word"), Converted::Nothing));
    match convert_line("h ssh-rsa AAAA") {
        Converted::Skipped(s) => assert_eq!(
            s,
            "skipped key: got ssh-rsa key type, but only ed25519 keys are supported"
        ),
        other => panic!("{other:?}"),
    }
    match convert_line("ssh-ed25519 !") {
        Converted::Skipped(s) => assert!(s.starts_with("skipped key: parse private key: ")),
        other => panic!("{other:?}"),
    }
}

fn answer() -> PeersResponse {
    PeersResponse {
        self_pubkey: "me".into(),
        relay: None,
        peers: vec![],
    }
}

#[test]
fn a_round_goes_in_order() {
    let round = Round {
        agent: agent("stun:3478", true),
        phase: Phase::Resting,
    };
    let (round, action) = round.step(Event::Due);
    match action {
        Action::Discover { stun, lan } => {
            assert_eq!(stun.as_deref(), Some("stun:3478"));
            assert_eq!(lan.unwrap(), vec!["wg0".to_string(), "eth9".to_string()]);
        }
        _ => panic!("not discovering"),
    }
    let (round, action) = round.step(Event::Found {
        stun: None,
        lan: vec!["1.1.1.1:1".into()],
    });
    match action {
        Action::Register(r) => assert_eq!(r.endpoints, vec!["1.1.1.1:1".to_string()]),
        _ => panic!("not registering"),
    }
    let (round, action) = round.step(Event::Registered(RegisterResponse {
        mesh_ip: "10.42.0.7/16".into(),
    }));
    assert!(matches!(action, Action::SetAddress(c) if c == "10.42.0.7/16"));
    let (round, action) = round.step(Event::AddressSet);
    assert!(matches!(action, Action::AskPeers));
    assert_eq!(round.agent.mesh_cidr, "10.42.0.7/16");
    let (round, action) = round.step(Event::Answered(answer()));
    assert!(matches!(action, Action::ReadHandshakes));
    let (round, action) = round.step(Event::Observed {
        handshakes: StrMap::new(),
        now: Timestamp::from_unix(1_000_000),
    });
    assert!(matches!(action, Action::Install { .. }));
    let (round, action) = round.step(Event::Installed);
    assert!(matches!(action, Action::Rest(30)));
    // The address that was set is not set again.
    let (round, _) = round.step(Event::Due);
    let (round, _) = round.step(Event::Found {
        stun: None,
        lan: vec![],
    });
    let (_, action) = round.step(Event::Registered(RegisterResponse {
        mesh_ip: "10.42.0.7/16".into(),
    }));
    assert!(matches!(action, Action::AskPeers));
}

#[test]
fn a_round_that_fails_starts_over() {
    let round = Round {
        agent: agent("", false),
        phase: Phase::Resting,
    };
    let (round, action) = round.step(Event::Due);
    assert!(matches!(action, Action::Discover { stun: None, lan: None }));
    let (round, _) = round.step(Event::Found {
        stun: None,
        lan: vec![],
    });
    let (round, action) = round.step(Event::Failed);
    assert!(matches!(action, Action::Rest(30)));
    let (round, action) = round.step(Event::Due);
    assert!(matches!(action, Action::Discover { .. }));
    let (round, action) = round.step(Event::Installed);
    assert!(matches!(action, Action::Rest(30)));
    assert!(matches!(round.phase, Phase::Resting));
    assert_eq!(round.agent.mesh_cidr, "");
}
