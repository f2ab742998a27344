use wgmesh::wglink::{
    already_there, is_root, parse_wg_dump, render_syncconf, Manager, Output, PeerSpec, WgError,
};

#[test]
fn renders_empty_allowed_ips_for_probing_peer() {
    let peers = vec![PeerSpec {
        pub_key_b64: "AAAA".into(),
        endpoint: Some("1.2.3.4:51820".into()),
        allowed_ips: vec![],
        keepalive_secs: Some(25),
    }];
    let cfg = render_syncconf(&peers);
    assert!(cfg.contains("[Peer]"));
    assert!(cfg.contains("PublicKey = AAAA"));
    assert!(cfg.contains("AllowedIPs = \n"), "expected empty AllowedIPs, got:\n{cfg}");
    assert!(cfg.contains("Endpoint = 1.2.3.4:51820"));
    assert!(cfg.contains("PersistentKeepalive = 25"));
}

#[test]
fn renders_multiple_allowed_ips() {
    let peers = vec![PeerSpec {
        pub_key_b64: "Z".into(),
        endpoint: None,
        allowed_ips: vec!["10.42.0.5/32".into(), "10.42.0.6/32".into()],
        keepalive_secs: None,
    }];
    let cfg = render_syncconf(&peers);
    assert!(cfg.contains("AllowedIPs = 10.42.0.5/32, 10.42.0.6/32"));
    assert!(!cfg.contains("Endpoint"));
    assert!(!cfg.contains("PersistentKeepalive"));
}

#[test]
fn parses_wg_dump_with_peer() {
    // device line + one peer line, tab-separated as wg(8) emits.
    let s = "PRIV\tDEVPUB\t51820\toff\n\
             PEERPUB\t(none)\t1.2.3.4:51820\t10.42.0.5/32\t1700000000\t1024\t2048\t25\n";
    let m = parse_wg_dump(s).unwrap();
    assert_eq!(m.len(), 1);
    let p = m.get("PEERPUB").unwrap();
    assert_eq!(p.endpoint.as_deref(), Some("1.2.3.4:51820"));
    assert_eq!(p.last_handshake_unix, 1_700_000_000);
    assert_eq!(p.rx_bytes, 1024);
    assert_eq!(p.tx_bytes, 2048);
}

#[test]
fn parses_wg_dump_with_no_endpoint_and_zero_handshake() {
    let s = "PRIV\tDEVPUB\t51820\toff\n\
             PEERPUB\t(none)\t(none)\t10.42.0.5/32\t0\t0\t0\toff\n";
    let m = parse_wg_dump(s).unwrap();
    let p = m.get("PEERPUB").unwrap();
    assert!(p.endpoint.is_none());
    assert_eq!(p.last_handshake_unix, 0);
}

#[test]
fn syncconf_is_exact() {
    let peers = vec![
        PeerSpec {
            pub_key_b64: "A".into(),
            endpoint: Some("h:1".into()),
            allowed_ips: vec![],
            keepalive_secs: Some(25),
        },
        PeerSpec {
            pub_key_b64: "B".into(),
            endpoint: None,
            allowed_ips: vec!["10.0.0.2/32".into()],
            keepalive_secs: None,
        },
    ];
    assert_eq!(
        render_syncconf(&peers),
        "[Peer]\nPublicKey = A\nAllowedIPs = \nEndpoint = h:1\nPersistentKeepalive = 25\n\n\
         [Peer]\nPublicKey = B\nAllowedIPs = 10.0.0.2/32\n\n"
    );
    assert_eq!(render_syncconf(&vec![]), "");
}

#[test]
fn dump_rows_that_make_no_sense_are_passed_over() {
    let s = "device\n\nshort\trow\nK\t\t\t\tx\t-1\t+7\r\nK\t\tE\t\t-5\t1\t2\n";
    let m = parse_wg_dump(s).unwrap();
    assert_eq!(m.len(), 1);
    let p = m.get("K").unwrap();
    assert_eq!(p.endpoint.as_deref(), Some("E"));
    assert_eq!(p.last_handshake_unix, -5);
    assert_eq!(p.rx_bytes, 1);
    assert_eq!(p.tx_bytes, 2);
    let s = "device\nK\t\t\t\tx\t-1\t+7\r\n";
    let p = parse_wg_dump(s).unwrap();
    let p = p.get("K").unwrap();
    assert_eq!(p.endpoint, None);
    assert_eq!((p.last_handshake_unix, p.rx_bytes, p.tx_bytes), (0, 0, 7));
    assert_eq!(parse_wg_dump("").unwrap().len(), 0);
}

fn output(success: bool, code: Option<i32>, stdout: &str, stderr: &str) -> Output {
    Output {
        success,
        code,
        stdout: stdout.into(),
        stderr: stderr.into(),
    }
}

#[test]
fn link_is_created_only_when_absent() {
    let m = Manager::new("wg0");
    assert_eq!(m.link_query().line(), "ip link show wg0");
    let cmds = m.ensure_link(true);
    assert_eq!(cmds.len(), 1);
    assert_eq!(cmds[0].line(), "ip link set wg0 up");
    let cmds = m.ensure_link(false);
    assert_eq!(cmds[0].line(), "ip link add wg0 type wireguard");
    assert_eq!(cmds[1].line(), "ip link set wg0 up");
}

#[test]
fn an_address_that_exists_is_no_error() {
    let m = Manager::new("wg0");
    assert_eq!(m.address_command("10.0.0.1/16").line(), "ip addr add 10.0.0.1/16 dev wg0");
    assert!(m.ensure_address("10.0.0.1/16", &output(true, Some(0), "", "")).is_ok());
    let out = output(false, Some(2), "", "RTNETLINK answers: File EXISTS");
    assert!(m.ensure_address("10.0.0.1/16", &out).is_ok());
    let out = output(false, Some(2), "", "Operation not permitted");
    let e = m.ensure_address("10.0.0.1/16", &out).unwrap_err();
    assert_eq!(
        e.message(),
        "ip addr add 10.0.0.1/16 dev wg0: exit 2: Operation not permitted"
    );
    assert!(already_there("file exists"));
    assert!(!already_there("FILE EXISTS"));
}

#[test]
fn other_addresses_are_taken_off() {
    let m = Manager::new("wg0");
    assert_eq!(m.addresses_query().line(), "ip -o -4 addr show dev wg0");
    let shown = "7: wg0    inet 10.42.0.9/16 scope global wg0\n\
                 7: wg0    inet 10.42.0.7/16 scope global wg0\n\
                 nothing here inet\n";
    let cmds = m.replace_mesh_address("10.42.0.7/16", &output(true, Some(0), shown, ""));
    assert_eq!(cmds.len(), 1);
    assert_eq!(cmds[0].line(), "ip addr del 10.42.0.9/16 dev wg0");
    let cmds = m.replace_mesh_address("10.42.0.7/16", &output(false, Some(1), shown, ""));
    assert!(cmds.is_empty());
}

#[test]
fn keys_and_peers_are_staged_in_files() {
    let m = Manager::new("wg0");
    let s = m.configure(&[0u8; 32], 51820, "/tmp/k");
    assert_eq!(s.content, "AAAAAAAAAAAAAAAAAAAAAAAAAAAAAAAAAAAAAAAAAAA=");
    assert_eq!(s.cmd.line(), "wg set wg0 listen-port 51820 private-key /tmp/k");
    let s = m.replace_peers(&vec![], "/tmp/p");
    assert_eq!(s.content, "");
    assert_eq!(s.cmd.line(), "wg syncconf wg0 /tmp/p");
}

#[test]
fn commands_that_fail_say_so() {
    let m = Manager::new("wg0");
    let cmd = m.dump_query();
    assert!(cmd.outcome(&output(true, Some(0), "", "noise")).is_ok());
    let e = cmd.outcome(&output(false, None, "", "gone")).unwrap_err();
    assert_eq!(e.message(), "wg show wg0 dump: exit -1: gone");
    let e = m.handshakes(&output(false, Some(1), "", "no")).unwrap_err();
    assert_eq!(e.message(), "wg show wg0 dump: exit 1: no");
    let ok = "d\nK\t\tE\t\t5\t1\t2\n";
    assert!(m.handshakes(&output(true, Some(0), ok, "")).unwrap().contains_key("K"));
}

#[test]
fn ports_are_read() {
    let m = Manager::new("wg0");
    assert_eq!(m.port_query().line(), "wg show wg0 listen-port");
    assert_eq!(m.listen_port(&output(true, Some(0), " 51820\n", "")).unwrap(), 51820);
    let e = m.listen_port(&output(true, Some(0), "65536", "")).unwrap_err();
    assert!(matches!(e, WgError::InvalidValue(_)));
    assert_eq!(e.message(), "invalid value: number too large to fit in target type");
    let e = m.listen_port(&output(true, Some(0), "", "")).unwrap_err();
    assert_eq!(e.message(), "invalid value: cannot parse integer from empty string");
    let e = m.listen_port(&output(false, Some(3), "", "x")).unwrap_err();
    assert_eq!(e.message(), "wg show wg0 listen-port: exit 3: x");
    assert_eq!(WgError::Io("x".into()).message(), "io: x");
    assert_eq!(WgError::ParseShow("x".into()).message(), "parse `wg show` output: x");
}

#[test]
fn root_is_user_zero() {
    assert!(is_root(Some("0\n")));
    assert!(!is_root(Some("1000\n")));
    assert!(!is_root(None));
}
