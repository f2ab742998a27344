use wgmesh::clock::Duration;
use wgmesh::config::{from_raw, ipv4_in_cidr, load, parse_ipv4_cidr, Config, ConfigError, Raw};
use wgmesh::net::Ipv4Addr;

fn raw() -> Raw {
    Raw {
        listen_addr: None,
        tls_cert: None,
        tls_key: None,
        mesh_cidr: Some("10.42.0.0/16".into()),
        state_path: Some("/tmp/s".into()),
        authorized_signers: Some("/tmp/a".into()),
        peer_ttl_seconds: None,
        relay_enabled: None,
        relay_ssh_key: None,
        relay_interface: None,
        relay_listen_port: None,
        relay_endpoint: None,
        relay_mesh_ip: None,
    }
}

fn relayed() -> Raw {
    let mut r = raw();
    r.relay_endpoint = Some("x:1".into());
    r
}

#[test]
fn parse_cidr_masks_correctly() {
    let (net, bits) = parse_ipv4_cidr("10.42.5.7/16").unwrap();
    assert_eq!(net, Ipv4Addr::new(10, 42, 0, 0));
    assert_eq!(bits, 16);
}

#[test]
fn relay_default_true_when_absent() {
    let cfg = from_raw(relayed()).unwrap();
    assert!(cfg.relay_enabled);
}

#[test]
fn relay_false_when_explicit() {
    let mut r = raw();
    r.relay_enabled = Some(false);
    let cfg = from_raw(r).unwrap();
    assert!(!cfg.relay_enabled);
}

#[test]
fn relay_endpoint_required_when_enabled() {
    let r = from_raw(raw());
    assert!(matches!(r, Err(ConfigError::RelayMissingEndpoint)));
}

#[test]
fn default_relay_mesh_ip_is_first_usable() {
    let cfg = from_raw(relayed()).unwrap();
    assert_eq!(cfg.relay_mesh_ip, "10.42.0.1");
}

#[test]
fn listen_addr_shorthand_normalizes() {
    let mut r = raw();
    r.relay_enabled = Some(false);
    r.listen_addr = Some(":8443".into());
    let cfg = from_raw(r).unwrap();
    assert_eq!(cfg.listen_addr_normalized(), "0.0.0.0:8443");
}

#[test]
fn what_was_left_out_has_a_default() {
    let cfg = from_raw(relayed()).unwrap();
    assert_eq!(cfg.listen_addr, ":8443");
    assert_eq!(cfg.peer_ttl, Duration::from_secs(600));
    assert_eq!(cfg.relay_ssh_key, "/etc/ssh/ssh_host_ed25519_key");
    assert_eq!(cfg.relay_interface, "wg0");
    assert_eq!(cfg.relay_listen_port, 51820);
    assert_eq!(cfg.relay_endpoint, "x:1");
    assert_eq!(cfg.network_addr, Ipv4Addr::new(10, 42, 0, 0));
    assert_eq!(cfg.prefix_bits, 16);
    assert_eq!(cfg.tls_cert, None);
    assert_eq!(cfg.reserved(), vec!["10.42.0.1".to_string()]);
}

#[test]
fn what_was_written_stays() {
    let mut r = relayed();
    r.listen_addr = Some("[::]:1".into());
    r.tls_cert = Some("c".into());
    r.tls_key = Some("".into());
    r.peer_ttl_seconds = Some(30);
    r.relay_enabled = Some(false);
    r.relay_ssh_key = Some("k".into());
    r.relay_interface = Some("i".into());
    r.relay_listen_port = Some(7);
    r.relay_mesh_ip = Some("10.42.9.9".into());
    let cfg = from_raw(r).unwrap();
    assert_eq!(cfg.listen_addr_normalized(), "[::]:1");
    assert_eq!(cfg.tls_cert.as_deref(), Some("c"));
    assert_eq!(cfg.tls_key, None);
    assert_eq!(cfg.peer_ttl, Duration::from_secs(30));
    assert_eq!(cfg.relay_ssh_key, "k");
    assert_eq!(cfg.relay_interface, "i");
    assert_eq!(cfg.relay_listen_port, 7);
    assert_eq!(cfg.relay_mesh_ip, "10.42.9.9");
    assert!(cfg.reserved().is_empty());
}

#[test]
fn a_time_that_is_not_positive_counts_as_left_out() {
    let mut r = relayed();
    r.peer_ttl_seconds = Some(0);
    assert_eq!(from_raw(r).unwrap().peer_ttl, Duration::from_secs(600));
    let mut r = relayed();
    r.peer_ttl_seconds = Some(-3);
    assert_eq!(from_raw(r).unwrap().peer_ttl, Duration::from_secs(600));
}

fn fault(r: Result<Config, ConfigError>) -> String {
    r.unwrap_err().message()
}

#[test]
fn faults_come_in_order() {
    let mut r = raw();
    r.mesh_cidr = None;
    r.state_path = None;
    assert_eq!(fault(from_raw(r)), "mesh_cidr is required");
    let mut r = raw();
    r.state_path = None;
    r.authorized_signers = None;
    assert_eq!(fault(from_raw(r)), "state_path is required");
    let mut r = raw();
    r.authorized_signers = None;
    r.mesh_cidr = Some("x".into());
    assert_eq!(fault(from_raw(r)), "authorized_signers is required");
    let mut r = raw();
    r.mesh_cidr = Some("10.0.0.0/33".into());
    assert_eq!(fault(from_raw(r)), "mesh_cidr 10.0.0.0/33 is not a valid IPv4 CIDR");
    let mut r = raw();
    r.relay_mesh_ip = Some("10.43.0.1".into());
    assert_eq!(
        fault(from_raw(r)),
        "relay_mesh_ip 10.43.0.1 is not a valid IPv4 inside mesh_cidr"
    );
    let mut r = raw();
    r.relay_mesh_ip = Some("h".into());
    assert_eq!(fault(from_raw(r)), "relay_mesh_ip h is not a valid IPv4 inside mesh_cidr");
    assert_eq!(
        fault(from_raw(raw())),
        "relay_endpoint is required when relay_enabled (host:port reachable from agents)"
    );
    assert_eq!(fault(load(Err("gone".into()))), "read config: gone");
    assert_eq!(fault(load(Ok(Err("bad".into())))), "parse config: bad");
    assert!(load(Ok(Ok(relayed()))).is_ok());
}

#[test]
fn blocks_are_read() {
    assert_eq!(parse_ipv4_cidr("1.2.3.4/0"), Some((Ipv4Addr::new(0, 0, 0, 0), 0)));
    assert_eq!(parse_ipv4_cidr("1.2.3.4/32"), Some((Ipv4Addr::new(1, 2, 3, 4), 32)));
    assert_eq!(parse_ipv4_cidr("255.255.255.255/31"), Some((Ipv4Addr::new(255, 255, 255, 254), 31)));
    for s in ["", "1.2.3.4", "1.2.3/8", "1.2.3.4/33", "1.2.3.4/-1", "1.2.3.4/8/8", "01.2.3.4/8", "1.2.3.256/8", "1.2.3.4/"] {
        assert_eq!(parse_ipv4_cidr(s), None, "{s}");
    }
    assert!(ipv4_in_cidr(Ipv4Addr::new(10, 42, 255, 255), Ipv4Addr::new(10, 42, 0, 0), 16));
    assert!(!ipv4_in_cidr(Ipv4Addr::new(10, 43, 0, 0), Ipv4Addr::new(10, 42, 0, 0), 16));
    assert!(ipv4_in_cidr(Ipv4Addr::new(9, 9, 9, 9), Ipv4Addr::new(0, 0, 0, 0), 0));
}

#[test]
fn addresses_are_written_and_read() {
    let a = Ipv4Addr::new(203, 0, 113, 7);
    assert_eq!(a.text(), "203.0.113.7");
    assert_eq!(Ipv4Addr::parse("203.0.113.7"), Some(a));
    assert_eq!(a.octets(), [203, 0, 113, 7]);
}
