use wgmesh::api::RegisterRequest;
use wgmesh::clock::{Duration, Timestamp};
use wgmesh::net::Ipv4Addr;
use wgmesh::store::{is_blank, Node, StateFile, Store, StoreError};
use wgmesh::strmap::StrMap;

fn req() -> RegisterRequest {
    RegisterRequest {
        hostname: "h".into(),
        ssh_public_key: "ignored".into(),
        wg_public_key: "Wpub".into(),
        endpoints: vec!["1.2.3.4:51820".into()],
        listen_port: 51820,
    }
}

fn now() -> Timestamp {
    Timestamp::from_unix(1_700_000_000)
}

fn open(reserved: &[&str]) -> Store {
    let reserved: Vec<String> = reserved.iter().map(|s| s.to_string()).collect();
    Store::open(Ok(None), Ipv4Addr::new(10, 42, 0, 0), 16, &reserved).unwrap()
}

#[test]
fn allocates_stable_ip_across_reregister() {
    let mut s = open(&[]);
    let ip1 = s.upsert("eda", &req(), now()).unwrap();
    let ip2 = s.upsert("eda", &req(), now()).unwrap();
    assert_eq!(ip1, ip2);
    assert!(ip1.starts_with("10.42.0."));
}

#[test]
fn skips_reserved_ip() {
    let mut s = open(&["10.42.0.1"]);
    let ip = s.upsert("a", &req(), now()).unwrap();
    assert_ne!(ip, "10.42.0.1");
    assert_eq!(ip, "10.42.0.2");
}

#[test]
fn mesh_ip_cidr_includes_prefix() {
    let mut s = open(&[]);
    s.upsert("a", &req(), now()).unwrap();
    let cidr = s.mesh_ip_cidr("a").unwrap();
    assert!(cidr.ends_with("/16"));
}

#[test]
fn peers_excludes_self() {
    let mut s = open(&[]);
    s.upsert("a", &req(), now()).unwrap();
    s.upsert("b", &req(), now()).unwrap();
    let p = s.peers("a", Duration::from_secs(600), now());
    assert_eq!(p.len(), 1);
}

#[test]
fn state_persists_across_reopens() {
    let mut s1 = open(&[]);
    s1.upsert("a", &req(), now()).unwrap();
    let s2 = Store::open(Ok(Some(s1.state)), Ipv4Addr::new(10, 42, 0, 0), 16, &vec![]).unwrap();
    assert!(s2.mesh_ip_cidr("a").is_some());
}

#[test]
fn addresses_are_given_in_turn() {
    let mut s = open(&["10.42.0.3"]);
    assert_eq!(s.upsert("a", &req(), now()).unwrap(), "10.42.0.1");
    assert_eq!(s.upsert("b", &req(), now()).unwrap(), "10.42.0.2");
    assert_eq!(s.upsert("c", &req(), now()).unwrap(), "10.42.0.4");
    assert_eq!(s.upsert("a", &req(), now()).unwrap(), "10.42.0.1");
    assert_eq!(s.upsert("d", &req(), now()).unwrap(), "10.42.0.5");
    assert_eq!(s.mesh_ip_cidr("c").as_deref(), Some("10.42.0.4/16"));
    assert_eq!(s.mesh_ip_cidr("x"), None);
}

#[test]
fn a_full_mesh_gives_no_address() {
    let mut s = Store::open(Ok(None), Ipv4Addr::new(10, 0, 0, 0), 30, &vec![]).unwrap();
    assert_eq!(s.upsert("a", &req(), now()).unwrap(), "10.0.0.1");
    assert_eq!(s.upsert("b", &req(), now()).unwrap(), "10.0.0.2");
    let e = s.upsert("c", &req(), now()).unwrap_err();
    assert!(matches!(e, StoreError::Exhausted));
    assert_eq!(e.message(), "mesh CIDR exhausted");
    assert_eq!(s.upsert("b", &req(), now()).unwrap(), "10.0.0.2");
    assert_eq!(s.state.next_host_bits, 3);
    assert_eq!(StoreError::Io("x".into()).message(), "io: x");
    assert_eq!(StoreError::Parse("x".into()).message(), "parse state: x");
}

#[test]
fn reregistering_replaces_everything_but_the_address() {
    let mut s = open(&[]);
    let ip = s.upsert("a", &req(), now()).unwrap();
    let mut r = req();
    r.hostname = "other".into();
    r.wg_public_key = "W2".into();
    let later = Timestamp::from_unix(1_700_000_100);
    assert_eq!(s.upsert("a", &r, later).unwrap(), ip);
    let p = s.peers("", Duration::from_secs(600), later);
    assert_eq!(p[0].hostname, "other");
    assert_eq!(p[0].wg_public_key, "W2");
    assert_eq!(p[0].last_seen, later);
    assert_eq!(p[0].mesh_ip, ip);
}

#[test]
fn peers_that_were_not_seen_lately_are_left_out() {
    let mut s = open(&[]);
    s.upsert("a", &req(), now()).unwrap();
    s.upsert("b", &req(), Timestamp::from_unix(1_700_000_005)).unwrap();
    let ttl = Duration::from_secs(600);
    assert_eq!(s.peers("", ttl, Timestamp::from_unix(1_700_000_600)).len(), 2);
    let p = s.peers("", ttl, Timestamp::from_unix(1_700_000_601));
    assert_eq!(p.len(), 1);
    assert_eq!(p[0].mesh_ip, "10.42.0.2");
    let endless = Duration::from_secs(u64::MAX);
    assert_eq!(s.peers("", endless, Timestamp::from_unix(1_700_000_003)).len(), 2);
}

#[test]
fn peers_are_sorted_by_address_as_text() {
    let mut s = open(&[]);
    for i in 0..12 {
        s.upsert(&format!("k{i}"), &req(), now()).unwrap();
    }
    let ips: Vec<String> = s
        .peers("", Duration::from_secs(600), now())
        .into_iter()
        .map(|p| p.mesh_ip)
        .collect();
    let mut sorted = ips.clone();
    sorted.sort();
    assert_eq!(ips, sorted);
    assert_eq!(ips[1], "10.42.0.10");
    assert_eq!(ips.len(), 12);
}

#[test]
fn a_search_never_starts_at_the_first_address() {
    let f = StateFile {
        next_host_bits: 0,
        nodes: StrMap::new(),
    };
    let s = Store::open(Ok(Some(f)), Ipv4Addr::new(10, 42, 0, 0), 16, &vec![]).unwrap();
    assert_eq!(s.state.next_host_bits, 1);
    let r = Store::open(
        Err(StoreError::Io("x".into())),
        Ipv4Addr::new(10, 42, 0, 0),
        16,
        &vec![],
    );
    assert!(matches!(r, Err(StoreError::Io(_))));
}

#[test]
fn a_node_without_an_address_has_no_block() {
    let mut nodes = StrMap::new();
    nodes.insert(
        "a".to_string(),
        Node {
            ed_pub: "a".into(),
            hostname: "h".into(),
            wg_pubkey: "w".into(),
            mesh_ip: "".into(),
            endpoints: vec![],
            listen_port: 0,
            last_seen: now(),
        },
    );
    let f = StateFile {
        next_host_bits: 5,
        nodes,
    };
    let s = Store::open(Ok(Some(f)), Ipv4Addr::new(10, 42, 0, 0), 16, &vec![]).unwrap();
    assert_eq!(s.mesh_ip_cidr("a"), None);
}

#[test]
fn blank_files_hold_nothing() {
    assert!(is_blank(b""));
    assert!(is_blank(b" \t\r\n\x0c"));
    assert!(!is_blank(b" {}"));
    assert!(!is_blank(b"\x0b"));
}

#[test]
fn maps_keep_their_keys_in_order() {
    let mut m: StrMap<u8> = StrMap::new();
    m.insert("b".into(), 1);
    m.insert("a".into(), 2);
    m.insert("b".into(), 3);
    assert_eq!(m.len(), 2);
    assert_eq!(m.key_at(0), "a");
    assert_eq!(*m.val_at(1), 3);
    assert_eq!(m.get("a"), Some(&2));
    assert_eq!(m.get("c"), None);
    m.set_val(0, 9);
    assert_eq!(m.get("a"), Some(&9));
    assert!(m.contains_key("b"));
}

#[test]
fn any_node_is_within_the_longest_span() {
    let mut s = open(&[]);
    s.upsert("a", &req(), now()).unwrap();
    let longest = Duration {
        nanos: u128::from(u64::MAX) * 1_000_000_000 + 999_999_999,
    };
    let p = s.peers("", longest, Timestamp::from_unix(1_700_000_001));
    assert_eq!(p.len(), 1);
    assert_eq!(p[0].mesh_ip, "10.42.0.1");
}

#[test]
fn an_empty_key_is_told_of_all() {
    let mut s = open(&[]);
    s.upsert("", &req(), now()).unwrap();
    s.upsert("a", &req(), now()).unwrap();
    assert_eq!(s.peers("", Duration::from_secs(600), now()).len(), 2);
    assert_eq!(s.peers("a", Duration::from_secs(600), now()).len(), 1);
}

#[test]
fn the_last_addresses_are_given_as_far_as_they_go() {
    let mut s = Store::open(Ok(None), Ipv4Addr::new(255, 255, 255, 253), 16, &vec![]).unwrap();
    assert_eq!(s.upsert("a", &req(), now()).unwrap(), "255.255.255.254");
    assert_eq!(s.upsert("b", &req(), now()).unwrap(), "255.255.255.255");
}
