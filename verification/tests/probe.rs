use wgmesh::api::{Peer, Relay};
use wgmesh::clock::{Duration, Timestamp};
use wgmesh::probe::{grow, unix_to_systemtime, ProbeManager, ProbeState, Ratio, Tunables};
use wgmesh::strmap::StrMap;
use wgmesh::wglink::{PeerInfo, PeerSpec};

fn fake_relay() -> Relay {
    Relay {
        wg_public_key: "RELAY-PUB".into(),
        endpoint: "203.0.113.1:51820".into(),
        mesh_ip: "10.42.0.1".into(),
        mesh_cidr: "10.42.0.0/16".into(),
    }
}

fn peer(pub_b64: &str) -> Peer {
    Peer {
        hostname: "n".into(),
        wg_public_key: pub_b64.into(),
        mesh_ip: "10.42.0.5".into(),
        endpoints: vec!["1.2.3.4:51820".into()],
        listen_port: 51820,
        last_seen: Timestamp::from_unix(0),
    }
}

fn unix(secs: i64) -> Timestamp {
    Timestamp::from_unix(secs)
}

fn no_handshakes() -> StrMap<PeerInfo> {
    StrMap::new()
}

fn shook(pub_b64: &str, at: i64) -> StrMap<PeerInfo> {
    let mut hs = StrMap::new();
    hs.insert(
        pub_b64.to_string(),
        PeerInfo {
            pub_key_b64: pub_b64.into(),
            last_handshake_unix: at,
            ..Default::default()
        },
    );
    hs
}

fn find<'a>(specs: &'a [PeerSpec], pub_b64: &str) -> Option<&'a PeerSpec> {
    specs.iter().find(|s| s.pub_key_b64 == pub_b64)
}

#[test]
fn new_peer_starts_probing_with_empty_allowed_ips() {
    let mut pm = ProbeManager::new();
    let (specs, sum) = pm.reconcile(
        &[peer("A")],
        Some(&fake_relay()),
        &no_handshakes(),
        unix(1_000_000),
    );
    assert_eq!(sum.probing, 1);
    assert_eq!(sum.direct, 0);
    assert_eq!(sum.relayed, 0);
    let s = find(&specs, "A").expect("peer absent from specs while PROBING");
    assert!(
        s.allowed_ips.is_empty(),
        "PROBING peer must have empty AllowedIPs, got {:?}",
        s.allowed_ips
    );
    assert!(s.endpoint.is_some());
}

#[test]
fn probing_promoted_to_direct_on_handshake() {
    let mut pm = ProbeManager::new();
    let t0 = unix(1_000_000);
    pm.reconcile(&[peer("A")], Some(&fake_relay()), &no_handshakes(), t0);

    let hs = shook("A", 1_000_008);
    let t1 = unix(1_000_010);
    let (specs, sum) = pm.reconcile(&[peer("A")], Some(&fake_relay()), &hs, t1);
    assert_eq!(sum.direct, 1);
    assert_eq!(sum.probing, 0);
    let s = find(&specs, "A").expect("DIRECT peer missing from specs");
    assert_eq!(s.allowed_ips, vec!["10.42.0.5/32".to_string()]);
}

fn twice(d: Duration) -> Duration {
    Duration { nanos: 2 * d.nanos }
}

#[test]
fn probing_demoted_to_relay_on_timeout() {
    let mut pm = ProbeManager::new();
    let t0 = unix(1_000_000);
    pm.reconcile(&[peer("A")], Some(&fake_relay()), &no_handshakes(), t0);
    let t1 = t0.plus(twice(pm.tunables.probe_window));
    let (specs, sum) = pm.reconcile(&[peer("A")], Some(&fake_relay()), &no_handshakes(), t1);
    assert_eq!(sum.relayed, 1);
    assert_eq!(sum.probing, 0);
    assert!(find(&specs, "A").is_none(), "RELAY peer must NOT be in wg0 specs");
    assert!(sum.has_relay);
}

#[test]
fn relay_returns_to_probing_with_grown_backoff() {
    let mut pm = ProbeManager::new();
    let t0 = unix(1_000_000);
    pm.reconcile(&[peer("A")], Some(&fake_relay()), &no_handshakes(), t0);
    let t1 = t0.plus(twice(pm.tunables.probe_window));
    pm.reconcile(&[peer("A")], Some(&fake_relay()), &no_handshakes(), t1);
    assert_eq!(pm.entry_state("A"), Some(ProbeState::Relay));
    let first_backoff = pm.entry_backoff("A").unwrap();

    let retry_at = pm.entry_next_retry("A").unwrap();
    let t2 = retry_at.plus(Duration::from_secs(1));
    pm.reconcile(&[peer("A")], Some(&fake_relay()), &no_handshakes(), t2);
    assert_eq!(pm.entry_state("A"), Some(ProbeState::Probing));
    let new_backoff = pm.entry_backoff("A").unwrap();
    assert!(
        new_backoff > first_backoff,
        "backoff should have grown from {first_backoff:?}, got {new_backoff:?}"
    );
    assert_eq!(first_backoff, Duration::from_secs(300));
    assert_eq!(new_backoff, Duration::from_secs(600));
    assert_eq!(retry_at, unix(1_000_000 + 120 + 300));
}

#[test]
fn direct_demoted_to_relay_when_handshake_stale() {
    let mut pm = ProbeManager::new();
    let t0 = unix(1_000_000);
    pm.reconcile(&[peer("A")], Some(&fake_relay()), &no_handshakes(), t0);
    let hs = shook("A", 1_000_001);
    pm.reconcile(
        &[peer("A")],
        Some(&fake_relay()),
        &hs,
        t0.plus(Duration::from_secs(2)),
    );
    assert_eq!(pm.entry_state("A"), Some(ProbeState::Direct));

    let t1 = t0
        .plus(pm.tunables.direct_stale_after)
        .plus(Duration::from_secs(60));
    let (specs, sum) = pm.reconcile(&[peer("A")], Some(&fake_relay()), &hs, t1);
    assert_eq!(sum.relayed, 1);
    assert!(find(&specs, "A").is_none(), "demoted peer must not be in wg0");
}

#[test]
fn vanished_peer_is_dropped() {
    let mut pm = ProbeManager::new();
    let t0 = unix(1_000_000);
    pm.reconcile(&[peer("A")], Some(&fake_relay()), &no_handshakes(), t0);
    assert!(pm.has_entry("A"));
    pm.reconcile(
        &[],
        Some(&fake_relay()),
        &no_handshakes(),
        t0.plus(Duration::from_secs(1)),
    );
    assert!(!pm.has_entry("A"));
}

#[test]
fn relay_always_speced_with_mesh_cidr() {
    let mut pm = ProbeManager::new();
    let (specs, sum) = pm.reconcile(&[], Some(&fake_relay()), &no_handshakes(), unix(1_000_000));
    assert!(sum.has_relay);
    assert_eq!(specs.len(), 1, "expected 1 spec (relay), got {}", specs.len());
    assert_eq!(specs[0].allowed_ips, vec!["10.42.0.0/16".to_string()]);
}

#[test]
fn state_names() {
    assert_eq!(ProbeState::Unknown.as_str(), "UNKNOWN");
    assert_eq!(ProbeState::Probing.as_str(), "PROBING");
    assert_eq!(ProbeState::Direct.as_str(), "DIRECT");
    assert_eq!(ProbeState::Relay.as_str(), "RELAY");
}

#[test]
fn relay_without_key_or_block_is_left_out() {
    let mut pm = ProbeManager::new();
    let mut r = fake_relay();
    r.mesh_cidr = String::new();
    let (specs, sum) = pm.reconcile(&[], Some(&r), &no_handshakes(), unix(1_000_000));
    assert!(!sum.has_relay);
    assert!(specs.is_empty());
    let mut r = fake_relay();
    r.endpoint = String::new();
    let (specs, _) = pm.reconcile(&[], Some(&r), &no_handshakes(), unix(1_000_000));
    assert_eq!(specs[0].endpoint, None);
    assert_eq!(specs[0].keepalive_secs, Some(25));
}

#[test]
fn peers_come_in_key_order_after_the_relay() {
    let mut pm = ProbeManager::new();
    let (specs, sum) = pm.reconcile(
        &[peer("C"), peer("A"), peer("B")],
        Some(&fake_relay()),
        &no_handshakes(),
        unix(1_000_000),
    );
    let keys: Vec<&str> = specs.iter().map(|s| s.pub_key_b64.as_str()).collect();
    assert_eq!(keys, vec!["RELAY-PUB", "A", "B", "C"]);
    assert_eq!(sum.probing, 3);
}

#[test]
fn peers_without_key_or_address_do_not_count() {
    let mut pm = ProbeManager::new();
    let mut a = peer("A");
    a.mesh_ip = String::new();
    let (specs, sum) = pm.reconcile(&[peer(""), a], None, &no_handshakes(), unix(1_000_000));
    assert!(specs.is_empty());
    assert_eq!(sum.probing, 0);
    assert!(!pm.has_entry("A"));
}

#[test]
fn probing_without_endpoint_is_counted_and_not_installed() {
    let mut pm = ProbeManager::new();
    let mut a = peer("A");
    a.endpoints = vec![];
    let (specs, sum) = pm.reconcile(&[a], None, &no_handshakes(), unix(1_000_000));
    assert_eq!(sum.probing, 1);
    assert!(specs.is_empty());
}

#[test]
fn last_of_two_listings_counts() {
    let mut pm = ProbeManager::new();
    let mut b = peer("A");
    b.endpoints = vec!["9.9.9.9:1".into()];
    let (specs, _) = pm.reconcile(&[peer("A"), b], None, &no_handshakes(), unix(1_000_000));
    assert_eq!(specs.len(), 1);
    assert_eq!(specs[0].endpoint.as_deref(), Some("9.9.9.9:1"));
}

#[test]
fn old_handshake_does_not_promote() {
    let mut pm = ProbeManager::new();
    let hs = shook("A", 1_000_000 - 60);
    let (_, sum) = pm.reconcile(&[peer("A")], None, &hs, unix(1_000_000));
    assert_eq!(sum.probing, 1);
    let hs = shook("A", 1_000_000 - 59);
    let (_, sum) = pm.reconcile(&[peer("A")], None, &hs, unix(1_000_000));
    assert_eq!(sum.direct, 1);
}

#[test]
fn handshake_from_the_future_does_not_promote() {
    let mut pm = ProbeManager::new();
    let hs = shook("A", 1_000_001);
    let (_, sum) = pm.reconcile(&[peer("A")], None, &hs, unix(1_000_000));
    assert_eq!(sum.probing, 1);
}

#[test]
fn backoff_doubles_up_to_the_cap() {
    let t = Tunables::default();
    assert_eq!(grow(Duration::from_secs(300), &t), Duration::from_secs(600));
    assert_eq!(grow(Duration::from_secs(600), &t), Duration::from_secs(1200));
    assert_eq!(grow(Duration::from_secs(1200), &t), Duration::from_secs(1800));
    assert_eq!(grow(Duration::from_secs(1800), &t), Duration::from_secs(1800));
    let mut u = Tunables::default();
    u.backoff_multiplier = Ratio { numer: 3, denom: 2 };
    assert_eq!(grow(Duration::from_secs(300), &u), Duration::from_secs(450));
}

#[test]
fn backoff_starts_over_after_a_promotion() {
    let mut pm = ProbeManager::new();
    let t0 = unix(1_000_000);
    pm.reconcile(&[peer("A")], None, &no_handshakes(), t0);
    pm.reconcile(&[peer("A")], None, &no_handshakes(), unix(1_000_100));
    pm.reconcile(&[peer("A")], None, &no_handshakes(), unix(1_000_401));
    assert_eq!(pm.entry_backoff("A"), Some(Duration::from_secs(600)));
    pm.reconcile(&[peer("A")], None, &shook("A", 1_000_402), unix(1_000_403));
    assert_eq!(pm.entry_state("A"), Some(ProbeState::Direct));
    assert_eq!(pm.entry_backoff("A"), Some(Duration::from_secs(300)));
}

#[test]
fn unix_times() {
    assert_eq!(unix_to_systemtime(0), None);
    assert_eq!(unix_to_systemtime(-5), None);
    assert_eq!(unix_to_systemtime(7), Some(Timestamp { nanos: 7_000_000_000 }));
    assert_eq!(Timestamp { nanos: 1_999_999_999 }.unix(), 1);
    assert_eq!(Timestamp { nanos: -1 }.unix(), -1);
    assert_eq!(Timestamp { nanos: -1_000_000_000 }.unix(), -1);
    assert_eq!(Timestamp { nanos: -1_000_000_001 }.unix(), -2);
}

#[test]
fn a_silent_peer_loses_its_route() {
    let mut pm = ProbeManager::new();
    let hs = shook("A", 1_000_000);
    pm.reconcile(&[peer("A")], None, &hs, unix(1_000_001));
    assert_eq!(pm.entry_state("A"), Some(ProbeState::Direct));
    let (specs, _) = pm.reconcile(&[peer("A")], None, &hs, unix(1_000_300));
    assert_eq!(specs[0].allowed_ips, vec!["10.42.0.5/32".to_string()]);
    // An older handshake than the last one seen changes nothing.
    let (specs, _) = pm.reconcile(&[peer("A")], None, &shook("A", 5), unix(1_000_300));
    assert_eq!(specs.len(), 1);
    let (specs, _) = pm.reconcile(&[peer("A")], None, &hs, unix(1_000_301));
    assert!(specs.is_empty());
    assert_eq!(pm.entry_state("A"), Some(ProbeState::Relay));
}
