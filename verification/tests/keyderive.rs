use base64::engine::general_purpose::STANDARD as B64;
use base64::Engine;
use wgmesh::crypto::{SshPrivateKey, SshPublicKey};
use wgmesh::keyderive::{
    derive_wg_from_seed, identity_from_pem, identity_from_ssh_file, identity_of_parsed,
    secret_of_digest, wg_from_ssh_file, wg_pub_from_authorized_line, wg_pub_of_parsed, Identity,
    KeyDeriveError,
};
use wgmesh::sig::{sign, verify, SigningKey};

fn pem(seed: &[u8; 32]) -> Vec<u8> {
    let pair = ssh_key::private::Ed25519Keypair::from_seed(seed);
    let key = ssh_key::PrivateKey::new(ssh_key::private::KeypairData::from(pair), "me@host").unwrap();
    key.to_openssh(ssh_key::LineEnding::LF).unwrap().as_bytes().to_vec()
}

fn identity(seed: &[u8; 32]) -> Identity {
    match identity_from_pem(&pem(seed)) {
        Ok(id) => id,
        Err(e) => panic!("{}", e.message()),
    }
}

fn fault(r: Result<Identity, KeyDeriveError>) -> KeyDeriveError {
    match r {
        Ok(_) => panic!("expected an error"),
        Err(e) => e,
    }
}

#[test]
fn clamp_invariants_hold_for_arbitrary_seed() {
    let seed = [0u8; 32];
    let k = derive_wg_from_seed(&seed);
    assert_eq!(k.priv_key[0] & 0b0000_0111, 0, "low 3 bits must be 0");
    assert_eq!(k.priv_key[31] & 0b1000_0000, 0, "high bit must be 0");
    assert_eq!(k.priv_key[31] & 0b0100_0000, 0x40, "bit 254 must be 1");
}

#[test]
fn known_vector_matches_go_output() {
    let seed = [1u8; 32];
    let k = derive_wg_from_seed(&seed);
    // Re-deriving identically twice must produce the same key.
    let k2 = derive_wg_from_seed(&seed);
    assert_eq!(k.priv_key, k2.priv_key);
    assert_eq!(k.pub_key, k2.pub_key);
    // Pub != priv in any reasonable curve-25519 derivation.
    assert_ne!(k.priv_key, k.pub_key);
    // Pub != zero.
    assert_ne!(k.pub_key, [0u8; 32]);
}

#[test]
fn identity_round_trip_through_signing_key() {
    let seed = [42u8; 32];
    let signing = SigningKey::from_bytes(&seed);
    let verifying = signing.verifying_key();
    // Re-derive WG from the same seed, should be deterministic.
    let wg = derive_wg_from_seed(&seed);
    assert_eq!(wg.pub_key.len(), 32);
    assert_eq!(verifying.len(), 32);
}

#[test]
fn an_identity_holds_what_its_key_gives() {
    let seed = [42u8; 32];
    let id = identity(&seed);
    let wg = derive_wg_from_seed(&seed);
    assert_eq!(id.wg_priv, wg.priv_key);
    assert_eq!(id.wg_pub, wg.pub_key);
    assert_eq!(id.ed_signing.to_bytes(), seed);
    assert!(id.ssh_pub_line.starts_with("ssh-ed25519 AAAA"));
    assert!(id.ssh_pub_line.ends_with(" me@host"));
}

#[test]
fn an_identity_signs_for_itself() {
    let id = identity(&[5u8; 32]);
    let sig = sign(100, "GET", "/peers", b"", &id.ed_signing);
    let v = verify("100", &id.ssh_pub_line, &sig, "GET", "/peers", b"", 130, |_: &str| true).unwrap();
    assert_eq!(v.ed_pub_raw_b64, B64.encode(id.ed_signing.verifying_key()));
}

#[test]
fn the_public_line_gives_the_same_wireguard_key() {
    for b in [0u8, 1, 7, 42, 255] {
        let id = identity(&[b; 32]);
        assert_eq!(wg_pub_from_authorized_line(&id.ssh_pub_line).unwrap(), id.wg_pub);
    }
}

#[test]
fn a_public_key_goes_with_its_secret() {
    let k = derive_wg_from_seed(&[3u8; 32]);
    let secret = x25519_dalek::StaticSecret::from(k.priv_key);
    assert_eq!(x25519_dalek::PublicKey::from(&secret).to_bytes(), k.pub_key);
}

#[test]
fn digests_are_halved_and_clamped() {
    let mut h = [0xffu8; 64];
    let k = secret_of_digest(&h);
    assert_eq!(k[0], 0xf8);
    assert_eq!(k[1..31], [0xff; 30]);
    assert_eq!(k[31], 0x7f);
    h[31] = 0;
    assert_eq!(secret_of_digest(&h)[31], 0x40);
}

#[test]
fn files_that_cannot_be_read_are_named() {
    let e = fault(identity_from_ssh_file("/k", Err("gone".into())));
    assert!(matches!(e, KeyDeriveError::Io { .. }));
    assert_eq!(e.message(), "read /k: gone");
    let k = match wg_from_ssh_file("/k", Ok(pem(&[8u8; 32]))) {
        Ok(k) => k,
        Err(e) => panic!("{}", e.message()),
    };
    assert_eq!(k.pub_key, derive_wg_from_seed(&[8u8; 32]).pub_key);
    assert_eq!(k.priv_key, derive_wg_from_seed(&[8u8; 32]).priv_key);
    assert!(wg_from_ssh_file("/k", Err("gone".into())).is_err());
}

#[test]
fn keys_that_make_no_sense_are_refused() {
    let e = fault(identity_from_pem(b"nonsense"));
    assert!(matches!(e, KeyDeriveError::Parse(_)));
    assert!(e.message().starts_with("parse private key: "));
}

fn parsed(encrypted: bool, algorithm: &str, seed: Option<[u8; 32]>) -> SshPrivateKey {
    SshPrivateKey {
        encrypted,
        algorithm: algorithm.into(),
        seed,
        public_line: Ok("line".into()),
    }
}

#[test]
fn other_keys_are_refused_in_order() {
    let e = fault(identity_of_parsed(Ok(parsed(true, "ssh-rsa", None))));
    assert!(matches!(e, KeyDeriveError::Encrypted));
    assert_eq!(
        e.message(),
        "encrypted SSH keys are not supported (decrypt with `ssh-keygen -p` first)"
    );
    let e = fault(identity_of_parsed(Ok(parsed(false, "ssh-rsa", None))));
    assert_eq!(e.message(), "expected ed25519 key, got ssh-rsa");
    let e = fault(identity_of_parsed(Ok(parsed(false, "ssh-ed25519", None))));
    assert_eq!(e.message(), "expected ed25519 key, got missing");
    let mut k = parsed(false, "ssh-ed25519", Some([1; 32]));
    k.public_line = Err("why".into());
    assert_eq!(fault(identity_of_parsed(Ok(k))).message(), "parse private key: why");
    assert!(identity_of_parsed(Ok(parsed(false, "ssh-ed25519", Some([1; 32])))).is_ok());
}

#[test]
fn lines_without_a_usable_key_are_refused() {
    let e = wg_pub_from_authorized_line("nonsense").unwrap_err();
    assert!(matches!(e, KeyDeriveError::Parse(_)));
    let rsa = SshPublicKey {
        algorithm: "ssh-rsa".into(),
        ed25519: None,
    };
    let e = wg_pub_of_parsed(Ok(rsa)).unwrap_err();
    assert_eq!(e.message(), "expected ed25519 key, got ssh-rsa");
    let mut bytes = [0u8; 32];
    bytes[0] = 2;
    let off_curve = SshPublicKey {
        algorithm: "ssh-ed25519".into(),
        ed25519: Some(bytes),
    };
    let e = wg_pub_of_parsed(Ok(off_curve)).unwrap_err();
    assert_eq!(e.message(), "expected ed25519 key, got invalid point");
}

#[test]
fn the_zero_seed_gives_known_keys() {
    let k = derive_wg_from_seed(&[0u8; 32]);
    assert_eq!(k.pub_b64(), "W/Vcc7guviK+gPNDBmevVw+uJVamQV5rMNQGUwCqlH0=");
    assert_eq!(k.priv_b64(), "UEatwduoOIZ7K7v90MNCPli1eXC1JnqQ9XlgkkqH8VY=");
    assert_eq!(identity(&[0u8; 32]).wg_pub_b64(), k.pub_b64());
    assert_eq!(
        k.priv_key[..4],
        [0x50, 0x46, 0xad, 0xc1],
    );
    assert_eq!(k.priv_key[28..], [0x4a, 0x87, 0xf1, 0x56]);
    let public = SigningKey::from_bytes(&[0u8; 32]).verifying_key();
    assert_eq!(public[..4], [0x3b, 0x6a, 0x27, 0xbc]);
    assert_eq!(public[28..], [0x8b, 0x59, 0xda, 0x29]);
}

#[test]
fn clamping_twice_is_clamping_once() {
    let k = derive_wg_from_seed(&[9u8; 32]).priv_key;
    let mut h = [0u8; 64];
    h[..32].copy_from_slice(&k);
    assert_eq!(secret_of_digest(&h), k);
}
