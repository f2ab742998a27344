use base64::engine::general_purpose::STANDARD as B64;
use base64::Engine;
use wgmesh::crypto::SshPublicKey;
use wgmesh::sig::{
    canonical, canonical_of_digest, check_signature, claim, ed_pub_b64_from_authorized_line,
    key_of_parsed, sign, verify, SigError, SigningKey, MAX_SKEW_SECS,
};

fn fixture() -> (SigningKey, String) {
    let sk = SigningKey::from_bytes(&[7u8; 32]);
    let ed_pub = ssh_key::public::Ed25519PublicKey(sk.verifying_key());
    let pk = ssh_key::PublicKey::new(ssh_key::public::KeyData::Ed25519(ed_pub), "test@unit");
    let pub_line = pk.to_openssh().unwrap();
    (sk, pub_line)
}

#[test]
fn canonical_is_stable() {
    let a = canonical(1700000000, "POST", "/register", b"{}");
    let b = canonical(1700000000, "POST", "/register", b"{}");
    assert_eq!(a, b);
}

#[test]
fn canonical_differs_on_body() {
    let a = canonical(1, "POST", "/r", b"a");
    let b = canonical(1, "POST", "/r", b"b");
    assert_ne!(a, b);
}

#[test]
fn sign_verify_roundtrip() {
    let (sk, pub_line) = fixture();
    let now: i64 = 1_700_000_000;
    let body = b"{\"hello\":1}";
    let sig_b64 = sign(now, "POST", "/register", body, &sk);

    let v = verify(
        &now.to_string(),
        &pub_line,
        &sig_b64,
        "POST",
        "/register",
        body,
        now,
        |_: &str| true,
    )
    .expect("verify ok");
    assert!(!v.ed_pub_raw_b64.is_empty());
}

#[test]
fn skew_rejected() {
    let (sk, pub_line) = fixture();
    let signed_at: i64 = 1_700_000_000;
    let server_now = signed_at + MAX_SKEW_SECS + 1;
    let sig_b64 = sign(signed_at, "GET", "/peers", b"", &sk);
    let r = verify(
        &signed_at.to_string(),
        &pub_line,
        &sig_b64,
        "GET",
        "/peers",
        b"",
        server_now,
        |_: &str| true,
    );
    assert!(matches!(r, Err(SigError::Skew(_, _))));
}

#[test]
fn unauthorized_rejected() {
    let (sk, pub_line) = fixture();
    let now: i64 = 1_700_000_000;
    let sig_b64 = sign(now, "GET", "/peers", b"", &sk);
    let r = verify(
        &now.to_string(),
        &pub_line,
        &sig_b64,
        "GET",
        "/peers",
        b"",
        now,
        |_: &str| false,
    );
    assert!(matches!(r, Err(SigError::NotAuthorized)));
}

#[test]
fn tamper_body_rejected() {
    let (sk, pub_line) = fixture();
    let now: i64 = 1_700_000_000;
    let sig_b64 = sign(now, "POST", "/register", b"original", &sk);
    let r = verify(
        &now.to_string(),
        &pub_line,
        &sig_b64,
        "POST",
        "/register",
        b"tampered",
        now,
        |_: &str| true,
    );
    assert!(matches!(r, Err(SigError::BadSig)));
}

#[test]
fn ed_pub_b64_extraction() {
    let (_, pub_line) = fixture();
    let raw = ed_pub_b64_from_authorized_line(&pub_line).unwrap();
    // Round-trip: base64 → 32 bytes.
    let bytes = B64.decode(raw).unwrap();
    assert_eq!(bytes.len(), 32);
    assert_eq!(bytes, fixture().0.verifying_key().to_vec());
}

#[test]
fn canonical_is_exact() {
    assert_eq!(
        canonical(-5, "GET", "/peers", b""),
        b"-5\nGET\n/peers\ne3b0c44298fc1c149afbf4c8996fb92427ae41e4649b934ca495991b7852b855".to_vec()
    );
    assert_eq!(
        canonical_of_digest(1, "A", "B", &[0x1f; 32]),
        format!("1\nA\nB\n{}", "1f".repeat(32)).into_bytes()
    );
}

#[test]
fn canonical_runs_together_only_across_lines() {
    assert_ne!(canonical(1, "AB", "C", b""), canonical(1, "A", "BC", b""));
    assert_eq!(canonical(1, "A\nB", "C", b""), canonical(1, "A", "B\nC", b""));
}

fn ask(ts: &str, line: &str, sig: &str, now: i64) -> Result<String, SigError> {
    verify(ts, line, sig, "GET", "/peers", b"", now, |_: &str| true).map(|v| v.ed_pub_raw_b64)
}

#[test]
fn each_refusal_has_its_reason() {
    let (sk, line) = fixture();
    let now: i64 = 1_700_000_000;
    let ts = now.to_string();
    let sig = sign(now, "GET", "/peers", b"", &sk);
    for (a, b, c) in [("", line.as_str(), sig.as_str()), (&ts, "", &sig), (&ts, &line, "")] {
        let e = ask(a, b, c, now).unwrap_err();
        assert!(matches!(e, SigError::MissingHeader));
        assert_eq!(e.message(), "missing signature header");
    }
    let e = ask("soon", &line, &sig, now).unwrap_err();
    assert_eq!(e.message(), "bad timestamp: soon");
    let e = ask(&ts, &line, &sig, now + 61).unwrap_err();
    assert_eq!(e.message(), "timestamp skew 61s exceeds 60s");
    let e = ask(&ts, &line, &sig, now - 61).unwrap_err();
    assert_eq!(e.message(), "timestamp skew -61s exceeds 60s");
    assert!(ask(&ts, &line, &sig, now + 60).is_ok());
    assert!(ask(&ts, &line, &sig, now - 60).is_ok());
    let e = ask("-9223372036854775808", &line, &sig, now).unwrap_err();
    assert!(matches!(e, SigError::Skew(_, 60)));
    let e = ask(&ts, "nonsense", &sig, now).unwrap_err();
    assert!(matches!(e, SigError::ParsePubkey(_)));
    assert!(e.message().starts_with("parse pubkey: "));
    let e = ask(&ts, &line, "!!", now).unwrap_err();
    assert!(matches!(e, SigError::BadSignatureEncoding));
    assert_eq!(e.message(), "bad signature encoding");
    let e = ask(&ts, &line, &B64.encode([0u8; 63]), now).unwrap_err();
    assert!(matches!(e, SigError::BadSig));
    assert_eq!(e.message(), "signature verification failed");
    assert_eq!(SigError::NotAuthorized.message(), "pubkey not authorized");
}

#[test]
fn the_key_is_asked_for_by_its_base64() {
    let (sk, line) = fixture();
    let now: i64 = 1_700_000_000;
    let sig = sign(now, "GET", "/peers", b"", &sk);
    let id = B64.encode(sk.verifying_key());
    let v = verify(
        &now.to_string(),
        &format!("  {line} \n"),
        &sig,
        "GET",
        "/peers",
        b"",
        now,
        |k: &str| k == id,
    )
    .unwrap();
    assert_eq!(v.ed_pub_raw_b64, id);
    assert_eq!(v.ssh_pub_line, format!("  {line} \n"));
}

#[test]
fn other_kinds_of_keys_are_unsupported() {
    let parsed = SshPublicKey {
        algorithm: "ssh-rsa".into(),
        ed25519: None,
    };
    let e = key_of_parsed(Ok(parsed)).unwrap_err();
    assert_eq!(e.message(), "unsupported key type ssh-rsa");
    let e = key_of_parsed(Err("why".into())).unwrap_err();
    assert_eq!(e.message(), "parse pubkey: why");
    let parsed = SshPublicKey {
        algorithm: "ssh-ed25519".into(),
        ed25519: Some([9; 32]),
    };
    assert_eq!(key_of_parsed(Ok(parsed)).unwrap(), [9; 32]);
    let e = ed_pub_b64_from_authorized_line(&rsa_line()).unwrap_err();
    assert_eq!(e.message(), "unsupported key type ssh-rsa");
}

fn rsa_line() -> String {
    let rsa = ssh_key::public::RsaPublicKey {
        e: ssh_key::Mpint::from_positive_bytes(&[1, 0, 1]).unwrap(),
        n: ssh_key::Mpint::from_positive_bytes(&[77u8; 256]).unwrap(),
    };
    ssh_key::PublicKey::new(ssh_key::public::KeyData::Rsa(rsa), "r").to_openssh().unwrap()
}

#[test]
fn claims_are_read_before_anything_is_looked_up() {
    let (sk, line) = fixture();
    let c = claim("1700000000", &line, "x", 1_700_000_003).unwrap();
    assert_eq!(c.timestamp, 1_700_000_000);
    assert_eq!(c.key, sk.verifying_key());
    assert_eq!(c.id, B64.encode(sk.verifying_key()));
}

#[test]
fn signatures_are_checked_against_the_message() {
    let (sk, _) = fixture();
    let sig = B64.decode(sign(1, "GET", "/x", b"", &sk)).unwrap();
    let msg = canonical(1, "GET", "/x", b"");
    let key = sk.verifying_key();
    assert!(check_signature(&key, &msg, Some(sig.clone())).is_ok());
    assert!(check_signature(&key, b"other", Some(sig.clone())).is_err());
    assert!(check_signature(&[2u8; 32], &msg, Some(sig)).is_err());
    assert!(matches!(
        check_signature(&key, &msg, None),
        Err(SigError::BadSignatureEncoding)
    ));
    assert_eq!(sk.to_bytes(), [7u8; 32]);
}
