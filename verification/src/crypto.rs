//! The cryptographic primitives and key formats that outside crates supply.
//!
//! Each result that takes pages to define is a named function of its
//! arguments; beside the names stand the facts that callers rest on.

use vstd::prelude::*;
use base64::Engine;
use ed25519_dalek::Signer;
use ed25519_dalek::Verifier;
use rand::RngCore;
use sha2::Digest;
use crate::num;
use crate::text;

verus! {

/// The SHA-256 digest of `data`.
pub uninterp spec fn sha256(data: Seq<u8>) -> Seq<u8>;

/// The SHA-512 digest of `data`.
pub uninterp spec fn sha512(data: Seq<u8>) -> Seq<u8>;

/// Standard, padded base64 of `data`.
pub uninterp spec fn b64_text(data: Seq<u8>) -> Seq<char>;

/// What a standard, padded base64 text decodes to; `None` where it is malformed.
pub uninterp spec fn b64_bytes(text: Seq<char>) -> Option<Seq<u8>>;

/// The ed25519 public key of a 32-byte seed.
pub uninterp spec fn ed25519_public(seed: Seq<u8>) -> Seq<u8>;

/// The ed25519 signature of `msg` under a 32-byte seed.
pub uninterp spec fn ed25519_signature(seed: Seq<u8>, msg: Seq<u8>) -> Seq<u8>;

/// Is `sig` a signature of `msg` under the public key?
pub uninterp spec fn ed25519_valid(public: Seq<u8>, msg: Seq<u8>, sig: Seq<u8>) -> bool;

/// The X25519 form of an ed25519 public key; `None` where it is no curve point.
pub uninterp spec fn ed25519_montgomery(public: Seq<u8>) -> Option<Seq<u8>>;

/// The X25519 public key of a 32-byte secret.
pub uninterp spec fn x25519_public(secret: Seq<u8>) -> Seq<u8>;

/// What an OpenSSH public key line says: the algorithm's name and, for an
/// ed25519 key, its 32 bytes. Or the wording of the error.
pub uninterp spec fn ssh_public(line: Seq<char>) -> Result<
    (Seq<char>, Option<Seq<u8>>),
    Seq<char>,
>;

/// What an OpenSSH private key file says: whether it is encrypted, the
/// algorithm's name, for a readable ed25519 key its seed, and the public key
/// line or the wording of the error in encoding it. Or the wording of the error
/// in reading the file.
pub uninterp spec fn ssh_private(pem: Seq<u8>) -> Result<
    (bool, Seq<char>, Option<Seq<u8>>, Result<Seq<char>, Seq<char>>),
    Seq<char>,
>;

/// Two lower-case hexadecimal digits per byte.
pub open spec fn hex_text(data: Seq<u8>) -> Seq<char>
    decreases data.len(),
{
    if data.len() == 0 {
        Seq::empty()
    } else {
        hex_text(data.drop_last()) + num::hex2(data.last())
    }
}

/// The X25519 clamping of a 32-byte secret: the low three bits cleared, the
/// highest bit cleared, the one below it set.
pub open spec fn clamped(b: Seq<u8>) -> Seq<u8> {
    b.update(0, b[0] & 248).update(31, (b[31] & 127) | 64)
}

/// What an OpenSSH public key line says.
#[derive(Debug)]
pub struct SshPublicKey {
    /// The algorithm's name.
    pub algorithm: String,
    /// The raw key, where it is an ed25519 key.
    pub ed25519: Option<[u8; 32]>,
}

/// What an OpenSSH private key file says.
pub struct SshPrivateKey {
    /// Whether a passphrase protects the key.
    pub encrypted: bool,
    /// The algorithm's name.
    pub algorithm: String,
    /// The seed, where it is a readable ed25519 key.
    pub seed: Option<[u8; 32]>,
    /// The public key line, or the wording of the error in encoding it.
    pub public_line: Result<String, String>,
}

/// The bytes of an optional array.
pub open spec fn opt_bytes(v: Option<[u8; 32]>) -> Option<Seq<u8>> {
    match v {
        Some(a) => Some(a@),
        None => None,
    }
}

/// The bytes of an optional vector.
pub open spec fn opt_vec(v: Option<Vec<u8>>) -> Option<Seq<u8>> {
    match v {
        Some(a) => Some(a@),
        None => None,
    }
}

/// The view of a text or an error's wording.
pub open spec fn res_text(v: Result<String, String>) -> Result<Seq<char>, Seq<char>> {
    match v {
        Ok(s) => Ok(s@),
        Err(e) => Err(e@),
    }
}

impl View for SshPublicKey {
    type V = (Seq<char>, Option<Seq<u8>>);

    open spec fn view(&self) -> Self::V {
        (self.algorithm@, opt_bytes(self.ed25519))
    }
}

impl View for SshPrivateKey {
    type V = (bool, Seq<char>, Option<Seq<u8>>, Result<Seq<char>, Seq<char>>);

    open spec fn view(&self) -> Self::V {
        (self.encrypted, self.algorithm@, opt_bytes(self.seed), res_text(self.public_line))
    }
}

/// The view of a parsed public key line.
pub open spec fn public_view(v: Result<SshPublicKey, String>) -> Result<
    (Seq<char>, Option<Seq<u8>>),
    Seq<char>,
> {
    match v {
        Ok(k) => Ok(k@),
        Err(e) => Err(e@),
    }
}

/// The view of a parsed private key file.
pub open spec fn private_view(v: Result<SshPrivateKey, String>) -> Result<
    (bool, Seq<char>, Option<Seq<u8>>, Result<Seq<char>, Seq<char>>),
    Seq<char>,
> {
    match v {
        Ok(k) => Ok(k@),
        Err(e) => Err(e@),
    }
}

/// The public key line of a readable ed25519 key is a line, and names the
/// public key of its seed.
pub open spec fn names_own_key(v: Result<SshPrivateKey, String>) -> bool {
    v matches Ok(k) ==> k.seed matches Some(seed) ==> k.public_line matches Ok(line) ==> line@.len()
        > 0 && ssh_public(text::trimmed(line@)) == Ok::<(Seq<char>, Option<Seq<u8>>), Seq<char>>(
        ("ssh-ed25519"@, Some(ed25519_public(seed@))),
    )
}

/// `sha2::Sha256::digest`: the digest is a function of the data.
#[verifier::external_body]
pub(crate) fn sha256_digest(data: &[u8]) -> (r: [u8; 32])
    ensures
        r@ == sha256(data@),
{
    sha2::Sha256::digest(data).into()
}

/// `sha2::Sha512::digest`: the digest is a function of the data.
#[verifier::external_body]
pub(crate) fn sha512_digest(data: &[u8]) -> (r: [u8; 64])
    ensures
        r@ == sha512(data@),
{
    sha2::Sha512::digest(data).into()
}

/// `hex::encode`: two lower-case hexadecimal digits per byte. Lengths whose
/// encoding would not fit in memory are left out.
#[verifier::external_body]
pub(crate) fn hex_encode(data: &[u8]) -> (r: String)
    requires
        data@.len() <= usize::MAX / 4,
    ensures
        r@ == hex_text(data@),
{
    hex::encode(data)
}

/// `base64`'s `Engine::encode` with the `STANDARD` engine: four characters per
/// three bytes begun. Lengths whose encoding would not fit in memory are left out.
#[verifier::external_body]
pub(crate) fn b64_encode(data: &[u8]) -> (r: String)
    requires
        data@.len() <= usize::MAX / 4,
    ensures
        r@ == b64_text(data@),
        r@.len() == (data@.len() + 2) / 3 * 4,
{
    base64::engine::general_purpose::STANDARD.encode(data)
}

/// `base64`'s `Engine::decode` with the `STANDARD` engine: what was encoded
/// decodes to what it was.
#[verifier::external_body]
pub(crate) fn b64_decode(text: &str) -> (r: Option<Vec<u8>>)
    ensures
        opt_vec(r) == b64_bytes(text@),
        forall|d: Seq<u8>|
            d.len() <= usize::MAX / 4 && text@ == #[trigger] b64_text(d) ==> opt_vec(r) == Some(d),
{
    base64::engine::general_purpose::STANDARD.decode(text).ok()
}

/// `ed25519_dalek::SigningKey::verifying_key`, of the key of a seed.
#[verifier::external_body]
pub(crate) fn ed25519_public_key(seed: &[u8; 32]) -> (r: [u8; 32])
    ensures
        r@ == ed25519_public(seed@),
{
    ed25519_dalek::SigningKey::from_bytes(seed).verifying_key().to_bytes()
}

/// `ed25519_dalek`'s `Signer::sign`, with the key of a seed: the signature is a
/// function of the seed and the message.
#[verifier::external_body]
pub(crate) fn ed25519_sign(seed: &[u8; 32], msg: &[u8]) -> (r: [u8; 64])
    ensures
        r@ == ed25519_signature(seed@, msg@),
{
    ed25519_dalek::SigningKey::from_bytes(seed).sign(msg).to_bytes()
}

/// `ed25519_dalek`'s `Verifier::verify`, with the key that
/// `VerifyingKey::from_bytes` reads: false where those bytes are no key. A
/// signature that the seed of the key made is valid.
#[verifier::external_body]
pub(crate) fn ed25519_verify(public: &[u8; 32], msg: &[u8], sig: &[u8; 64]) -> (r: bool)
    ensures
        r == ed25519_valid(public@, msg@, sig@),
        forall|seed: Seq<u8>|
            #![trigger ed25519_signature(seed, msg@)]
            seed.len() == 32 && public@ == ed25519_public(seed) && sig@ == ed25519_signature(
                seed,
                msg@,
            ) ==> r,
{
    match ed25519_dalek::VerifyingKey::from_bytes(public) {
        Ok(key) => key.verify(msg, &ed25519_dalek::Signature::from_bytes(sig)).is_ok(),
        Err(_) => false,
    }
}

/// `ed25519_dalek::VerifyingKey::to_montgomery`, with the key that
/// `VerifyingKey::from_bytes` reads: the X25519 public key whose secret is the
/// first half of the SHA-512 digest of the seed, which X25519 clamps.
#[verifier::external_body]
pub(crate) fn ed25519_to_x25519(public: &[u8; 32]) -> (r: Option<[u8; 32]>)
    ensures
        opt_bytes(r) == ed25519_montgomery(public@),
        forall|seed: Seq<u8>|
            seed.len() == 32 && public@ == #[trigger] ed25519_public(seed) ==> opt_bytes(r) == Some(
                x25519_public(clamped(sha512(seed).take(32))),
            ),
{
    match ed25519_dalek::VerifyingKey::from_bytes(public) {
        Ok(key) => Some(key.to_montgomery().to_bytes()),
        Err(_) => None,
    }
}

/// `x25519_dalek::PublicKey::from`, of the static secret with these bytes.
#[verifier::external_body]
pub(crate) fn x25519_public_key(secret: &[u8; 32]) -> (r: [u8; 32])
    ensures
        r@ == x25519_public(secret@),
{
    x25519_dalek::PublicKey::from(&x25519_dalek::StaticSecret::from(*secret)).to_bytes()
}

/// `ssh_key::PublicKey::from_openssh`, and what the key it reads holds.
#[verifier::external_body]
pub(crate) fn read_ssh_public(line: &str) -> (r: Result<SshPublicKey, String>)
    ensures
        public_view(r) == ssh_public(line@),
{
    let key = ssh_key::PublicKey::from_openssh(line).map_err(|e| e.to_string())?;
    Ok(
        SshPublicKey {
            algorithm: key.algorithm().to_string(),
            ed25519: key.key_data().ed25519().map(|k| k.0),
        },
    )
}

/// `ssh_key::PrivateKey::from_openssh`, and what the key it reads holds: the
/// public key line of a readable ed25519 key is not empty, and
/// `ssh_key::PublicKey::from_openssh` reads the public key of its seed in it.
#[verifier::external_body]
pub(crate) fn read_ssh_private(pem: &[u8]) -> (r: Result<SshPrivateKey, String>)
    ensures
        private_view(r) == ssh_private(pem@),
        names_own_key(r),
{
    let key = ssh_key::PrivateKey::from_openssh(pem).map_err(|e| e.to_string())?;
    Ok(
        SshPrivateKey {
            encrypted: key.is_encrypted(),
            algorithm: key.algorithm().to_string(),
            seed: key.key_data().ed25519().map(|k| k.private.to_bytes()),
            public_line: key.public_key().to_openssh().map_err(|e| e.to_string()),
        },
    )
}

/// `rand`'s `RngCore::fill_bytes` on the thread's generator: any twelve bytes.
#[verifier::external_body]
pub(crate) fn random_12() -> (r: [u8; 12]) {
    let mut bytes = [0u8; 12];
    rand::thread_rng().fill_bytes(&mut bytes);
    bytes
}

} // verus!
