//! WireGuard keys out of SSH ed25519 keys.
//!
//! Both kinds of key live on one curve: the WireGuard private key is the
//! clamped first half of the SHA-512 digest of the ed25519 seed, the public key
//! its multiple of the base point. This is libsodium's
//! `crypto_sign_ed25519_sk_to_curve25519`.

use vstd::prelude::*;
use vstd::string::*;
use crate::crypto;
use crate::crypto::{SshPrivateKey, SshPublicKey};
use crate::sig;
use crate::sig::SigningKey;
use crate::text;

verus! {

/// Why no key was derived.
#[derive(Debug)]
pub enum KeyDeriveError {
    /// The file could not be read.
    Io { path: String, source: String },
    /// The key makes no sense.
    Parse(String),
    /// The key is of another kind.
    NotEd25519(String),
    /// A passphrase protects the key.
    Encrypted,
}

/// Why no key was derived, as texts.
#[verifier::ext_equal]
pub enum KeyFault {
    Io { path: Seq<char>, source: Seq<char> },
    Parse(Seq<char>),
    NotEd25519(Seq<char>),
    Encrypted,
}

impl View for KeyDeriveError {
    type V = KeyFault;

    open spec fn view(&self) -> KeyFault {
        match *self {
            KeyDeriveError::Io { path, source } => KeyFault::Io { path: path@, source: source@ },
            KeyDeriveError::Parse(e) => KeyFault::Parse(e@),
            KeyDeriveError::NotEd25519(a) => KeyFault::NotEd25519(a@),
            KeyDeriveError::Encrypted => KeyFault::Encrypted,
        }
    }
}

impl KeyFault {
    /// The wording of the error.
    pub open spec fn wording(self) -> Seq<char> {
        match self {
            KeyFault::Io { path, source } => "read "@ + path + ": "@ + source,
            KeyFault::Parse(e) => "parse private key: "@ + e,
            KeyFault::NotEd25519(a) => "expected ed25519 key, got "@ + a,
            KeyFault::Encrypted =>
                "encrypted SSH keys are not supported (decrypt with `ssh-keygen -p` first)"@,
        }
    }
}

impl KeyDeriveError {
    /// The wording of the error.
    pub fn message(&self) -> (r: String)
        ensures
            r@ == self@.wording(),
    {
        match self {
            KeyDeriveError::Io { path, source } => "read ".to_owned().concat(
                path.as_str(),
            ).concat(": ").concat(source.as_str()),
            KeyDeriveError::Parse(e) => "parse private key: ".to_owned().concat(e.as_str()),
            KeyDeriveError::NotEd25519(a) => "expected ed25519 key, got ".to_owned().concat(
                a.as_str(),
            ),
            KeyDeriveError::Encrypted =>
                "encrypted SSH keys are not supported (decrypt with `ssh-keygen -p` first)".to_owned(),
        }
    }
}

/// All that an agent or a coordinator needs of one SSH host key.
pub struct Identity {
    /// The WireGuard private key, clamped.
    pub wg_priv: [u8; 32],
    /// The WireGuard public key.
    pub wg_pub: [u8; 32],
    /// The key that signs requests.
    pub ed_signing: SigningKey,
    /// The `ssh-ed25519 AAAA... comment` line of the public key.
    pub ssh_pub_line: String,
}

/// A WireGuard key pair.
pub struct WgKeys {
    pub priv_key: [u8; 32],
    pub pub_key: [u8; 32],
}

impl Identity {
    /// The WireGuard public key, in base64: what is announced.
    pub fn wg_pub_b64(&self) -> (r: String)
        ensures
            r@ == crypto::b64_text(self.wg_pub@),
    {
        crypto::b64_encode(&self.wg_pub)
    }
}

impl WgKeys {
    /// The private key, in base64.
    pub fn priv_b64(&self) -> (r: String)
        ensures
            r@ == crypto::b64_text(self.priv_key@),
    {
        crypto::b64_encode(&self.priv_key)
    }

    /// The public key, in base64.
    pub fn pub_b64(&self) -> (r: String)
        ensures
            r@ == crypto::b64_text(self.pub_key@),
    {
        crypto::b64_encode(&self.pub_key)
    }
}

/// The WireGuard private key of an ed25519 seed.
pub open spec fn wg_secret(seed: Seq<u8>) -> Seq<u8> {
    crypto::clamped(crypto::sha512(seed).take(32))
}

/// The WireGuard public key of an ed25519 seed.
pub open spec fn wg_public(seed: Seq<u8>) -> Seq<u8> {
    crypto::x25519_public(wg_secret(seed))
}

/// A private key is clamped: the low three bits are 0, the highest bit is 0,
/// the one below it is 1.
pub open spec fn is_clamped(b: Seq<u8>) -> bool {
    &&& b.len() == 32
    &&& b[0] & 7 == 0
    &&& b[31] & 128 == 0
    &&& b[31] & 64 == 64
}

/// What is clamped is clamped, and clamping it again changes nothing.
pub proof fn clamp_idempotent(b: Seq<u8>)
    requires
        b.len() == 32,
    ensures
        is_clamped(crypto::clamped(b)),
        crypto::clamped(crypto::clamped(b)) == crypto::clamped(b),
        is_clamped(b) ==> crypto::clamped(b) == b,
{
    let lo = b[0];
    let hi = b[31];
    assert((lo & 248) & 7 == 0 && (lo & 248) & 248 == lo & 248) by (bit_vector);
    assert(((hi & 127) | 64) & 128 == 0 && ((hi & 127) | 64) & 64 == 64 && ((((hi & 127) | 64)
        & 127) | 64) == (hi & 127) | 64) by (bit_vector);
    assert(lo & 7 == 0 ==> lo & 248 == lo) by (bit_vector);
    assert(hi & 128 == 0 && hi & 64 == 64 ==> (hi & 127) | 64 == hi) by (bit_vector);
    let c = crypto::clamped(b);
    assert(c[0] == lo & 248 && c[31] == (hi & 127) | 64);
    assert(crypto::clamped(c) =~= c);
    if is_clamped(b) {
        assert(c =~= b);
    }
}

/// The WireGuard private key, given the SHA-512 digest of the seed.
pub fn secret_of_digest(h: &[u8; 64]) -> (r: [u8; 32])
    ensures
        r@ == crypto::clamped(h@.take(32)),
        is_clamped(r@),
{
    let mut k: [u8; 32] = [0u8; 32];
    let mut i: usize = 0;
    while i < 32
        invariant
            i <= 32,
            k@.len() == 32,
            h@.len() == 64,
            forall|j: int| 0 <= j < i ==> k@[j] == h@[j],
        decreases 32 - i,
    {
        k[i] = h[i];
        i = i + 1;
    }
    assert(k@ =~= h@.take(32));
    k[0] = k[0] & 248;
    k[31] = (k[31] & 127) | 64;
    proof {
        assert(k@ =~= crypto::clamped(h@.take(32)));
        clamp_idempotent(h@.take(32));
    }
    k
}

/// The WireGuard key pair of an ed25519 seed.
pub fn derive_wg_from_seed(seed: &[u8; 32]) -> (r: WgKeys)
    ensures
        r.priv_key@ == wg_secret(seed@),
        r.pub_key@ == wg_public(seed@),
        is_clamped(r.priv_key@),
{
    let priv_key = secret_of_digest(&crypto::sha512_digest(seed));
    let pub_key = crypto::x25519_public_key(&priv_key);
    WgKeys { priv_key, pub_key }
}

/// The seed and the public key line in a private key file, given what the file
/// says.
pub open spec fn seed_in(
    parsed: Result<(bool, Seq<char>, Option<Seq<u8>>, Result<Seq<char>, Seq<char>>), Seq<char>>,
) -> Result<(Seq<u8>, Seq<char>), KeyFault> {
    match parsed {
        Err(e) => Err(KeyFault::Parse(e)),
        Ok((encrypted, algorithm, seed, line)) => if encrypted {
            Err(KeyFault::Encrypted)
        } else if algorithm != "ssh-ed25519"@ {
            Err(KeyFault::NotEd25519(algorithm))
        } else {
            match (seed, line) {
                (None, _) => Err(KeyFault::NotEd25519("missing"@)),
                (Some(_), Err(e)) => Err(KeyFault::Parse(e)),
                (Some(s), Ok(l)) => Ok((s, l)),
            }
        },
    }
}

/// The identity is the one of a seed and a public key line.
pub open spec fn identity_is(id: Identity, seed: Seq<u8>, line: Seq<char>) -> bool {
    &&& id.ed_signing.seed@ == seed
    &&& id.wg_priv@ == wg_secret(seed)
    &&& id.wg_pub@ == wg_public(seed)
    &&& id.ssh_pub_line@ == line
    &&& is_clamped(id.wg_priv@)
}

/// The result says what the file says.
pub open spec fn is_identity(
    r: Result<Identity, KeyDeriveError>,
    found: Result<(Seq<u8>, Seq<char>), KeyFault>,
) -> bool {
    match r {
        Ok(id) => found matches Ok((seed, line)) && identity_is(id, seed, line),
        Err(e) => found == Err::<(Seq<u8>, Seq<char>), KeyFault>(e@),
    }
}

/// The public key line of an identity names the key that its signatures are
/// made with.
pub open spec fn signs_for_itself(r: Result<Identity, KeyDeriveError>) -> bool {
    r matches Ok(id) ==> id.ssh_pub_line@.len() > 0 && sig::line_key(id.ssh_pub_line@) == Ok::<Seq<u8>, sig::SigFault>(
        crypto::ed25519_public(id.ed_signing.seed@),
    )
}

/// The identity in a private key file, given what the file says.
pub fn identity_of_parsed(parsed: Result<SshPrivateKey, String>) -> (r: Result<
    Identity,
    KeyDeriveError,
>)
    ensures
        is_identity(r, seed_in(crypto::private_view(parsed))),
        crypto::names_own_key(parsed) ==> signs_for_itself(r),
{
    let key = match parsed {
        Ok(k) => k,
        Err(e) => {
            return Err(KeyDeriveError::Parse(e));
        },
    };
    if key.encrypted {
        return Err(KeyDeriveError::Encrypted);
    }
    if !text::same(key.algorithm.as_str(), "ssh-ed25519") {
        return Err(KeyDeriveError::NotEd25519(key.algorithm));
    }
    let seed: [u8; 32] = match key.seed {
        Some(s) => s,
        None => {
            return Err(KeyDeriveError::NotEd25519("missing".to_owned()));
        },
    };
    let wg = derive_wg_from_seed(&seed);
    match key.public_line {
        Ok(line) => Ok(
            Identity {
                wg_priv: wg.priv_key,
                wg_pub: wg.pub_key,
                ed_signing: SigningKey::from_bytes(&seed),
                ssh_pub_line: line,
            },
        ),
        Err(e) => Err(KeyDeriveError::Parse(e)),
    }
}

/// The identity in the bytes of an OpenSSH private key file.
pub fn identity_from_pem(pem: &[u8]) -> (r: Result<Identity, KeyDeriveError>)
    ensures
        is_identity(r, seed_in(crypto::ssh_private(pem@))),
        signs_for_itself(r),
{
    identity_of_parsed(crypto::read_ssh_private(pem))
}

/// The seed and the public key line in a private key file, given its path and
/// its bytes or the wording of the error in reading it.
pub open spec fn seed_in_file(path: Seq<char>, read: Result<Vec<u8>, String>) -> Result<
    (Seq<u8>, Seq<char>),
    KeyFault,
> {
    match read {
        Ok(data) => seed_in(crypto::ssh_private(data@)),
        Err(e) => Err(KeyFault::Io { path, source: e@ }),
    }
}

/// The identity in a private key file, given its bytes or the wording of the
/// error in reading it.
pub fn identity_from_ssh_file(path: &str, read: Result<Vec<u8>, String>) -> (r: Result<
    Identity,
    KeyDeriveError,
>)
    ensures
        is_identity(r, seed_in_file(path@, read)),
        signs_for_itself(r),
{
    match read {
        Ok(data) => identity_from_pem(data.as_slice()),
        Err(e) => Err(KeyDeriveError::Io { path: path.to_owned(), source: e }),
    }
}

/// The WireGuard key pair of a private key file, given its bytes or the wording
/// of the error in reading it.
pub fn wg_from_ssh_file(path: &str, read: Result<Vec<u8>, String>) -> (r: Result<
    WgKeys,
    KeyDeriveError,
>)
    ensures
        match r {
            Ok(k) => seed_in_file(path@, read) matches Ok((seed, line)) && k.priv_key@ == wg_secret(
                seed,
            ) && k.pub_key@ == wg_public(seed),
            Err(e) => seed_in_file(path@, read) == Err::<(Seq<u8>, Seq<char>), KeyFault>(e@),
        },
{
    match identity_from_ssh_file(path, read) {
        Ok(id) => Ok(WgKeys { priv_key: id.wg_priv, pub_key: id.wg_pub }),
        Err(e) => Err(e),
    }
}

/// The WireGuard public key of a public key line, given what the line says.
pub open spec fn wg_public_in(parsed: Result<(Seq<char>, Option<Seq<u8>>), Seq<char>>) -> Result<
    Seq<u8>,
    KeyFault,
> {
    match parsed {
        Err(e) => Err(KeyFault::Parse(e)),
        Ok((algorithm, None)) => Err(KeyFault::NotEd25519(algorithm)),
        Ok((algorithm, Some(key))) => match crypto::ed25519_montgomery(key) {
            Some(k) => Ok(k),
            None => Err(KeyFault::NotEd25519("invalid point"@)),
        },
    }
}

/// The WireGuard public key of a public key line, given what the line says.
pub fn wg_pub_of_parsed(parsed: Result<SshPublicKey, String>) -> (r: Result<
    [u8; 32],
    KeyDeriveError,
>)
    ensures
        match r {
            Ok(k) => wg_public_in(crypto::public_view(parsed)) == Ok::<Seq<u8>, KeyFault>(k@),
            Err(e) => wg_public_in(crypto::public_view(parsed)) == Err::<Seq<u8>, KeyFault>(e@),
        },
        forall|seed: Seq<u8>|
            seed.len() == 32 && sig::key_in(crypto::public_view(parsed)) == Ok::<
                Seq<u8>,
                sig::SigFault,
            >(#[trigger] crypto::ed25519_public(seed)) ==> (r matches Ok(w) && w@ == wg_public(
                seed,
            )),
{
    let key = match parsed {
        Ok(k) => k,
        Err(e) => {
            return Err(KeyDeriveError::Parse(e));
        },
    };
    match key.ed25519 {
        Some(k) => match crypto::ed25519_to_x25519(&k) {
            Some(w) => Ok(w),
            None => Err(KeyDeriveError::NotEd25519("invalid point".to_owned())),
        },
        None => Err(KeyDeriveError::NotEd25519(key.algorithm)),
    }
}

/// The WireGuard public key of an `ssh-ed25519 AAAA... comment` line: the one
/// that is derived from the private key that goes with the line.
pub fn wg_pub_from_authorized_line(line: &str) -> (r: Result<[u8; 32], KeyDeriveError>)
    ensures
        match r {
            Ok(k) => wg_public_in(crypto::ssh_public(text::trimmed(line@))) == Ok::<
                Seq<u8>,
                KeyFault,
            >(k@),
            Err(e) => wg_public_in(crypto::ssh_public(text::trimmed(line@))) == Err::<
                Seq<u8>,
                KeyFault,
            >(e@),
        },
        forall|seed: Seq<u8>|
            seed.len() == 32 && sig::line_key(line@) == Ok::<Seq<u8>, sig::SigFault>(
                #[trigger] crypto::ed25519_public(seed),
            ) ==> (r matches Ok(w) && w@ == wg_public(seed)),
{
    wg_pub_of_parsed(crypto::read_ssh_public(text::trim(line).as_str()))
}

/// Clamping clears the low three bits of the first byte, and of the last byte
/// the highest bit, and sets the one below it. Every other bit stays.
pub proof fn clamp_touches_five_bits(b: Seq<u8>)
    requires
        b.len() == 32,
    ensures
        ({
            let c = crypto::clamped(b);
            &&& c.len() == 32
            &&& c[0] == b[0] - b[0] % 8
            &&& c[31] == 64 + b[31] % 64
            &&& forall|i: int| 0 < i < 31 ==> #[trigger] c[i] == b[i]
        }),
{
    let lo = b[0];
    let hi = b[31];
    assert(lo & 248 == lo - lo % 8) by (bit_vector);
    assert((hi & 127) | 64 == 64 + hi % 64) by (bit_vector);
}

/// A WireGuard key is made of the first half of the digest of the seed, and
/// public and private key go together.
pub proof fn wg_keys_of_seed(seed: Seq<u8>)
    requires
        crypto::sha512(seed).len() == 64,
    ensures
        ({
            let h = crypto::sha512(seed);
            let k = wg_secret(seed);
            &&& k.len() == 32
            &&& k[0] == h[0] - h[0] % 8
            &&& k[31] == 64 + h[31] % 64
            &&& forall|i: int| 0 < i < 31 ==> #[trigger] k[i] == h[i]
            &&& wg_public(seed) == crypto::x25519_public(k)
        }),
{
    clamp_touches_five_bits(crypto::sha512(seed).take(32));
}

/// What a private key file gives, and exactly when: the seed and the line of an
/// ed25519 key that is not encrypted. What is wrong otherwise is the first of
/// these that fails.
pub proof fn seed_rules(
    parsed: Result<(bool, Seq<char>, Option<Seq<u8>>, Result<Seq<char>, Seq<char>>), Seq<char>>,
)
    ensures
        ({
            let (encrypted, algorithm, seed, line) = parsed->Ok_0;
            let open = parsed is Ok && !encrypted;
            let ours = open && algorithm == "ssh-ed25519"@;
            match seed_in(parsed) {
                Ok((s, l)) => ours && seed == Some(s) && line is Ok && line->Ok_0 == l,
                Err(KeyFault::Encrypted) => parsed is Ok && encrypted,
                Err(KeyFault::NotEd25519(a)) => (open && algorithm != "ssh-ed25519"@ && a
                    == algorithm) || (ours && seed is None && a == "missing"@),
                Err(KeyFault::Parse(e)) => (parsed is Err && e == parsed->Err_0) || (ours && seed
                    is Some && line is Err && e == line->Err_0),
                Err(KeyFault::Io { .. }) => false,
            }
        }),
{
}

/// What a public key line gives, and exactly when: the other form of an ed25519
/// key that is a point of the curve.
pub proof fn public_rules(parsed: Result<(Seq<char>, Option<Seq<u8>>), Seq<char>>)
    ensures
        ({
            let (algorithm, key) = parsed->Ok_0;
            match wg_public_in(parsed) {
                Ok(k) => parsed is Ok && key is Some && crypto::ed25519_montgomery(key->0) == Some(
                    k,
                ),
                Err(KeyFault::Parse(e)) => parsed is Err && e == parsed->Err_0,
                Err(KeyFault::NotEd25519(a)) => parsed is Ok && ((key is None && a == algorithm) || (
                key is Some && crypto::ed25519_montgomery(key->0) is None && a
                    == "invalid point"@)),
                Err(_) => false,
            }
        }),
{
}

} // verus!
