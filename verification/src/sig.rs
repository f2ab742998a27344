//! Request signing between agents and coordinator.
//!
//! What is signed:
//! ```text
//!   TIMESTAMP "\n" METHOD "\n" PATH "\n" SHA256_HEX(BODY)
//! ```
//! The coordinator knows an agent by its raw ed25519 public key, in base64.

use vstd::prelude::*;
use vstd::string::*;
use crate::crypto;
use crate::crypto::SshPublicKey;
use crate::num;
use crate::text;

verus! {

pub const HEADER_TIMESTAMP: &'static str = "X-Sig-Timestamp";

pub const HEADER_PUBKEY: &'static str = "X-Sig-Pubkey";

pub const HEADER_SIGNATURE: &'static str = "X-Sig-Signature";

/// How many seconds the clocks of two ends may differ, either way.
pub const MAX_SKEW_SECS: i64 = 60;

/// Why a request is refused.
#[derive(Debug)]
pub enum SigError {
    MissingHeader,
    BadTimestamp(String),
    /// The difference in seconds, modulo 2^64, and the greatest one allowed.
    Skew(i64, i64),
    ParsePubkey(String),
    UnsupportedKeyType(String),
    NotAuthorized,
    BadSignatureEncoding,
    BadSig,
}

/// Why a request is refused, as texts and numbers.
#[verifier::ext_equal]
pub enum SigFault {
    MissingHeader,
    BadTimestamp(Seq<char>),
    Skew(i64, i64),
    ParsePubkey(Seq<char>),
    UnsupportedKeyType(Seq<char>),
    NotAuthorized,
    BadSignatureEncoding,
    BadSig,
}

impl View for SigError {
    type V = SigFault;

    open spec fn view(&self) -> SigFault {
        match *self {
            SigError::MissingHeader => SigFault::MissingHeader,
            SigError::BadTimestamp(s) => SigFault::BadTimestamp(s@),
            SigError::Skew(d, max) => SigFault::Skew(d, max),
            SigError::ParsePubkey(s) => SigFault::ParsePubkey(s@),
            SigError::UnsupportedKeyType(s) => SigFault::UnsupportedKeyType(s@),
            SigError::NotAuthorized => SigFault::NotAuthorized,
            SigError::BadSignatureEncoding => SigFault::BadSignatureEncoding,
            SigError::BadSig => SigFault::BadSig,
        }
    }
}

impl SigFault {
    /// The wording of the error.
    pub open spec fn wording(self) -> Seq<char> {
        match self {
            SigFault::MissingHeader => "missing signature header"@,
            SigFault::BadTimestamp(s) => "bad timestamp: "@ + s,
            SigFault::Skew(d, max) => "timestamp skew "@ + num::signed_decimal(d as int)
                + "s exceeds "@ + num::signed_decimal(max as int) + "s"@,
            SigFault::ParsePubkey(s) => "parse pubkey: "@ + s,
            SigFault::UnsupportedKeyType(s) => "unsupported key type "@ + s,
            SigFault::NotAuthorized => "pubkey not authorized"@,
            SigFault::BadSignatureEncoding => "bad signature encoding"@,
            SigFault::BadSig => "signature verification failed"@,
        }
    }
}

impl SigError {
    /// The wording of the error.
    pub fn message(&self) -> (r: String)
        ensures
            r@ == self@.wording(),
    {
        match self {
            SigError::MissingHeader => "missing signature header".to_owned(),
            SigError::BadTimestamp(s) => "bad timestamp: ".to_owned().concat(s.as_str()),
            SigError::Skew(d, max) => "timestamp skew ".to_owned().concat(
                num::show_signed(*d).as_str(),
            ).concat("s exceeds ").concat(num::show_signed(*max).as_str()).concat("s"),
            SigError::ParsePubkey(s) => "parse pubkey: ".to_owned().concat(s.as_str()),
            SigError::UnsupportedKeyType(s) => "unsupported key type ".to_owned().concat(
                s.as_str(),
            ),
            SigError::NotAuthorized => "pubkey not authorized".to_owned(),
            SigError::BadSignatureEncoding => "bad signature encoding".to_owned(),
            SigError::BadSig => "signature verification failed".to_owned(),
        }
    }
}

// ---------------------------------------------------------------------------
// Signing
// ---------------------------------------------------------------------------
/// An ed25519 key that signs: its 32-byte seed.
pub struct SigningKey {
    pub seed: [u8; 32],
}

impl SigningKey {
    /// The key of a seed.
    pub fn from_bytes(seed: &[u8; 32]) -> (r: Self)
        ensures
            r.seed@ == seed@,
    {
        SigningKey { seed: *seed }
    }

    /// The seed.
    pub fn to_bytes(&self) -> (r: [u8; 32])
        ensures
            r@ == self.seed@,
    {
        self.seed
    }

    /// The public key that goes with it.
    pub fn verifying_key(&self) -> (r: [u8; 32])
        ensures
            r@ == crypto::ed25519_public(self.seed@),
    {
        crypto::ed25519_public_key(&self.seed)
    }
}

/// The text that is signed, given the digest of the body.
pub open spec fn canonical_text(
    timestamp: int,
    method: Seq<char>,
    path: Seq<char>,
    digest: Seq<u8>,
) -> Seq<char> {
    num::signed_decimal(timestamp) + "\n"@ + method + "\n"@ + path + "\n"@ + crypto::hex_text(
        digest,
    )
}

/// The bytes that are signed.
pub open spec fn canonical_bytes(
    timestamp: int,
    method: Seq<char>,
    path: Seq<char>,
    body: Seq<u8>,
) -> Seq<u8> {
    vstd::utf8::encode_utf8(canonical_text(timestamp, method, path, crypto::sha256(body)))
}

/// The bytes that are signed, given the digest of the body.
pub fn canonical_of_digest(timestamp: i64, method: &str, path: &str, digest: &[u8; 32]) -> (r: Vec<
    u8,
>)
    ensures
        r@ == vstd::utf8::encode_utf8(canonical_text(timestamp as int, method@, path@, digest@)),
{
    let t = num::show_signed(timestamp).concat("\n").concat(method).concat("\n").concat(
        path,
    ).concat("\n").concat(crypto::hex_encode(digest).as_str());
    t.as_str().as_bytes_vec()
}

/// The bytes that are signed.
pub fn canonical(timestamp: i64, method: &str, path: &str, body: &[u8]) -> (r: Vec<u8>)
    ensures
        r@ == canonical_bytes(timestamp as int, method@, path@, body@),
{
    canonical_of_digest(timestamp, method, path, &crypto::sha256_digest(body))
}

/// Sign, and return the signature in base64 for its header.
pub fn sign(timestamp: i64, method: &str, path: &str, body: &[u8], sk: &SigningKey) -> (r: String)
    ensures
        ({
            let sig = crypto::ed25519_signature(
                sk.seed@,
                canonical_bytes(timestamp as int, method@, path@, body@),
            );
            r@ == crypto::b64_text(sig) && sig.len() == 64
        }),
        r@.len() == 88,
{
    let canon = canonical(timestamp, method, path, body);
    let sig = crypto::ed25519_sign(&sk.seed, canon.as_slice());
    crypto::b64_encode(&sig)
}

// ---------------------------------------------------------------------------
// Keys
// ---------------------------------------------------------------------------
/// The ed25519 key that a public key line names, given what the line says.
pub open spec fn key_in(parsed: Result<(Seq<char>, Option<Seq<u8>>), Seq<char>>) -> Result<
    Seq<u8>,
    SigFault,
> {
    match parsed {
        Err(e) => Err(SigFault::ParsePubkey(e)),
        Ok((algorithm, None)) => Err(SigFault::UnsupportedKeyType(algorithm)),
        Ok((algorithm, Some(key))) => Ok(key),
    }
}

/// The ed25519 key that a public key line names.
pub open spec fn line_key(line: Seq<char>) -> Result<Seq<u8>, SigFault> {
    key_in(crypto::ssh_public(text::trimmed(line)))
}

/// The ed25519 key of a public key line, given what the line says.
pub fn key_of_parsed(parsed: Result<SshPublicKey, String>) -> (r: Result<[u8; 32], SigError>)
    ensures
        match r {
            Ok(k) => key_in(crypto::public_view(parsed)) == Ok::<Seq<u8>, SigFault>(k@),
            Err(e) => key_in(crypto::public_view(parsed)) == Err::<Seq<u8>, SigFault>(e@),
        },
{
    match parsed {
        Ok(k) => match k.ed25519 {
            Some(key) => Ok(key),
            None => Err(SigError::UnsupportedKeyType(k.algorithm)),
        },
        Err(e) => Err(SigError::ParsePubkey(e)),
    }
}

/// The ed25519 key that a public key line names.
pub fn key_of_line(line: &str) -> (r: Result<[u8; 32], SigError>)
    ensures
        match r {
            Ok(k) => line_key(line@) == Ok::<Seq<u8>, SigFault>(k@),
            Err(e) => line_key(line@) == Err::<Seq<u8>, SigFault>(e@),
        },
{
    key_of_parsed(crypto::read_ssh_public(text::trim(line).as_str()))
}

/// The raw ed25519 public key, in base64, of an `ssh-ed25519 AAAA... comment`
/// line.
pub fn ed_pub_b64_from_authorized_line(line: &str) -> (r: Result<String, SigError>)
    ensures
        match r {
            Ok(b) => line_key(line@) matches Ok(k) && b@ == crypto::b64_text(k) && b@.len() == 44,
            Err(e) => line_key(line@) == Err::<Seq<u8>, SigFault>(e@),
        },
{
    match key_of_line(line) {
        Ok(k) => Ok(crypto::b64_encode(&k)),
        Err(e) => Err(e),
    }
}

// ---------------------------------------------------------------------------
// Verification
// ---------------------------------------------------------------------------
/// Who asked.
#[derive(Debug, Clone)]
pub struct Verified {
    /// The public key line, as it was sent.
    pub ssh_pub_line: String,
    /// The raw ed25519 public key in base64: the stable identity.
    pub ed_pub_raw_b64: String,
}

/// What a request claims before anything is looked up or checked.
#[derive(Debug)]
pub struct Claim {
    pub timestamp: i64,
    pub key: [u8; 32],
    /// The key in base64.
    pub id: String,
}

/// The difference of two 64-bit counts of seconds, modulo 2^64.
pub open spec fn wrapped_diff(now: int, ts: int) -> int {
    if now - ts > i64::MAX {
        now - ts - 0x1_0000_0000_0000_0000
    } else if now - ts < i64::MIN {
        now - ts + 0x1_0000_0000_0000_0000
    } else {
        now - ts
    }
}

/// Do two clocks agree well enough?
pub open spec fn fresh(now: int, ts: int) -> bool {
    -60 <= now - ts <= 60
}

/// What the headers claim: a timestamp that is fresh, and a key.
pub open spec fn claim_of(
    ts_str: Seq<char>,
    pub_str: Seq<char>,
    sig_str: Seq<char>,
    now: int,
) -> Result<(int, Seq<u8>), SigFault> {
    if ts_str.len() == 0 || pub_str.len() == 0 || sig_str.len() == 0 {
        Err(SigFault::MissingHeader)
    } else {
        match num::signed_value(ts_str) {
            Err(_) => Err(SigFault::BadTimestamp(ts_str)),
            Ok(ts) => if !fresh(now, ts) {
                Err(SigFault::Skew(wrapped_diff(now, ts) as i64, 60))
            } else {
                match line_key(pub_str) {
                    Err(e) => Err(e),
                    Ok(key) => Ok((ts, key)),
                }
            },
        }
    }
}

/// Whether a decoded signature of the message is good.
pub open spec fn signature_check(key: Seq<u8>, msg: Seq<u8>, decoded: Option<Seq<u8>>) -> Option<
    SigFault,
> {
    match decoded {
        None => Some(SigFault::BadSignatureEncoding),
        Some(sig) => if sig.len() == 64 && crypto::ed25519_valid(key, msg, sig) {
            None
        } else {
            Some(SigFault::BadSig)
        },
    }
}

/// The verdict on a request, given whether its key is allowed: the key in
/// base64, or why it is refused.
pub open spec fn verdict(
    ts_str: Seq<char>,
    pub_str: Seq<char>,
    sig_str: Seq<char>,
    method: Seq<char>,
    path: Seq<char>,
    body: Seq<u8>,
    now: int,
    allowed: bool,
) -> Result<Seq<char>, SigFault> {
    match claim_of(ts_str, pub_str, sig_str, now) {
        Err(e) => Err(e),
        Ok((ts, key)) => if !allowed {
            Err(SigFault::NotAuthorized)
        } else {
            match signature_check(
                key,
                canonical_bytes(ts, method, path, body),
                crypto::b64_bytes(sig_str),
            ) {
                Some(e) => Err(e),
                None => Ok(crypto::b64_text(key)),
            }
        },
    }
}

/// Read what the headers claim, and refuse a timestamp that is not fresh.
pub fn claim(ts_str: &str, pub_str: &str, sig_str: &str, now: i64) -> (r: Result<Claim, SigError>)
    ensures
        match r {
            Ok(c) => claim_of(ts_str@, pub_str@, sig_str@, now as int) == Ok::<
                (int, Seq<u8>),
                SigFault,
            >((c.timestamp as int, c.key@)) && c.id@ == crypto::b64_text(c.key@) && c.id@.len() == 44,
            Err(e) => claim_of(ts_str@, pub_str@, sig_str@, now as int) == Err::<
                (int, Seq<u8>),
                SigFault,
            >(e@),
        },
{
    if ts_str.is_empty() || pub_str.is_empty() || sig_str.is_empty() {
        return Err(SigError::MissingHeader);
    }
    let timestamp: i64 = match num::parse_signed(ts_str) {
        Ok(ts) => ts,
        Err(_) => {
            return Err(SigError::BadTimestamp(ts_str.to_owned()));
        },
    };
    let diff: i128 = now as i128 - timestamp as i128;
    if diff > MAX_SKEW_SECS as i128 || diff < -(MAX_SKEW_SECS as i128) {
        return Err(SigError::Skew(now.wrapping_sub(timestamp), MAX_SKEW_SECS));
    }
    match key_of_line(pub_str) {
        Ok(key) => Ok(Claim { timestamp, key, id: crypto::b64_encode(&key) }),
        Err(e) => Err(e),
    }
}

/// Is the decoded signature one of the message under the key?
pub fn check_signature(key: &[u8; 32], msg: &[u8], decoded: Option<Vec<u8>>) -> (r: Result<
    (),
    SigError,
>)
    ensures
        match r {
            Ok(_) => signature_check(key@, msg@, crypto::opt_vec(decoded)) is None,
            Err(e) => signature_check(key@, msg@, crypto::opt_vec(decoded)) == Some(e@),
        },
        forall|seed: Seq<u8>|
            #![trigger crypto::ed25519_signature(seed, msg@)]
            seed.len() == 32 && key@ == crypto::ed25519_public(seed) && crypto::opt_vec(decoded)
                == Some(crypto::ed25519_signature(seed, msg@)) && crypto::ed25519_signature(
                seed,
                msg@,
            ).len() == 64 ==> r is Ok,
{
    let bytes: Vec<u8> = match decoded {
        Some(b) => b,
        None => {
            return Err(SigError::BadSignatureEncoding);
        },
    };
    if bytes.len() != 64 {
        return Err(SigError::BadSig);
    }
    let mut sig: [u8; 64] = [0u8; 64];
    let mut i: usize = 0;
    while i < 64
        invariant
            i <= 64,
            bytes@.len() == 64,
            sig@.len() == 64,
            forall|j: int| 0 <= j < i ==> sig@[j] == bytes@[j],
        decreases 64 - i,
    {
        sig[i] = bytes[i];
        i = i + 1;
    }
    assert(sig@ =~= bytes@);
    if crypto::ed25519_verify(key, msg, &sig) {
        Ok(())
    } else {
        Err(SigError::BadSig)
    }
}

/// The verdict on a request whose headers make a claim, given whether the key
/// is allowed.
pub fn judge(
    claim: &Claim,
    allowed: bool,
    pub_str: &str,
    sig_str: &str,
    method: &str,
    path: &str,
    body: &[u8],
) -> (r: Result<Verified, SigError>)
    ensures
        ({
            let canon = canonical_bytes(claim.timestamp as int, method@, path@, body@);
            let fault = if !allowed {
                Some(SigFault::NotAuthorized)
            } else {
                signature_check(claim.key@, canon, crypto::b64_bytes(sig_str@))
            };
            &&& match r {
                Ok(v) => fault is None && v.ssh_pub_line@ == pub_str@ && v.ed_pub_raw_b64@
                    == claim.id@,
                Err(e) => fault == Some(e@),
            }
            &&& forall|seed: Seq<u8>|
                #![trigger crypto::ed25519_signature(seed, canon)]
                allowed && seed.len() == 32 && claim.key@ == crypto::ed25519_public(seed)
                    && sig_str@ == crypto::b64_text(crypto::ed25519_signature(seed, canon))
                    && crypto::ed25519_signature(seed, canon).len() == 64 ==> r is Ok
        }),
{
    if !allowed {
        return Err(SigError::NotAuthorized);
    }
    let decoded = crypto::b64_decode(sig_str);
    let canon = canonical(claim.timestamp, method, path, body);
    match check_signature(&claim.key, canon.as_slice(), decoded) {
        Ok(_) => Ok(
            Verified { ssh_pub_line: pub_str.to_owned(), ed_pub_raw_b64: claim.id.clone() },
        ),
        Err(e) => Err(e),
    }
}

/// The headers are those of a request that the key of a seed signed: the line
/// names its public key, and the signature is the one that `sign` makes.
pub open spec fn signed_by(
    seed: Seq<u8>,
    ts: int,
    ts_str: Seq<char>,
    pub_str: Seq<char>,
    sig_str: Seq<char>,
    method: Seq<char>,
    path: Seq<char>,
    body: Seq<u8>,
) -> bool {
    let signature = crypto::ed25519_signature(seed, canonical_bytes(ts, method, path, body));
    &&& seed.len() == 32
    &&& i64::MIN <= ts <= i64::MAX
    &&& ts_str == num::signed_decimal(ts)
    &&& pub_str.len() > 0
    &&& line_key(pub_str) == Ok::<Seq<u8>, SigFault>(crypto::ed25519_public(seed))
    &&& signature.len() == 64
    &&& sig_str == crypto::b64_text(signature)
    &&& sig_str.len() > 0
}

/// `f` may answer `allowed` for the text.
pub open spec fn may_answer<F: Fn(&str) -> bool>(f: F, text: Seq<char>, allowed: bool) -> bool {
    exists|k: &str| k@ == text && #[trigger] call_ensures(f, (k,), allowed)
}

/// The result says what the verdict says.
pub open spec fn is_verdict(
    r: Result<Verified, SigError>,
    pub_str: Seq<char>,
    v: Result<Seq<char>, SigFault>,
) -> bool {
    match r {
        Ok(w) => w.ssh_pub_line@ == pub_str && v == Ok::<Seq<char>, SigFault>(w.ed_pub_raw_b64@),
        Err(e) => v == Err::<Seq<char>, SigFault>(e@),
    }
}

/// Verify the signature headers of a request.
///
/// `now` is this end's Unix time; `authorized` says whether a key, in base64,
/// is allowed. A request that was signed with `sign`, within the clock skew and
/// with the key that its line names, is refused only where that key is not
/// allowed.
pub fn verify<F: Fn(&str) -> bool>(
    ts_str: &str,
    pub_str: &str,
    sig_str: &str,
    method: &str,
    path: &str,
    body: &[u8],
    now: i64,
    authorized: F,
) -> (r: Result<Verified, SigError>)
    requires
        forall|k: &str| #[trigger] call_requires(authorized, (k,)),
    ensures
        match claim_of(ts_str@, pub_str@, sig_str@, now as int) {
            Err(e) => r matches Err(f) && f@ == e,
            Ok((ts, key)) => exists|allowed: bool| #[trigger]
                may_answer(authorized, crypto::b64_text(key), allowed) && is_verdict(
                    r,
                    pub_str@,
                    verdict(
                        ts_str@,
                        pub_str@,
                        sig_str@,
                        method@,
                        path@,
                        body@,
                        now as int,
                        allowed,
                    ),
                ),
        },
        r matches Ok(v) ==> v.ed_pub_raw_b64@.len() == 44,
        forall|seed: Seq<u8>, ts: int| #[trigger]
            signed_by(seed, ts, ts_str@, pub_str@, sig_str@, method@, path@, body@) && fresh(
                now as int,
                ts,
            ) ==> match r {
                Ok(_) => true,
                Err(e) => e@ == SigFault::NotAuthorized && may_answer(
                    authorized,
                    crypto::b64_text(crypto::ed25519_public(seed)),
                    false,
                ),
            },
{
    let claim = match claim(ts_str, pub_str, sig_str, now) {
        Ok(c) => c,
        Err(e) => {
            proof {
                assert forall|ts: int|
                    i64::MIN <= ts <= i64::MAX && ts_str@ == num::signed_decimal(ts) implies
                    num::signed_value(ts_str@) == Ok::<int, num::IntError>(ts) && ts_str@.len() > 0 by {
                    num::signed_roundtrip(ts);
                }
            }
            return Err(e);
        },
    };
    let allowed = authorized(claim.id.as_str());
    assert(may_answer(authorized, crypto::b64_text(claim.key@), allowed));
    proof {
        assert forall|ts: int|
            i64::MIN <= ts <= i64::MAX && #[trigger] num::signed_decimal(ts) == ts_str@ implies ts
            == claim.timestamp by {
            num::signed_roundtrip(ts);
        }
    }
    let r = judge(&claim, allowed, pub_str, sig_str, method, path, body);
    assert(is_verdict(
        r,
        pub_str@,
        verdict(ts_str@, pub_str@, sig_str@, method@, path@, body@, now as int, allowed),
    ));
    assert(claim_of(ts_str@, pub_str@, sig_str@, now as int) == Ok::<(int, Seq<u8>), SigFault>(
        (claim.timestamp as int, claim.key@),
    ));
    r
}

// ---------------------------------------------------------------------------
// Laws
// ---------------------------------------------------------------------------
/// A text that holds no line end.
pub open spec fn one_line(s: Seq<char>) -> bool {
    forall|i: int| 0 <= i < s.len() ==> #[trigger] s[i] != '\n'
}

/// A number in decimal holds no line end.
proof fn decimal_is_one_line(n: int)
    ensures
        one_line(num::signed_decimal(n)),
{
    if n < 0 {
        num::decimal_shape((-n) as nat);
        assert forall|i: int| 0 <= i < num::signed_decimal(n).len() implies num::signed_decimal(
            n,
        )[i] != '\n' by {
            if i > 0 {
                assert(num::signed_decimal(n)[i] == num::decimal((-n) as nat)[i - 1]);
            }
        }
    } else {
        num::decimal_shape(n as nat);
    }
}

/// Hexadecimal digits hold no line end, two of them per byte.
proof fn hex_is_one_line(data: Seq<u8>)
    ensures
        one_line(crypto::hex_text(data)),
        crypto::hex_text(data).len() == 2 * data.len(),
    decreases data.len(),
{
    if data.len() > 0 {
        hex_is_one_line(data.drop_last());
    }
}

/// Two data with the same hexadecimal digits are the same.
proof fn hex_injective(a: Seq<u8>, b: Seq<u8>)
    requires
        crypto::hex_text(a) == crypto::hex_text(b),
    ensures
        a == b,
    decreases a.len(),
{
    hex_is_one_line(a);
    hex_is_one_line(b);
    if a.len() > 0 {
        let x = crypto::hex_text(a);
        let h = crypto::hex_text(a.drop_last());
        let k = crypto::hex_text(b.drop_last());
        hex_is_one_line(a.drop_last());
        hex_is_one_line(b.drop_last());
        assert(x.take(h.len() as int) =~= h);
        assert(x.take(h.len() as int) =~= k);
        hex_injective(a.drop_last(), b.drop_last());
        let n = h.len() as int;
        assert(x[n] == num::hex2(a.last())[0] && x[n] == num::hex2(b.last())[0]);
        assert(x[n + 1] == num::hex2(a.last())[1] && x[n + 1] == num::hex2(b.last())[1]);
        assert(a.last() / 16 == b.last() / 16);
        assert(a.last() % 16 == b.last() % 16);
        assert(a =~= a.drop_last().push(a.last()));
        assert(b =~= b.drop_last().push(b.last()));
    } else {
        assert(a =~= b);
    }
}

/// The lines of the text that is signed.
proof fn canonical_lines(timestamp: int, method: Seq<char>, path: Seq<char>, digest: Seq<u8>)
    requires
        one_line(method),
        one_line(path),
    ensures
        text::pieces(
            canonical_text(timestamp, method, path, digest),
            text::Sep::Char('\n'),
        ) == seq![num::signed_decimal(timestamp), method, path, crypto::hex_text(digest)],
{
    reveal_strlit("\n");
    let sep = text::Sep::Char('\n');
    let t = num::signed_decimal(timestamp);
    let h = crypto::hex_text(digest);
    decimal_is_one_line(timestamp);
    hex_is_one_line(digest);
    text::pieces_single(t, sep);
    text::pieces_single(method, sep);
    text::pieces_single(path, sep);
    text::pieces_single(h, sep);
    let c = path + seq!['\n'] + h;
    let b = method + seq!['\n'] + c;
    text::pieces_concat(path, '\n', h, sep);
    text::pieces_concat(method, '\n', c, sep);
    text::pieces_concat(t, '\n', b, sep);
    assert(canonical_text(timestamp, method, path, digest) =~= t + seq!['\n'] + b);
    assert(seq![t] + (seq![method] + (seq![path] + seq![h])) =~= seq![t, method, path, h]);
}

/// What is signed fixes the timestamp, the method, the path and the digest of
/// the body, for methods and paths of one line.
pub proof fn canonical_binds(
    ts1: int,
    method1: Seq<char>,
    path1: Seq<char>,
    body1: Seq<u8>,
    ts2: int,
    method2: Seq<char>,
    path2: Seq<char>,
    body2: Seq<u8>,
)
    requires
        one_line(method1) && one_line(path1),
        one_line(method2) && one_line(path2),
        i64::MIN <= ts1 <= i64::MAX,
        i64::MIN <= ts2 <= i64::MAX,
        canonical_bytes(ts1, method1, path1, body1) == canonical_bytes(ts2, method2, path2, body2),
    ensures
        ts1 == ts2,
        method1 == method2,
        path1 == path2,
        crypto::sha256(body1) == crypto::sha256(body2),
{
    let d1 = crypto::sha256(body1);
    let d2 = crypto::sha256(body2);
    vstd::utf8::encode_utf8_decode_utf8(canonical_text(ts1, method1, path1, d1));
    vstd::utf8::encode_utf8_decode_utf8(canonical_text(ts2, method2, path2, d2));
    canonical_lines(ts1, method1, path1, d1);
    canonical_lines(ts2, method2, path2, d2);
    let a = seq![num::signed_decimal(ts1), method1, path1, crypto::hex_text(d1)];
    let b = seq![num::signed_decimal(ts2), method2, path2, crypto::hex_text(d2)];
    assert(a[0] == b[0] && a[1] == b[1] && a[2] == b[2] && a[3] == b[3]);
    num::signed_roundtrip(ts1);
    num::signed_roundtrip(ts2);
    hex_injective(d1, d2);
}

/// A request is accepted only within the clock skew, so that a replay is
/// accepted for no longer than twice the skew, only under a key that is
/// allowed, and only with a valid signature of that very request.
pub proof fn accepted(
    ts_str: Seq<char>,
    pub_str: Seq<char>,
    sig_str: Seq<char>,
    method: Seq<char>,
    path: Seq<char>,
    body: Seq<u8>,
    now: int,
    allowed: bool,
)
    requires
        verdict(ts_str, pub_str, sig_str, method, path, body, now, allowed) is Ok,
    ensures
        allowed,
        ({
            let ts = num::signed_value(ts_str)->Ok_0;
            let key = line_key(pub_str)->Ok_0;
            let sig = crypto::b64_bytes(sig_str)->0;
            &&& num::signed_value(ts_str) is Ok && fresh(now, ts)
            &&& line_key(pub_str) is Ok
            &&& crypto::b64_bytes(sig_str) is Some && sig.len() == 64
            &&& crypto::ed25519_valid(key, canonical_bytes(ts, method, path, body), sig)
        }),
        forall|later: int|
            later > now + 120 ==> verdict(
                ts_str,
                pub_str,
                sig_str,
                method,
                path,
                body,
                later,
                allowed,
            ) is Err,
{
}

/// Each verdict, and exactly when it is given. A request is accepted, under the
/// key that its line names, if and only if all headers are there, the clocks
/// differ by no more than a minute, the key is an ed25519 key that is allowed,
/// and the 64 bytes of the signature are one of this very request under it. What
/// is reported otherwise is the first of these that fails.
#[verifier::rlimit(40)]
pub proof fn verdict_rules(
    ts_str: Seq<char>,
    pub_str: Seq<char>,
    sig_str: Seq<char>,
    method: Seq<char>,
    path: Seq<char>,
    body: Seq<u8>,
    now: int,
    allowed: bool,
)
    ensures
        ({
            let v = verdict(ts_str, pub_str, sig_str, method, path, body, now, allowed);
            let present = ts_str.len() > 0 && pub_str.len() > 0 && sig_str.len() > 0;
            let read = num::signed_value(ts_str);
            let ts = read->Ok_0;
            let timely = present && read is Ok && now - ts <= 60 && ts - now <= 60;
            let line = crypto::ssh_public(text::trimmed(pub_str));
            let (algorithm, held) = line->Ok_0;
            let known = timely && line is Ok && held is Some;
            let sig = crypto::b64_bytes(sig_str);
            let good = sig is Some && sig->0.len() == 64 && crypto::ed25519_valid(
                held->0,
                vstd::utf8::encode_utf8(
                    num::signed_decimal(ts) + "\n"@ + method + "\n"@ + path + "\n"@
                        + crypto::hex_text(crypto::sha256(body)),
                ),
                sig->0,
            );
            &&& v is Ok <==> known && allowed && good
            &&& v is Ok ==> v->Ok_0 == crypto::b64_text(held->0)
            &&& v is Err ==> match v->Err_0 {
                SigFault::MissingHeader => !present,
                SigFault::BadTimestamp(s) => present && read is Err && s == ts_str,
                SigFault::Skew(d, most) => present && read is Ok && !timely && most == 60 && (
                i64::MIN <= now <= i64::MAX ==> (now - ts - d) % 0x1_0000_0000_0000_0000 == 0),
                SigFault::ParsePubkey(e) => timely && line is Err && e == line->Err_0,
                SigFault::UnsupportedKeyType(a) => timely && line is Ok && held is None && a
                    == algorithm,
                SigFault::NotAuthorized => known && !allowed,
                SigFault::BadSignatureEncoding => known && allowed && sig is None,
                SigFault::BadSig => known && allowed && sig is Some && !good,
            }
        }),
{
    num::signed_value_bounded(ts_str);
}

/// The skew that is reported is the difference of the clocks, as far as 64 bits
/// can tell.
pub proof fn skew_is_the_difference(now: i64, ts: i64)
    ensures
        i64::MIN <= wrapped_diff(now as int, ts as int) <= i64::MAX,
        (now - ts - wrapped_diff(now as int, ts as int)) % 0x1_0000_0000_0000_0000 == 0,
        i64::MIN <= now - ts <= i64::MAX ==> wrapped_diff(now as int, ts as int) == now - ts,
{
}

/// Each byte is two digits, the high half first; `0` to `9` and `a` to `f` stand
/// for 0 to 15.
#[verifier::rlimit(40)]
pub proof fn hex_reads_back(data: Seq<u8>, i: int)
    requires
        0 <= i < data.len(),
    ensures
        crypto::hex_text(data).len() == 2 * data.len(),
        forall|h: int|
            #![trigger crypto::hex_text(data)[h]]
            h == 2 * i || h == 2 * i + 1 ==> {
                let c = crypto::hex_text(data)[h] as u32;
                let d = if h == 2 * i {
                    data[i] as int / 16
                } else {
                    data[i] as int % 16
                };
                (48 <= c <= 57 && d == c - 48) || (97 <= c <= 102 && d == c - 87)
            },
    decreases data.len(),
{
    hex_is_one_line(data);
    hex_is_one_line(data.drop_last());
    if i < data.len() - 1 {
        hex_reads_back(data.drop_last(), i);
        let x = crypto::hex_text(data);
        let y = crypto::hex_text(data.drop_last());
        assert(x[2 * i] == y[2 * i] && x[2 * i + 1] == y[2 * i + 1]);
    }
}

} // verus!
