//! The agent's side of the signed requests to the coordinator.

use vstd::prelude::*;
use vstd::string::*;
use crate::crypto;
use crate::keyderive;
use crate::keyderive::{KeyDeriveError, KeyFault};
use crate::num;
use crate::sig;
use crate::sig::SigningKey;
use crate::text;

verus! {

/// How many bytes of an answer are read.
pub const MAX_REPLY_BYTES: usize = 1_048_576;

/// Signs requests to one coordinator.
pub struct CoordClient {
    /// The coordinator's URL, without a slash at the end.
    pub base_url: String,
    pub sk: SigningKey,
    /// The public key line that goes with `sk`.
    pub pub_line: String,
}

/// A request, ready to be sent.
#[derive(Debug)]
pub struct Outgoing {
    pub method: String,
    pub url: String,
    /// Name and value, in order.
    pub headers: Vec<(String, String)>,
    /// What is sent with `POST`; `GET` sends none.
    pub body: Option<Vec<u8>>,
}

/// What came of a request.
#[derive(Debug)]
pub enum Incoming {
    /// The bytes of an answer.
    Answer(Vec<u8>),
    /// A status that is an error, and the text that came with it.
    Status(u16, String),
    /// No answer; the wording of the error.
    Failed(String),
}

/// Why a request brought nothing.
#[derive(Debug)]
pub enum ClientError {
    UnsupportedMethod(String),
    Status { method: String, path: String, code: u16, text: String },
    Failed { method: String, path: String, error: String },
}

impl ClientError {
    /// The wording of the error.
    pub open spec fn wording(self) -> Seq<char> {
        match self {
            ClientError::UnsupportedMethod(m) => "unsupported method "@ + m@,
            ClientError::Status { method, path, code, text } => method@ + " "@ + path@
                + ": status "@ + num::decimal(code as nat) + ": "@ + text@,
            ClientError::Failed { method, path, error } => method@ + " "@ + path@ + ": "@ + error@,
        }
    }

    /// The wording of the error.
    pub fn message(&self) -> (r: String)
        ensures
            r@ == self.wording(),
    {
        match self {
            ClientError::UnsupportedMethod(m) => "unsupported method ".to_owned().concat(
                m.as_str(),
            ),
            ClientError::Status { method, path, code, text } => method.clone().concat(
                " ",
            ).concat(path.as_str()).concat(": status ").concat(
                num::show(*code as u64).as_str(),
            ).concat(": ").concat(text.as_str()),
            ClientError::Failed { method, path, error } => method.clone().concat(" ").concat(
                path.as_str(),
            ).concat(": ").concat(error.as_str()),
        }
    }
}

/// Names and values of headers, as texts.
pub open spec fn header_texts(h: Seq<(String, String)>) -> Seq<(Seq<char>, Seq<char>)> {
    h.map_values(|p: (String, String)| (p.0@, p.1@))
}

/// The headers that a signature makes.
pub open spec fn signed_headers(ts: int, pub_line: Seq<char>, signature: Seq<char>) -> Seq<
    (Seq<char>, Seq<char>),
> {
    seq![
        ("Content-Type"@, "application/json"@),
        (sig::HEADER_TIMESTAMP@, num::signed_decimal(ts)),
        (sig::HEADER_PUBKEY@, pub_line),
        (sig::HEADER_SIGNATURE@, signature),
    ]
}

impl CoordClient {
    /// The line names the key that signs.
    pub open spec fn wf(self) -> bool {
        self.pub_line@.len() > 0 && sig::line_key(self.pub_line@) == Ok::<Seq<u8>, sig::SigFault>(
            crypto::ed25519_public(self.sk.seed@),
        )
    }

    /// A client with the key in a file, given what was read of it.
    pub fn new(base_url: &str, ssh_key_path: &str, read: Result<Vec<u8>, String>) -> (r: Result<
        Self,
        KeyDeriveError,
    >)
        ensures
            match r {
                Ok(c) => {
                    &&& c.wf()
                    &&& c.base_url@ == text::trimmed_end(base_url@, text::Sep::Char('/'))
                    &&& keyderive::seed_in_file(ssh_key_path@, read) == Ok::<
                        (Seq<u8>, Seq<char>),
                        KeyFault,
                    >((c.sk.seed@, c.pub_line@))
                },
                Err(e) => keyderive::seed_in_file(ssh_key_path@, read) == Err::<
                    (Seq<u8>, Seq<char>),
                    KeyFault,
                >(e@),
            },
    {
        match keyderive::identity_from_ssh_file(ssh_key_path, read) {
            Ok(id) => Ok(
                CoordClient {
                    base_url: text::trim_end_char(base_url, '/'),
                    sk: id.ed_signing,
                    pub_line: id.ssh_pub_line,
                },
            ),
            Err(e) => Err(e),
        }
    }

    /// The public key line.
    pub fn pub_line(&self) -> (r: &str)
        ensures
            r@ == self.pub_line@,
    {
        self.pub_line.as_str()
    }

    /// The request is the signed one for a path and a body. Where the line names
    /// the key that signs, it is one that the coordinator can verify.
    pub open spec fn is_request(
        self,
        out: Outgoing,
        method: Seq<char>,
        path: Seq<char>,
        body: Seq<u8>,
        ts: int,
    ) -> bool {
        let signature = crypto::b64_text(
            crypto::ed25519_signature(
                self.sk.seed@,
                sig::canonical_bytes(ts, method, path, body),
            ),
        );
        &&& out.method@ == method
        &&& out.url@ == self.base_url@ + path
        &&& header_texts(out.headers@) == signed_headers(ts, self.pub_line@, signature)
        &&& crypto::opt_vec(out.body) == (if method == "POST"@ {
            Some(body)
        } else {
            None
        })
        &&& self.wf() && i64::MIN <= ts <= i64::MAX ==> sig::signed_by(
            self.sk.seed@,
            ts,
            num::signed_decimal(ts),
            self.pub_line@,
            signature,
            method,
            path,
            body,
        )
    }

    /// A signed request with a method, which is `POST` or another one.
    fn signed(&self, method: &str, post: bool, path: &str, body: &[u8], now: i64) -> (r: Outgoing)
        requires
            post == (method@ == "POST"@),
        ensures
            self.is_request(r, method@, path@, body@, now as int),
    {
        let signature = sig::sign(now, method, path, body, &self.sk);
        let ghost s = signature@;
        let mut headers: Vec<(String, String)> = Vec::new();
        headers.push(("Content-Type".to_owned(), "application/json".to_owned()));
        headers.push((sig::HEADER_TIMESTAMP.to_owned(), num::show_signed(now)));
        headers.push((sig::HEADER_PUBKEY.to_owned(), self.pub_line.clone()));
        headers.push((sig::HEADER_SIGNATURE.to_owned(), signature));
        assert(header_texts(headers@) =~= signed_headers(now as int, self.pub_line@, s));
        Outgoing {
            method: method.to_owned(),
            url: self.base_url.clone().concat(path),
            headers,
            body: if post {
                Some(copied(body))
            } else {
                None
            },
        }
    }

    /// A signed request, at a Unix time. Only `POST` and `GET` are supported.
    pub fn do_request(&self, method: &str, path: &str, body: &[u8], now: i64) -> (r: Result<
        Outgoing,
        ClientError,
    >)
        ensures
            match r {
                Ok(out) => (method@ == "POST"@ || method@ == "GET"@) && self.is_request(
                    out,
                    method@,
                    path@,
                    body@,
                    now as int,
                ),
                Err(e) => method@ != "POST"@ && method@ != "GET"@ && (
                e matches ClientError::UnsupportedMethod(m) && m@ == method@),
            },
    {
        let post = text::same(method, "POST");
        if post || text::same(method, "GET") {
            Ok(self.signed(method, post, path, body, now))
        } else {
            Err(ClientError::UnsupportedMethod(method.to_owned()))
        }
    }

    /// The signed request that registers, given its body.
    pub fn register(&self, body: &[u8], now: i64) -> (r: Outgoing)
        ensures
            self.is_request(r, "POST"@, "/register"@, body@, now as int),
    {
        self.signed("POST", true, "/register", body, now)
    }

    /// The signed request that asks for the peers.
    pub fn peers(&self, now: i64) -> (r: Outgoing)
        ensures
            self.is_request(r, "GET"@, "/peers"@, Seq::empty(), now as int),
    {
        let body: [u8; 0] = [];
        assert(body@ =~= Seq::<u8>::empty());
        proof {
            reveal_strlit("GET");
            reveal_strlit("POST");
            assert("GET"@.len() != "POST"@.len());
        }
        self.signed("GET", false, "/peers", &body, now)
    }
}

/// The bytes of an answer to a request, at most `MAX_REPLY_BYTES` of them.
pub fn receive(method: &str, path: &str, incoming: Incoming) -> (r: Result<Vec<u8>, ClientError>)
    ensures
        match incoming {
            Incoming::Answer(b) => r matches Ok(v) && v@ == (if b@.len() > MAX_REPLY_BYTES {
                b@.take(MAX_REPLY_BYTES as int)
            } else {
                b@
            }),
            Incoming::Status(c, t) => r matches Err(e) && (e matches ClientError::Status {
                method: m,
                path: p,
                code,
                text: x,
            } && m@ == method@ && p@ == path@ && code == c && x@ == text::trimmed(t@)),
            Incoming::Failed(t) => r matches Err(e) && (e matches ClientError::Failed {
                method: m,
                path: p,
                error,
            } && m@ == method@ && p@ == path@ && error@ == t@),
        },
{
    match incoming {
        Incoming::Answer(b) => {
            let mut v = b;
            if v.len() > MAX_REPLY_BYTES {
                v.truncate(MAX_REPLY_BYTES);
            }
            Ok(v)
        },
        Incoming::Status(code, t) => Err(
            ClientError::Status {
                method: method.to_owned(),
                path: path.to_owned(),
                code,
                text: text::trim(t.as_str()),
            },
        ),
        Incoming::Failed(error) => Err(
            ClientError::Failed { method: method.to_owned(), path: path.to_owned(), error },
        ),
    }
}

/// The bytes of a slice.
fn copied(b: &[u8]) -> (r: Vec<u8>)
    ensures
        r@ == b@,
{
    let mut out: Vec<u8> = Vec::new();
    let mut i: usize = 0;
    while i < b.len()
        invariant
            i <= b@.len(),
            out@ == b@.take(i as int),
        decreases b@.len() - i,
    {
        out.push(b[i]);
        assert(b@.take(i + 1) =~= b@.take(i as int).push(b@[i as int]));
        i = i + 1;
    }
    assert(b@.take(b@.len() as int) =~= b@);
    out
}

/// The four headers of a request: what the body is, the time in seconds in
/// decimal, the public key line, and the signature.
pub proof fn headers_sent(ts: int, pub_line: Seq<char>, signature: Seq<char>)
    requires
        i64::MIN <= ts <= i64::MAX,
    ensures
        ({
            let h = signed_headers(ts, pub_line, signature);
            &&& h.len() == 4
            &&& h[0] == ("Content-Type"@, "application/json"@)
            &&& h[1].0 == "X-Sig-Timestamp"@ && num::signed_value(h[1].1) == Ok::<int, num::IntError>(
                ts,
            )
            &&& h[2] == ("X-Sig-Pubkey"@, pub_line)
            &&& h[3] == ("X-Sig-Signature"@, signature)
        }),
{
    num::signed_roundtrip(ts);
}

/// A request is signed over its own method, path and body and the time that it
/// is sent with; it goes to the path behind the coordinator's URL, and carries
/// its body if and only if it is a `POST`.
pub proof fn request_rules(
    c: CoordClient,
    out: Outgoing,
    method: Seq<char>,
    path: Seq<char>,
    body: Seq<u8>,
    ts: int,
)
    requires
        c.is_request(out, method, path, body, ts),
    ensures
        out.method@ == method,
        out.url@ == c.base_url@ + path,
        out.headers@.len() == 4,
        out.headers@[2].1@ == c.pub_line@,
        out.headers@[3].1@ == crypto::b64_text(
            crypto::ed25519_signature(
                c.sk.seed@,
                vstd::utf8::encode_utf8(
                    num::signed_decimal(ts) + "\n"@ + method + "\n"@ + path + "\n"@
                        + crypto::hex_text(crypto::sha256(body)),
                ),
            ),
        ),
        out.headers@[1].1@ == num::signed_decimal(ts),
        out.body is Some <==> method == "POST"@,
        out.body matches Some(b) ==> b@ == body,
{
    let h = header_texts(out.headers@);
    assert(h.len() == 4);
    assert(h[1] == (out.headers@[1].0@, out.headers@[1].1@));
    assert(h[2] == (out.headers@[2].0@, out.headers@[2].1@));
    assert(h[3] == (out.headers@[3].0@, out.headers@[3].1@));
}

} // verus!
