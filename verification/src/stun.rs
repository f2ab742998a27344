//! STUN binding requests and responses, as far as address discovery needs them:
//! no authentication, no encryption.

use vstd::prelude::*;
use vstd::string::*;
use vstd::slice::slice_subrange;
use crate::net::{IpAddr, IpModel, Ipv4Addr, Ipv6Addr, SockModel, SocketAddr};
use crate::num;

verus! {

pub const MAGIC_COOKIE: u32 = 0x2112_A442;

pub const BINDING_REQUEST: u16 = 0x0001;

pub const BINDING_SUCCESS: u16 = 0x0101;

pub const ATTR_XOR_MAPPED: u16 = 0x0020;

pub const ATTR_MAPPED_ADDR: u16 = 0x0001;

/// Why no address was discovered.
#[derive(Debug)]
pub enum StunError {
    /// A socket failed.
    Io(String),
    /// The server's name has no address.
    Resolve(String),
    ShortResponse,
    BadMagic,
    TxidMismatch,
    UnexpectedType(u16),
    TruncatedAttribute,
    UnknownFamily(u8),
    NoMappedAddress,
}

impl StunError {
    /// The wording of the error.
    pub open spec fn wording(self) -> Seq<char> {
        match self {
            StunError::Io(e) => "io: "@ + e@,
            StunError::Resolve(s) => "resolve "@ + s@ + ": no addresses"@,
            StunError::ShortResponse => "stun: response too short"@,
            StunError::BadMagic => "stun: bad magic cookie"@,
            StunError::TxidMismatch => "stun: txid mismatch"@,
            StunError::UnexpectedType(t) => "stun: unexpected message type 0x"@ + num::hex4(t),
            StunError::TruncatedAttribute => "stun: truncated attribute"@,
            StunError::UnknownFamily(f) => "stun: unknown address family 0x"@ + num::hex2(f),
            StunError::NoMappedAddress => "stun: no XOR-MAPPED-ADDRESS in response"@,
        }
    }

    /// The wording of the error.
    pub fn message(&self) -> (r: String)
        ensures
            r@ == self.wording(),
    {
        match self {
            StunError::Io(e) => "io: ".to_owned().concat(e.as_str()),
            StunError::Resolve(s) => "resolve ".to_owned().concat(s.as_str()).concat(
                ": no addresses",
            ),
            StunError::ShortResponse => "stun: response too short".to_owned(),
            StunError::BadMagic => "stun: bad magic cookie".to_owned(),
            StunError::TxidMismatch => "stun: txid mismatch".to_owned(),
            StunError::UnexpectedType(t) => "stun: unexpected message type 0x".to_owned().concat(
                num::show_hex4(*t).as_str(),
            ),
            StunError::TruncatedAttribute => "stun: truncated attribute".to_owned(),
            StunError::UnknownFamily(f) => "stun: unknown address family 0x".to_owned().concat(
                num::show_hex2(*f).as_str(),
            ),
            StunError::NoMappedAddress => "stun: no XOR-MAPPED-ADDRESS in response".to_owned(),
        }
    }
}

// ---------------------------------------------------------------------------
// Numbers in network order
// ---------------------------------------------------------------------------
/// The two bytes at `i` as a number.
pub open spec fn be16(b: Seq<u8>, i: int) -> u16 {
    (b[i] * 256 + b[i + 1]) as u16
}

/// The four bytes at `i` as a number.
pub open spec fn be32(b: Seq<u8>, i: int) -> u32 {
    (b[i] * 0x100_0000 + b[i + 1] * 0x1_0000 + b[i + 2] * 0x100 + b[i + 3]) as u32
}

/// The two bytes at `i` as a number.
fn read16(b: &[u8], i: usize) -> (r: u16)
    requires
        i + 2 <= b@.len(),
    ensures
        r == be16(b@, i as int),
{
    (b[i] as u16) * 256 + (b[i + 1] as u16)
}

/// The four bytes at `i` as a number.
fn read32(b: &[u8], i: usize) -> (r: u32)
    requires
        i + 4 <= b@.len(),
    ensures
        r == be32(b@, i as int),
{
    (b[i] as u32) * 0x100_0000 + (b[i + 1] as u32) * 0x1_0000 + (b[i + 2] as u32) * 0x100 + (b[i
        + 3] as u32)
}

// ---------------------------------------------------------------------------
// The request
// ---------------------------------------------------------------------------
/// The magic cookie, in network order.
pub open spec fn cookie_bytes() -> Seq<u8> {
    seq![0x21u8, 0x12, 0xA4, 0x42]
}

/// A binding request without attributes.
pub open spec fn request_bytes(tx_id: Seq<u8>) -> Seq<u8> {
    seq![0u8, 1, 0, 0] + cookie_bytes() + tx_id
}

/// A binding request, given its transaction number.
pub fn binding_request(tx_id: &[u8; 12]) -> (r: [u8; 20])
    ensures
        r@ == request_bytes(tx_id@),
{
    let t = tx_id;
    let r: [u8; 20] = [
        (BINDING_REQUEST / 256) as u8,
        (BINDING_REQUEST % 256) as u8,
        0,
        0,
        0x21,
        0x12,
        0xA4,
        0x42,
        t[0],
        t[1],
        t[2],
        t[3],
        t[4],
        t[5],
        t[6],
        t[7],
        t[8],
        t[9],
        t[10],
        t[11],
    ];
    assert(r@ =~= request_bytes(tx_id@));
    r
}

/// A binding request with a random transaction number, and that number.
pub fn build_binding_request() -> (r: ([u8; 20], [u8; 12]))
    ensures
        r.0@ == request_bytes(r.1@),
{
    let tx_id = crate::crypto::random_12();
    (binding_request(&tx_id), tx_id)
}

// ---------------------------------------------------------------------------
// The response
// ---------------------------------------------------------------------------
/// What an IPv6 address is combined with: the cookie and the transaction number.
pub open spec fn xor_key(tx_id: Seq<u8>) -> Seq<u8> {
    cookie_bytes() + tx_id
}

/// Byte by byte exclusive or of the first sixteen bytes.
pub open spec fn xor16(a: Seq<u8>, b: Seq<u8>) -> Seq<u8> {
    Seq::new(16, |i: int| a[i] ^ b[i])
}

/// The address in an attribute that holds it combined with the cookie.
pub open spec fn xor_mapped(val: Seq<u8>, tx_id: Seq<u8>) -> Result<SockModel, StunError> {
    if val.len() < 8 {
        Err(StunError::ShortResponse)
    } else {
        let port = be16(val, 2) ^ 0x2112u16;
        if val[1] == 1 {
            Ok(SockModel { ip: IpModel::V4((be32(val, 4) ^ 0x2112_A442u32) as nat), port })
        } else if val[1] == 2 {
            if val.len() < 20 {
                Err(StunError::ShortResponse)
            } else {
                Ok(SockModel { ip: IpModel::V6(xor16(val.skip(4), xor_key(tx_id))), port })
            }
        } else {
            Err(StunError::UnknownFamily(val[1]))
        }
    }
}

/// The address in an attribute that holds it as it is.
pub open spec fn mapped(val: Seq<u8>) -> Result<SockModel, StunError> {
    if val.len() < 8 {
        Err(StunError::ShortResponse)
    } else {
        let port = be16(val, 2);
        if val[1] == 1 {
            Ok(SockModel { ip: IpModel::V4(be32(val, 4) as nat), port })
        } else if val[1] == 2 {
            if val.len() < 20 {
                Err(StunError::ShortResponse)
            } else {
                Ok(SockModel { ip: IpModel::V6(val.subrange(4, 20)), port })
            }
        } else {
            Err(StunError::UnknownFamily(val[1]))
        }
    }
}

/// The address in an attribute of any type, if it holds one.
pub open spec fn attribute(atype: u16, val: Seq<u8>, tx_id: Seq<u8>) -> Option<SockModel> {
    let found = if atype == 0x0020 {
        xor_mapped(val, tx_id)
    } else if atype == 0x0001 {
        mapped(val)
    } else {
        Err(StunError::NoMappedAddress)
    };
    match found {
        Ok(a) => Some(a),
        Err(_) => None,
    }
}

/// Where the attribute after the first one starts: attributes are padded to
/// four bytes, but the last one may lack its padding.
pub open spec fn next_attribute(body: Seq<u8>) -> int {
    let alen = be16(body, 2) as int;
    let end = 4 + alen + (4 - alen % 4) % 4;
    if end < body.len() {
        end
    } else {
        body.len() as int
    }
}

/// The first address in a sequence of attributes. Fewer than four bytes at the
/// end are passed over.
pub open spec fn first_address(body: Seq<u8>, tx_id: Seq<u8>) -> Result<SockModel, StunError>
    decreases body.len(),
{
    if body.len() < 4 {
        Err(StunError::NoMappedAddress)
    } else if 4 + be16(body, 2) > body.len() {
        Err(StunError::TruncatedAttribute)
    } else {
        match attribute(be16(body, 0), body.subrange(4, 4 + be16(body, 2)), tx_id) {
            Some(a) => Ok(a),
            None => first_address(body.skip(next_attribute(body)), tx_id),
        }
    }
}

/// What a response to the request with a transaction number says.
pub open spec fn response(buf: Seq<u8>, tx_id: Seq<u8>) -> Result<SockModel, StunError> {
    if buf.len() < 20 {
        Err(StunError::ShortResponse)
    } else if be32(buf, 4) != 0x2112_A442 {
        Err(StunError::BadMagic)
    } else if buf.subrange(8, 20) != tx_id {
        Err(StunError::TxidMismatch)
    } else if be16(buf, 0) != 0x0101 {
        Err(StunError::UnexpectedType(be16(buf, 0)))
    } else if 20 + be16(buf, 2) > buf.len() {
        Err(StunError::TruncatedAttribute)
    } else {
        first_address(buf.subrange(20, 20 + be16(buf, 2)), tx_id)
    }
}

/// The model of what was read.
pub open spec fn address_model(r: Result<SocketAddr, StunError>) -> Result<SockModel, StunError> {
    match r {
        Ok(a) => Ok(a@),
        Err(e) => Err(e),
    }
}

/// The byte of the cookie and the transaction number at a position.
fn key_byte(i: usize, tx_id: &[u8; 12]) -> (r: u8)
    requires
        i < 16,
    ensures
        r == xor_key(tx_id@)[i as int],
{
    if i == 0 {
        0x21
    } else if i == 1 {
        0x12
    } else if i == 2 {
        0xA4
    } else if i == 3 {
        0x42
    } else {
        tx_id[i - 4]
    }
}

/// The address in an attribute that holds it combined with the cookie.
pub fn parse_xor_mapped(val: &[u8], tx_id: &[u8; 12]) -> (r: Result<SocketAddr, StunError>)
    ensures
        address_model(r) == xor_mapped(val@, tx_id@),
{
    if val.len() < 8 {
        return Err(StunError::ShortResponse);
    }
    let family = val[1];
    let port: u16 = read16(val, 2) ^ 0x2112;
    if family == 1 {
        let bits: u32 = read32(val, 4) ^ MAGIC_COOKIE;
        Ok(SocketAddr { ip: IpAddr::V4(Ipv4Addr { bits }), port })
    } else if family == 2 {
        if val.len() < 20 {
            return Err(StunError::ShortResponse);
        }
        let mut octets: [u8; 16] = [0u8; 16];
        let mut i: usize = 0;
        while i < 16
            invariant
                i <= 16,
                val@.len() >= 20,
                octets@.len() == 16,
                forall|j: int| 0 <= j < i ==> octets@[j] == val@[4 + j] ^ xor_key(tx_id@)[j],
            decreases 16 - i,
        {
            octets[i] = val[4 + i] ^ key_byte(i, tx_id);
            i = i + 1;
        }
        assert(octets@ =~= xor16(val@.skip(4), xor_key(tx_id@)));
        Ok(SocketAddr { ip: IpAddr::V6(Ipv6Addr { octets }), port })
    } else {
        Err(StunError::UnknownFamily(family))
    }
}

/// The address in an attribute that holds it as it is.
pub fn parse_mapped(val: &[u8]) -> (r: Result<SocketAddr, StunError>)
    ensures
        address_model(r) == mapped(val@),
{
    if val.len() < 8 {
        return Err(StunError::ShortResponse);
    }
    let family = val[1];
    let port: u16 = read16(val, 2);
    if family == 1 {
        Ok(SocketAddr { ip: IpAddr::V4(Ipv4Addr { bits: read32(val, 4) }), port })
    } else if family == 2 {
        if val.len() < 20 {
            return Err(StunError::ShortResponse);
        }
        let mut octets: [u8; 16] = [0u8; 16];
        let mut i: usize = 0;
        while i < 16
            invariant
                i <= 16,
                val@.len() >= 20,
                octets@.len() == 16,
                forall|j: int| 0 <= j < i ==> octets@[j] == val@[4 + j],
            decreases 16 - i,
        {
            octets[i] = val[4 + i];
            i = i + 1;
        }
        assert(octets@ =~= val@.subrange(4, 20));
        Ok(SocketAddr { ip: IpAddr::V6(Ipv6Addr { octets }), port })
    } else {
        Err(StunError::UnknownFamily(family))
    }
}

/// The first address in a sequence of attributes.
fn parse_attributes(body: &[u8], tx_id: &[u8; 12]) -> (r: Result<SocketAddr, StunError>)
    ensures
        address_model(r) == first_address(body@, tx_id@),
{
    let n = body.len();
    let mut at: usize = 0;
    assert(body@.skip(0) =~= body@);
    while n - at >= 4
        invariant
            n == body@.len(),
            at <= n,
            first_address(body@, tx_id@) == first_address(body@.skip(at as int), tx_id@),
        decreases n - at,
    {
        let rest = slice_subrange(body, at, n);
        assert(rest@ =~= body@.skip(at as int));
        let left = n - at;
        let alen = read16(rest, 2) as usize;
        if 4 + alen > left {
            return Err(StunError::TruncatedAttribute);
        }
        let val = slice_subrange(rest, 4, 4 + alen);
        let atype = read16(rest, 0);
        if atype == ATTR_XOR_MAPPED {
            match parse_xor_mapped(val, tx_id) {
                Ok(a) => {
                    return Ok(a);
                },
                Err(_) => {},
            }
        } else if atype == ATTR_MAPPED_ADDR {
            match parse_mapped(val) {
                Ok(a) => {
                    return Ok(a);
                },
                Err(_) => {},
            }
        }
        let pad: usize = (4 - alen % 4) % 4;
        let next: usize = if pad < left - 4 - alen {
            4 + alen + pad
        } else {
            left
        };
        assert(next == next_attribute(rest@));
        assert(rest@.skip(next as int) =~= body@.skip(at + next));
        at = at + next;
    }
    Err(StunError::NoMappedAddress)
}

/// The address that a response to the request with a transaction number says.
pub fn parse_binding_response(buf: &[u8], expect_tx: [u8; 12]) -> (r: Result<
    SocketAddr,
    StunError,
>)
    ensures
        address_model(r) == response(buf@, expect_tx@),
{
    if buf.len() < 20 {
        return Err(StunError::ShortResponse);
    }
    let msg_type = read16(buf, 0);
    let msg_len = read16(buf, 2) as usize;
    if read32(buf, 4) != MAGIC_COOKIE {
        return Err(StunError::BadMagic);
    }
    let mut i: usize = 0;
    while i < 12
        invariant
            i <= 12,
            buf@.len() >= 20,
            expect_tx@.len() == 12,
            be32(buf@, 4) == 0x2112_A442,
            forall|j: int| 0 <= j < i ==> #[trigger] expect_tx@[j] == buf@[8 + j],
        decreases 12 - i,
    {
        if buf[8 + i] != expect_tx[i] {
            assert(buf@.subrange(8, 20)[i as int] != expect_tx@[i as int]);
            return Err(StunError::TxidMismatch);
        }
        i = i + 1;
    }
    assert(buf@.subrange(8, 20) =~= expect_tx@);
    if msg_type != BINDING_SUCCESS {
        return Err(StunError::UnexpectedType(msg_type));
    }
    if msg_len > buf.len() - 20 {
        return Err(StunError::TruncatedAttribute);
    }
    parse_attributes(slice_subrange(buf, 20, 20 + msg_len), &expect_tx)
}

// ---------------------------------------------------------------------------
// Laws
// ---------------------------------------------------------------------------
/// A number in two bytes.
pub open spec fn bytes16(n: u16) -> Seq<u8> {
    seq![(n / 256) as u8, (n % 256) as u8]
}

/// A number in four bytes.
pub open spec fn bytes32(n: u32) -> Seq<u8> {
    seq![
        (n / 0x100_0000) as u8,
        (n / 0x1_0000 % 0x100) as u8,
        (n / 0x100 % 0x100) as u8,
        (n % 0x100) as u8,
    ]
}

/// The attribute value that holds an address and a port combined with the cookie.
pub open spec fn xor_value(a: SockModel, tx_id: Seq<u8>) -> Seq<u8> {
    match a.ip {
        IpModel::V4(bits) => seq![0u8, 1] + bytes16(a.port ^ 0x2112u16) + bytes32(
            bits as u32 ^ 0x2112_A442u32,
        ),
        IpModel::V6(octets) => seq![0u8, 2] + bytes16(a.port ^ 0x2112u16) + xor16(
            octets,
            xor_key(tx_id),
        ),
    }
}

/// An attribute with its padding.
pub open spec fn attribute_bytes(atype: u16, val: Seq<u8>) -> Seq<u8> {
    bytes16(atype) + bytes16(val.len() as u16) + val + Seq::new(
        ((4 - val.len() % 4) % 4) as nat,
        |i: int| 0u8,
    )
}

/// A successful response with these attributes.
pub open spec fn success_bytes(body: Seq<u8>, tx_id: Seq<u8>) -> Seq<u8> {
    seq![1u8, 1] + bytes16(body.len() as u16) + cookie_bytes() + tx_id + body
}

/// An IPv4 address is a 32-bit number, an IPv6 address sixteen octets.
pub open spec fn proper(a: SockModel) -> bool {
    match a.ip {
        IpModel::V4(bits) => bits <= u32::MAX,
        IpModel::V6(octets) => octets.len() == 16,
    }
}

/// Combining twice with the same key gives back what there was.
proof fn xor_twice(port: u16, bits: u32, a: u8, b: u8)
    ensures
        (port ^ 0x2112u16) ^ 0x2112u16 == port,
        (bits ^ 0x2112_A442u32) ^ 0x2112_A442u32 == bits,
        (a ^ b) ^ b == a,
{
    assert((port ^ 0x2112u16) ^ 0x2112u16 == port) by (bit_vector);
    assert((bits ^ 0x2112_A442u32) ^ 0x2112_A442u32 == bits) by (bit_vector);
    assert((a ^ b) ^ b == a) by (bit_vector);
}

/// An address that was combined with the cookie is read back as it was.
proof fn xor_value_roundtrip(a: SockModel, tx_id: Seq<u8>)
    requires
        proper(a),
        tx_id.len() == 12,
    ensures
        xor_mapped(xor_value(a, tx_id), tx_id) == Ok::<SockModel, StunError>(a),
        xor_value(a, tx_id).len() % 4 == 0,
        8 <= xor_value(a, tx_id).len() <= 20,
{
    let val = xor_value(a, tx_id);
    match a.ip {
        IpModel::V4(bits) => {
            xor_twice(a.port, bits as u32, 0, 0);
            assert(be16(val, 2) == a.port ^ 0x2112u16);
            assert(be32(val, 4) == bits as u32 ^ 0x2112_A442u32);
        },
        IpModel::V6(octets) => {
            xor_twice(a.port, 0, 0, 0);
            assert(be16(val, 2) == a.port ^ 0x2112u16);
            let back = xor16(val.skip(4), xor_key(tx_id));
            assert forall|i: int| 0 <= i < 16 implies back[i] == octets[i] by {
                xor_twice(0, 0, octets[i], xor_key(tx_id)[i]);
                assert(val.skip(4)[i] == octets[i] ^ xor_key(tx_id)[i]);
            }
            assert(back =~= octets);
        },
    }
}

/// The address that a server puts into its response, combined with the cookie
/// and the number of the request, is the one that is read, whatever attributes
/// follow it.
pub proof fn response_roundtrip(a: SockModel, rest: Seq<u8>, tx_id: Seq<u8>)
    requires
        proper(a),
        tx_id.len() == 12,
        rest.len() <= 0xffe0,
    ensures
        response(
            success_bytes(attribute_bytes(0x0020, xor_value(a, tx_id)) + rest, tx_id),
            tx_id,
        ) == Ok::<SockModel, StunError>(a),
{
    let val = xor_value(a, tx_id);
    xor_value_roundtrip(a, tx_id);
    let body = attribute_bytes(0x0020, val) + rest;
    let buf = success_bytes(body, tx_id);
    assert(be32(buf, 4) == 0x2112_A442);
    assert(buf.subrange(8, 20) =~= tx_id);
    assert(be16(buf, 2) == body.len());
    assert(buf.subrange(20, 20 + be16(buf, 2)) =~= body);
    assert(be16(body, 0) == 0x0020);
    assert(be16(body, 2) == val.len());
    assert(body.subrange(4, 4 + be16(body, 2)) =~= val);
}

/// A response with another transaction number is refused.
pub proof fn other_transaction_refused(buf: Seq<u8>, tx_id: Seq<u8>)
    requires
        buf.len() >= 20,
        buf.subrange(8, 20) != tx_id,
    ensures
        response(buf, tx_id) == Err::<SockModel, StunError>(
            if be32(buf, 4) != 0x2112_A442 {
                StunError::BadMagic
            } else {
                StunError::TxidMismatch
            },
        ),
{
}

/// A request is twenty bytes: a binding request without attributes, the magic
/// cookie, and the transaction number.
pub proof fn request_layout(tx_id: Seq<u8>)
    requires
        tx_id.len() == 12,
    ensures
        ({
            let r = request_bytes(tx_id);
            &&& r.len() == 20
            &&& r[0] == 0 && r[1] == 1
            &&& r[2] == 0 && r[3] == 0
            &&& r[4] == 0x21 && r[5] == 0x12 && r[6] == 0xA4 && r[7] == 0x42
            &&& forall|i: int| 0 <= i < 12 ==> #[trigger] r[8 + i] == tx_id[i]
        }),
{
}

/// Numbers in network order combine byte by byte.
proof fn xor_bytes(a: u8, b: u8, c: u8, d: u8)
    ensures
        ((a * 256 + b) as u16) ^ 0x2112u16 == (a ^ 0x21u8) * 256 + (b ^ 0x12u8),
        ((a * 0x100_0000 + b * 0x1_0000 + c * 0x100 + d) as u32) ^ 0x2112_A442u32 == (a ^ 0x21u8)
            * 0x100_0000 + (b ^ 0x12u8) * 0x1_0000 + (c ^ 0xA4u8) * 0x100 + (d ^ 0x42u8),
{
    assert(((a * 256 + b) as u16) ^ 0x2112u16 == (a ^ 0x21u8) * 256 + (b ^ 0x12u8)) by (bit_vector);
    assert(((a * 0x100_0000 + b * 0x1_0000 + c * 0x100 + d) as u32) ^ 0x2112_A442u32 == (a ^ 0x21u8)
        * 0x100_0000 + (b ^ 0x12u8) * 0x1_0000 + (c ^ 0xA4u8) * 0x100 + (d ^ 0x42u8)) by (bit_vector);
}

/// An attribute value that holds a combined address: the second byte is its
/// family, the next two its port, the rest its octets, each combined with the
/// byte of the cookie, then of the transaction number, in its place.
#[verifier::rlimit(40)]
pub proof fn xor_mapped_layout(val: Seq<u8>, tx_id: Seq<u8>)
    requires
        tx_id.len() == 12,
    ensures
        match xor_mapped(val, tx_id) {
            Ok(a) => {
                &&& a.port == (val[2] ^ 0x21u8) * 256 + (val[3] ^ 0x12u8)
                &&& match a.ip {
                    IpModel::V4(bits) => val.len() >= 8 && val[1] == 1 && bits == (val[4] ^ 0x21u8)
                        * 0x100_0000 + (val[5] ^ 0x12u8) * 0x1_0000 + (val[6] ^ 0xA4u8) * 0x100 + (
                    val[7] ^ 0x42u8),
                    IpModel::V6(octets) => {
                        &&& val.len() >= 20 && val[1] == 2 && octets.len() == 16
                        &&& octets[0] == val[4] ^ 0x21u8 && octets[1] == val[5] ^ 0x12u8
                        &&& octets[2] == val[6] ^ 0xA4u8 && octets[3] == val[7] ^ 0x42u8
                        &&& forall|i: int|
                            4 <= i < 16 ==> #[trigger] octets[i] == val[4 + i] ^ tx_id[i - 4]
                    },
                }
            },
            Err(StunError::ShortResponse) => val.len() < 8 || (val[1] == 2 && val.len() < 20),
            Err(StunError::UnknownFamily(f)) => val.len() >= 8 && f == val[1] && f != 1 && f != 2,
            Err(_) => false,
        },
{
    if val.len() >= 8 {
        xor_bytes(val[2], val[3], 0, 0);
        xor_bytes(val[4], val[5], val[6], val[7]);
        if val.len() >= 20 && val[1] == 2 {
            let octets = xor16(val.skip(4), xor_key(tx_id));
            assert forall|i: int| 4 <= i < 16 implies #[trigger] octets[i] == val[4 + i] ^ tx_id[i
                - 4] by {
                assert(val.skip(4)[i] == val[4 + i]);
                assert(xor_key(tx_id)[i] == tx_id[i - 4]);
            }
        }
    }
}

/// An attribute value that holds an address as it is: the same layout, nothing
/// combined.
pub proof fn mapped_layout(val: Seq<u8>)
    ensures
        match mapped(val) {
            Ok(a) => {
                &&& a.port == val[2] * 256 + val[3]
                &&& match a.ip {
                    IpModel::V4(bits) => val.len() >= 8 && val[1] == 1 && bits == val[4]
                        * 0x100_0000 + val[5] * 0x1_0000 + val[6] * 0x100 + val[7],
                    IpModel::V6(octets) => val.len() >= 20 && val[1] == 2 && octets.len() == 16
                        && forall|i: int| 0 <= i < 16 ==> #[trigger] octets[i] == val[4 + i],
                }
            },
            Err(StunError::ShortResponse) => val.len() < 8 || (val[1] == 2 && val.len() < 20),
            Err(StunError::UnknownFamily(f)) => val.len() >= 8 && f == val[1] && f != 1 && f != 2,
            Err(_) => false,
        },
{
}

/// Which responses are refused before any attribute is looked at, and why: the
/// first of length, cookie, transaction number, type and announced length that
/// is wrong. Of all others what counts is the announced part behind the header.
#[verifier::rlimit(40)]
pub proof fn response_header(buf: Seq<u8>, tx_id: Seq<u8>)
    requires
        tx_id.len() == 12,
    ensures
        ({
            let r = response(buf, tx_id);
            let cookie = buf[4] == 0x21 && buf[5] == 0x12 && buf[6] == 0xA4 && buf[7] == 0x42;
            let ours = forall|i: int| 0 <= i < 12 ==> buf[8 + i] == #[trigger] tx_id[i];
            let success = buf[0] == 1 && buf[1] == 1;
            let n = buf[2] * 256 + buf[3];
            if buf.len() < 20 {
                r == Err::<SockModel, StunError>(StunError::ShortResponse)
            } else if !cookie {
                r == Err::<SockModel, StunError>(StunError::BadMagic)
            } else if !ours {
                r == Err::<SockModel, StunError>(StunError::TxidMismatch)
            } else if !success {
                r matches Err(StunError::UnexpectedType(t)) && t == buf[0] * 256 + buf[1]
            } else if 20 + n > buf.len() {
                r == Err::<SockModel, StunError>(StunError::TruncatedAttribute)
            } else {
                r == first_address(buf.subrange(20, 20 + n), tx_id)
            }
        }),
{
    if buf.len() >= 20 {
        let got = buf.subrange(8, 20);
        if forall|i: int| 0 <= i < 12 ==> buf[8 + i] == #[trigger] tx_id[i] {
            assert(got =~= tx_id);
        }
        if got == tx_id {
            assert forall|i: int| 0 <= i < 12 implies buf[8 + i] == #[trigger] tx_id[i] by {
                assert(got[i] == buf[8 + i]);
            }
        }
    }
}

/// An attribute that holds no address is passed over with its padding, whatever
/// stands in it, and the next one counts.
#[verifier::rlimit(40)]
pub proof fn others_are_passed_over(atype: u16, val: Seq<u8>, rest: Seq<u8>, tx_id: Seq<u8>)
    requires
        val.len() <= 0xffff,
        atype == 0x0020 ==> xor_mapped(val, tx_id) is Err,
        atype == 0x0001 ==> mapped(val) is Err,
    ensures
        first_address(attribute_bytes(atype, val) + rest, tx_id) == first_address(rest, tx_id),
{
    let one = attribute_bytes(atype, val);
    let body = one + rest;
    assert(be16(body, 0) == atype);
    assert(be16(body, 2) == val.len());
    assert(body.subrange(4, 4 + be16(body, 2)) =~= val);
    assert(one.len() == 4 + val.len() + (4 - val.len() % 4) % 4);
    assert(body.skip(next_attribute(body)) =~= rest);
}

/// An attribute that holds an address ends the search.
pub proof fn first_one_counts(atype: u16, val: Seq<u8>, rest: Seq<u8>, tx_id: Seq<u8>)
    requires
        val.len() <= 0xffff,
    ensures
        atype == 0x0020 && xor_mapped(val, tx_id) is Ok ==> first_address(
            attribute_bytes(atype, val) + rest,
            tx_id,
        ) == xor_mapped(val, tx_id),
        atype == 0x0001 && mapped(val) is Ok ==> first_address(
            attribute_bytes(atype, val) + rest,
            tx_id,
        ) == mapped(val),
{
    let body = attribute_bytes(atype, val) + rest;
    assert(be16(body, 0) == atype);
    assert(be16(body, 2) == val.len());
    assert(body.subrange(4, 4 + be16(body, 2)) =~= val);
}

/// Where the attributes end: fewer than four bytes hold none, one that says it
/// is longer than what is left is truncated, and the last one may lack its
/// padding.
#[verifier::rlimit(40)]
pub proof fn attributes_end(body: Seq<u8>, atype: u16, val: Seq<u8>, tx_id: Seq<u8>)
    requires
        val.len() <= 0xffff,
    ensures
        body.len() < 4 ==> first_address(body, tx_id) == Err::<SockModel, StunError>(
            StunError::NoMappedAddress,
        ),
        body.len() >= 4 && body[2] * 256 + body[3] > body.len() - 4 ==> first_address(body, tx_id)
            == Err::<SockModel, StunError>(StunError::TruncatedAttribute),
        atype != 0x0020 && atype != 0x0001 ==> first_address(
            bytes16(atype) + bytes16(val.len() as u16) + val,
            tx_id,
        ) == Err::<SockModel, StunError>(StunError::NoMappedAddress),
{
    let last = bytes16(atype) + bytes16(val.len() as u16) + val;
    assert(be16(last, 0) == atype);
    assert(be16(last, 2) == val.len());
    let left = last.skip(next_attribute(last));
    assert(left.len() == 0);
    assert(first_address(left, tx_id) == Err::<SockModel, StunError>(StunError::NoMappedAddress));
}

/// An address that a server puts into its response as it is, is the one that is
/// read.
#[verifier::rlimit(40)]
pub proof fn plain_response_roundtrip(a: SockModel, rest: Seq<u8>, tx_id: Seq<u8>)
    requires
        proper(a),
        tx_id.len() == 12,
        rest.len() <= 0xffe0,
    ensures
        ({
            let val = seq![
                0u8,
                if a.ip is V4 {
                    1u8
                } else {
                    2u8
                },
            ] + bytes16(a.port) + match a.ip {
                IpModel::V4(bits) => bytes32(bits as u32),
                IpModel::V6(octets) => octets,
            };
            response(success_bytes(attribute_bytes(0x0001, val) + rest, tx_id), tx_id) == Ok::<
                SockModel,
                StunError,
            >(a)
        }),
{
    let tail = match a.ip {
        IpModel::V4(bits) => bytes32(bits as u32),
        IpModel::V6(octets) => octets,
    };
    let val = seq![
        0u8,
        if a.ip is V4 {
            1u8
        } else {
            2u8
        },
    ] + bytes16(a.port) + tail;
    let body = attribute_bytes(0x0001, val) + rest;
    let buf = success_bytes(body, tx_id);
    assert(be32(buf, 4) == 0x2112_A442);
    assert(buf.subrange(8, 20) =~= tx_id);
    assert(be16(buf, 2) == body.len());
    assert(buf.subrange(20, 20 + be16(buf, 2)) =~= body);
    first_one_counts(0x0001, val, rest, tx_id);
    assert(be16(val, 2) == a.port);
    match a.ip {
        IpModel::V4(bits) => {
            assert(be32(val, 4) == bits);
        },
        IpModel::V6(octets) => {
            assert(val.subrange(4, 20) =~= octets);
        },
    }
    assert(mapped(val) == Ok::<SockModel, StunError>(a));
}

} // verus!
