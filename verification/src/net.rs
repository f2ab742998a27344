//! Internet addresses as plain values.

use vstd::prelude::*;
use vstd::string::*;
use crate::num;
use crate::text;

verus! {

/// An IPv4 address: its 32 bits, the first octet highest.
#[derive(Debug, Clone, Copy, PartialEq, Eq, Structural)]
pub struct Ipv4Addr {
    pub bits: u32,
}

/// An IPv6 address: its sixteen octets, in network order.
#[derive(Debug, Clone, Copy, PartialEq, Eq)]
pub struct Ipv6Addr {
    pub octets: [u8; 16],
}

/// An address of either family.
#[derive(Debug, Clone, Copy, PartialEq, Eq)]
pub enum IpAddr {
    V4(Ipv4Addr),
    V6(Ipv6Addr),
}

/// An address and a port.
#[derive(Debug, Clone, Copy, PartialEq, Eq)]
pub struct SocketAddr {
    pub ip: IpAddr,
    pub port: u16,
}

/// What an address is: the number of an IPv4 address, or the octets of an IPv6
/// address.
#[verifier::ext_equal]
pub enum IpModel {
    V4(nat),
    V6(Seq<u8>),
}

/// What an address with a port is.
#[verifier::ext_equal]
pub struct SockModel {
    pub ip: IpModel,
    pub port: u16,
}

impl View for IpAddr {
    type V = IpModel;

    open spec fn view(&self) -> IpModel {
        match *self {
            IpAddr::V4(a) => IpModel::V4(a.bits as nat),
            IpAddr::V6(a) => IpModel::V6(a.octets@),
        }
    }
}

impl View for SocketAddr {
    type V = SockModel;

    open spec fn view(&self) -> SockModel {
        SockModel { ip: self.ip@, port: self.port }
    }
}

/// The four octets of an IPv4 address, first to last.
pub open spec fn octets_of(bits: u32) -> Seq<nat> {
    seq![
        bits as nat / 0x100_0000,
        bits as nat / 0x1_0000 % 0x100,
        bits as nat / 0x100 % 0x100,
        bits as nat % 0x100,
    ]
}

/// Dotted decimal notation.
pub open spec fn ipv4_text(bits: u32) -> Seq<char> {
    let o = octets_of(bits);
    num::decimal(o[0]) + seq!['.'] + (num::decimal(o[1]) + seq!['.'] + (num::decimal(o[2]) + seq![
        '.',
    ] + num::decimal(o[3])))
}

/// One octet in decimal: one to three digits, no leading zero, at most 255.
pub open spec fn octet_value(p: Seq<char>) -> Option<nat> {
    if 1 <= p.len() <= 3 && (p.len() > 1 ==> p[0] != '0') {
        match num::digits_value(p, 255) {
            Ok(v) => Some(v),
            Err(_) => None,
        }
    } else {
        None
    }
}

/// The address that a text in dotted decimal notation stands for.
pub open spec fn ipv4_value(s: Seq<char>) -> Option<nat> {
    let p = text::pieces(s, text::Sep::Char('.'));
    if p.len() != 4 {
        None
    } else {
        match (octet_value(p[0]), octet_value(p[1]), octet_value(p[2]), octet_value(p[3])) {
            (Some(a), Some(b), Some(c), Some(d)) => Some(
                a * 0x100_0000 + b * 0x1_0000 + c * 0x100 + d,
            ),
            _ => None,
        }
    }
}

/// A number below 1000 takes at most three digits.
proof fn decimal_short(n: nat)
    requires
        n < 256,
    ensures
        octet_value(num::decimal(n)) == Some(n),
        forall|i: int|
            0 <= i < num::decimal(n).len() ==> !text::Sep::Char('.').splits(
                #[trigger] num::decimal(n)[i],
            ),
{
    num::decimal_shape(n);
    num::digits_roundtrip(n, 255);
    reveal_with_fuel(num::decimal, 3);
    assert(num::decimal(n).len() <= 3);
    if n > 0 {
        assert(num::decimal(n)[0] != '0');
    }
    assert forall|i: int| 0 <= i < num::decimal(n).len() implies !text::Sep::Char('.').splits(
        #[trigger] num::decimal(n)[i],
    ) by {
        assert(num::is_digit(num::decimal(n)[i]));
    }
}

/// Reading an address that was written gives it back.
pub proof fn ipv4_roundtrip(bits: u32)
    ensures
        ipv4_value(ipv4_text(bits)) == Some(bits as nat),
{
    let o = octets_of(bits);
    let sep = text::Sep::Char('.');
    let (a, b, c, d) = (
        num::decimal(o[0]),
        num::decimal(o[1]),
        num::decimal(o[2]),
        num::decimal(o[3]),
    );
    assert(o[0] < 256 && o[1] < 256 && o[2] < 256 && o[3] < 256);
    decimal_short(o[0]);
    decimal_short(o[1]);
    decimal_short(o[2]);
    decimal_short(o[3]);
    text::pieces_single(a, sep);
    text::pieces_single(b, sep);
    text::pieces_single(c, sep);
    text::pieces_single(d, sep);
    text::pieces_concat(c, '.', d, sep);
    text::pieces_concat(b, '.', c + seq!['.'] + d, sep);
    text::pieces_concat(a, '.', b + seq!['.'] + (c + seq!['.'] + d), sep);
    assert(text::pieces(ipv4_text(bits), sep) =~= seq![a, b, c, d]);
}

/// Different addresses are written differently.
pub proof fn ipv4_text_injective(x: u32, y: u32)
    requires
        ipv4_text(x) == ipv4_text(y),
    ensures
        x == y,
{
    ipv4_roundtrip(x);
    ipv4_roundtrip(y);
}

/// How many addresses share a prefix of `bits` bits.
pub open spec fn block(bits: u8) -> nat {
    vstd::arithmetic::power2::pow2((32 - bits) as nat)
}

/// The first address of the block of `bits` prefix bits that holds `ip`.
pub open spec fn network_of(ip: nat, bits: u8) -> nat {
    (ip - ip % block(bits)) as nat
}

/// How many addresses share a prefix of `bits` bits.
pub fn block_size(bits: u8) -> (r: u64)
    requires
        bits <= 32,
    ensures
        r == block(bits),
        1 <= r <= 0x1_0000_0000,
{
    let mut n: u64 = 1;
    let mut i: u8 = 0;
    proof {
        vstd::arithmetic::power2::lemma2_to64();
    }
    while i < 32 - bits
        invariant
            bits <= 32,
            i <= 32 - bits,
            n == vstd::arithmetic::power2::pow2(i as nat),
            n >= 1,
            n <= 0x1_0000_0000,
        decreases 32 - i,
    {
        proof {
            vstd::arithmetic::power2::lemma_pow2_unfold((i + 1) as nat);
            vstd::arithmetic::power2::lemma2_to64();
            if i + 1 < 32 {
                vstd::arithmetic::power2::lemma_pow2_strictly_increases((i + 1) as nat, 32);
            }
        }
        n = n * 2;
        i = i + 1;
    }
    n
}

/// The first address of a block keeps its own block, which lies in the 32-bit space.
pub proof fn network_block(ip: nat, bits: u8)
    requires
        ip <= u32::MAX,
        bits <= 32,
    ensures
        block(bits) >= 1,
        network_of(ip, bits) <= ip < network_of(ip, bits) + block(bits),
        network_of(ip, bits) % block(bits) == 0,
        network_of(ip, bits) + block(bits) <= 0x1_0000_0000,
        network_of(network_of(ip, bits), bits) == network_of(ip, bits),
{
    let b = block(bits) as int;
    let n = (32 - bits) as nat;
    let m = bits as nat;
    vstd::arithmetic::power2::lemma_pow2_pos(n);
    vstd::arithmetic::power2::lemma_pow2_pos(m);
    vstd::arithmetic::power2::lemma_pow2_adds(n, m);
    vstd::arithmetic::power2::lemma2_to64();
    let c = vstd::arithmetic::power2::pow2(m) as int;
    assert(b * c == 0x1_0000_0000);
    let q = ip as int / b;
    assert(ip as int == b * q + ip as int % b && 0 <= ip as int % b < b) by {
        vstd::arithmetic::div_mod::lemma_fundamental_div_mod(ip as int, b);
        vstd::arithmetic::div_mod::lemma_mod_bound(ip as int, b);
    }
    assert(network_of(ip, bits) == b * q);
    assert((b * q) % b == 0) by {
        vstd::arithmetic::div_mod::lemma_mod_multiples_basic(q, b);
        assert(b * q == q * b) by (nonlinear_arith);
    }
    assert(q < c) by (nonlinear_arith)
        requires
            b * q <= ip,
            ip < 0x1_0000_0000,
            b * c == 0x1_0000_0000,
            b >= 1,
    ;
    assert(b * q + b <= b * c) by (nonlinear_arith)
        requires
            q + 1 <= c,
            b >= 1,
    ;
}

/// Every address of a block lies in it.
pub proof fn offset_inside(network: nat, off: nat, bits: u8)
    requires
        network <= u32::MAX,
        bits <= 32,
        network_of(network, bits) == network,
        off < block(bits),
    ensures
        network + off <= u32::MAX,
        network_of(network + off, bits) == network,
{
    network_block(network, bits);
    let b = block(bits) as int;
    let q = network as int / b;
    vstd::arithmetic::div_mod::lemma_fundamental_div_mod(network as int, b);
    vstd::arithmetic::div_mod::lemma_mod_multiples_vanish(q, off as int, b);
    vstd::arithmetic::div_mod::lemma_small_mod(off, block(bits));
}

/// A block of fewer than 32 prefix bits holds more than its first address.
pub proof fn block_grows(bits: u8)
    requires
        bits < 32,
    ensures
        block(bits) >= 2,
{
    vstd::arithmetic::power2::lemma_pow2_unfold((32 - bits) as nat);
    vstd::arithmetic::power2::lemma_pow2_pos((31 - bits) as nat);
}

/// An address that a text stands for is a 32-bit number.
pub proof fn ipv4_value_bounded(s: Seq<char>)
    ensures
        ipv4_value(s) matches Some(v) ==> v <= u32::MAX,
{
    let p = text::pieces(s, text::Sep::Char('.'));
    if p.len() == 4 {
        num::digits_value_bounded(p[0], 255);
        num::digits_value_bounded(p[1], 255);
        num::digits_value_bounded(p[2], 255);
        num::digits_value_bounded(p[3], 255);
    }
}

/// Putting four octets together and taking them apart again.
proof fn octets_join(a: nat, b: nat, c: nat, d: nat)
    requires
        a < 256,
        b < 256,
        c < 256,
        d < 256,
    ensures
        octets_of((a * 0x100_0000 + b * 0x1_0000 + c * 0x100 + d) as u32) == seq![a, b, c, d],
{
    let y = a * 0x100 + b;
    let x = y * 0x100 + c;
    let n = x * 0x100 + d;
    assert(n / 0x100 == x && n % 0x100 == d);
    assert(x / 0x100 == y && x % 0x100 == c);
    assert(y / 0x100 == a && y % 0x100 == b);
    assert(n / 0x1_0000 == n / 0x100 / 0x100);
    assert(n / 0x100_0000 == n / 0x100 / 0x100 / 0x100);
    assert(octets_of(n as u32) =~= seq![a, b, c, d]);
}

impl Ipv4Addr {
    /// The address of four octets.
    pub fn new(a: u8, b: u8, c: u8, d: u8) -> (r: Self)
        ensures
            octets_of(r.bits) == seq![a as nat, b as nat, c as nat, d as nat],
            r.bits == a * 0x100_0000 + b * 0x1_0000 + c * 0x100 + d,
    {
        let r = Ipv4Addr {
            bits: (a as u32) * 0x100_0000 + (b as u32) * 0x1_0000 + (c as u32) * 0x100 + (d as u32),
        };
        proof {
            octets_join(a as nat, b as nat, c as nat, d as nat);
        }
        r
    }

    /// The four octets, first to last.
    pub fn octets(&self) -> (r: [u8; 4])
        ensures
            r@.len() == 4,
            forall|i: int| 0 <= i < 4 ==> r@[i] == #[trigger] octets_of(self.bits)[i],
    {
        let n = self.bits;
        [
            (n / 0x100_0000) as u8,
            (n / 0x1_0000 % 0x100) as u8,
            (n / 0x100 % 0x100) as u8,
            (n % 0x100) as u8,
        ]
    }

    /// Dotted decimal notation.
    pub fn text(&self) -> (r: String)
        ensures
            r@ == ipv4_text(self.bits),
    {
        let n = self.bits;
        let mut out = num::show((n / 0x100_0000) as u64);
        out.push('.');
        out.append(num::show((n / 0x1_0000 % 0x100) as u64).as_str());
        out.push('.');
        out.append(num::show((n / 0x100 % 0x100) as u64).as_str());
        out.push('.');
        out.append(num::show((n % 0x100) as u64).as_str());
        assert(out@ =~= ipv4_text(n));
        out
    }

    /// The address that a text in dotted decimal notation stands for.
    pub fn parse(s: &str) -> (r: Option<Ipv4Addr>)
        ensures
            match r {
                Some(ip) => ipv4_value(s@) == Some(ip.bits as nat),
                None => ipv4_value(s@) is None,
            },
    {
        let p = text::split(s, text::Sep::Char('.'));
        let ghost ps = text::pieces(s@, text::Sep::Char('.'));
        if p.len() != 4 {
            assert(ps.len() != 4);
            return None;
        }
        assert(ps[0] == text::texts(p@)[0] && ps[1] == text::texts(p@)[1] && ps[2] == text::texts(
            p@,
        )[2] && ps[3] == text::texts(p@)[3]);
        match (
            parse_octet(p[0].as_str()),
            parse_octet(p[1].as_str()),
            parse_octet(p[2].as_str()),
            parse_octet(p[3].as_str()),
        ) {
            (Some(a), Some(b), Some(c), Some(d)) => Some(Ipv4Addr::new(a, b, c, d)),
            _ => None,
        }
    }
}

/// One octet in decimal.
fn parse_octet(s: &str) -> (r: Option<u8>)
    ensures
        match r {
            Some(v) => octet_value(s@) == Some(v as nat),
            None => octet_value(s@) is None,
        },
{
    let v = text::chars_of(s);
    if v.len() < 1 || v.len() > 3 {
        return None;
    }
    if v.len() > 1 && v[0] == '0' {
        return None;
    }
    match num::parse_digits(s, 255) {
        Ok(n) => Some(n as u8),
        Err(_) => None,
    }
}

/// The octets of eight 16-bit segments.
pub open spec fn segment_octets(s: Seq<u16>) -> Seq<u8> {
    Seq::new(
        16,
        |i: int|
            if i % 2 == 0 {
                (s[i / 2] / 256) as u8
            } else {
                (s[i / 2] % 256) as u8
            },
    )
}

impl Ipv6Addr {
    /// The address of eight 16-bit segments.
    pub fn new(s: [u16; 8]) -> (r: Self)
        ensures
            r.octets@ == segment_octets(s@),
    {
        let r = Ipv6Addr {
            octets: [
                (s[0] / 256) as u8,
                (s[0] % 256) as u8,
                (s[1] / 256) as u8,
                (s[1] % 256) as u8,
                (s[2] / 256) as u8,
                (s[2] % 256) as u8,
                (s[3] / 256) as u8,
                (s[3] % 256) as u8,
                (s[4] / 256) as u8,
                (s[4] % 256) as u8,
                (s[5] / 256) as u8,
                (s[5] % 256) as u8,
                (s[6] / 256) as u8,
                (s[6] % 256) as u8,
                (s[7] / 256) as u8,
                (s[7] % 256) as u8,
            ],
        };
        assert(r.octets@ =~= segment_octets(s@));
        r
    }
}

// ---------------------------------------------------------------------------
// Laws
// ---------------------------------------------------------------------------
/// An address is written as four numbers below 256 with dots between them, the
/// most significant first.
pub proof fn ipv4_text_order(a: u8, b: u8, c: u8, d: u8)
    ensures
        text::pieces(
            ipv4_text((a * 0x100_0000 + b * 0x1_0000 + c * 0x100 + d) as u32),
            text::Sep::Char('.'),
        ) == seq![
            num::decimal(a as nat),
            num::decimal(b as nat),
            num::decimal(c as nat),
            num::decimal(d as nat),
        ],
{
    let sep = text::Sep::Char('.');
    octets_join(a as nat, b as nat, c as nat, d as nat);
    let (w, x, y, z) = (
        num::decimal(a as nat),
        num::decimal(b as nat),
        num::decimal(c as nat),
        num::decimal(d as nat),
    );
    decimal_short(a as nat);
    decimal_short(b as nat);
    decimal_short(c as nat);
    decimal_short(d as nat);
    text::pieces_single(w, sep);
    text::pieces_single(x, sep);
    text::pieces_single(y, sep);
    text::pieces_single(z, sep);
    text::pieces_concat(y, '.', z, sep);
    text::pieces_concat(x, '.', y + seq!['.'] + z, sep);
    text::pieces_concat(w, '.', x + seq!['.'] + (y + seq!['.'] + z), sep);
    assert(seq![w] + (seq![x] + (seq![y] + seq![z])) =~= seq![w, x, y, z]);
}

/// One octet is read from the decimal digits of a number below 256, and from
/// nothing else.
proof fn octet_is_decimal(p: Seq<char>)
    ensures
        octet_value(p) is Some ==> octet_value(p)->0 < 256 && p == num::decimal(octet_value(p)->0),
{
    if octet_value(p) is Some {
        num::digits_read(p, 255);
        num::decimal_is_unique(p);
    }
}

/// An address is read from the text that is written for it, and from no other.
#[verifier::rlimit(40)]
pub proof fn ipv4_has_one_text(s: Seq<char>, v: nat)
    ensures
        ipv4_value(s) == Some(v) <==> v <= u32::MAX && s == ipv4_text(v as u32),
{
    if v <= u32::MAX && s == ipv4_text(v as u32) {
        ipv4_roundtrip(v as u32);
    }
    if ipv4_value(s) == Some(v) {
        let sep = text::Sep::Char('.');
        let p = text::pieces(s, sep);
        ipv4_value_bounded(s);
        octet_is_decimal(p[0]);
        octet_is_decimal(p[1]);
        octet_is_decimal(p[2]);
        octet_is_decimal(p[3]);
        let (a, b, c, d) = (
            octet_value(p[0])->0,
            octet_value(p[1])->0,
            octet_value(p[2])->0,
            octet_value(p[3])->0,
        );
        ipv4_text_order(a as u8, b as u8, c as u8, d as u8);
        let t = ipv4_text(v as u32);
        assert(text::pieces(t, sep) =~= p);
        text::pieces_rejoin(s, '.');
        text::pieces_rejoin(t, '.');
    }
}

/// A block of `bits` prefix bits is one of 2 to the power of `bits` equal parts
/// of all addresses: two addresses are in the same one exactly when they have
/// those bits in common.
#[verifier::rlimit(40)]
pub proof fn blocks_are_prefixes(a: nat, b: nat, bits: u8)
    requires
        bits <= 32,
    ensures
        block(bits) * vstd::arithmetic::power2::pow2(bits as nat) == 0x1_0000_0000,
        network_of(a, bits) == network_of(b, bits) <==> a / vstd::arithmetic::power2::pow2(
            (32 - bits) as nat,
        ) == b / vstd::arithmetic::power2::pow2((32 - bits) as nat),
{
    let n = (32 - bits) as nat;
    vstd::arithmetic::power2::lemma_pow2_adds(n, bits as nat);
    vstd::arithmetic::power2::lemma2_to64();
    vstd::arithmetic::power2::lemma_pow2_pos(n);
    let k = block(bits) as int;
    vstd::arithmetic::div_mod::lemma_fundamental_div_mod(a as int, k);
    vstd::arithmetic::div_mod::lemma_fundamental_div_mod(b as int, k);
    vstd::arithmetic::div_mod::lemma_mod_bound(a as int, k);
    vstd::arithmetic::div_mod::lemma_mod_bound(b as int, k);
    let (q, r) = (a as int / k, b as int / k);
    assert(k * q == network_of(a, bits)) by (nonlinear_arith)
        requires
            a == k * q + a as int % k,
            a as int % k >= 0,
            network_of(a, bits) == a - a as int % k,
    ;
    if q != r {
        assert(k * q != k * r) by (nonlinear_arith)
            requires
                q != r,
                k > 0,
        ;
    }
}

/// An address in text is digits and dots.
#[verifier::rlimit(40)]
pub proof fn ipv4_text_chars(bits: u32)
    ensures
        forall|i: int|
            0 <= i < ipv4_text(bits).len() ==> (#[trigger] ipv4_text(bits)[i] == '.' || '0'
                <= ipv4_text(bits)[i] <= '9'),
{
    let o = octets_of(bits);
    num::decimal_stands_for(o[0]);
    num::decimal_stands_for(o[1]);
    num::decimal_stands_for(o[2]);
    num::decimal_stands_for(o[3]);
    let (a, b, c, d) = (
        num::decimal(o[0]),
        num::decimal(o[1]),
        num::decimal(o[2]),
        num::decimal(o[3]),
    );
    let t = ipv4_text(bits);
    assert forall|i: int| 0 <= i < t.len() implies (#[trigger] t[i] == '.' || '0' <= t[i] <= '9') by {
        let x = a.len() as int;
        let y = x + 1 + b.len();
        let z = y + 1 + c.len();
        if i < x {
            assert(t[i] == a[i]);
        } else if x < i < y {
            assert(t[i] == b[i - x - 1]);
        } else if y < i < z {
            assert(t[i] == c[i - y - 1]);
        } else if z < i {
            assert(t[i] == d[i - z - 1]);
        }
    }
}

} // verus!
