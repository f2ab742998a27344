//! The addresses of this host that are worth telling others: those on
//! interfaces that are up and reach beyond the host, and that hold beyond the
//! link.

use vstd::prelude::*;
use crate::net::{IpAddr, IpModel, Ipv4Addr, Ipv6Addr, SockModel, SocketAddr};
use crate::text;

verus! {

/// One address of one interface.
#[derive(Debug)]
pub struct Interface {
    pub name: String,
    /// Whether the interface is up.
    pub up: bool,
    /// Whether the interface is the loopback.
    pub loopback: bool,
    pub ip: IpAddr,
}

/// What an interface is.
#[verifier::ext_equal]
pub struct InterfaceModel {
    pub name: Seq<char>,
    pub up: bool,
    pub loopback: bool,
    pub ip: IpModel,
}

impl View for Interface {
    type V = InterfaceModel;

    open spec fn view(&self) -> InterfaceModel {
        InterfaceModel { name: self.name@, up: self.up, loopback: self.loopback, ip: self.ip@ }
    }
}

/// Neither loopback, nor unspecified, nor multicast, nor link-local:
/// outside `127.0.0.0/8`, `0.0.0.0`, `224.0.0.0/4` and `169.254.0.0/16`, and
/// outside `::1`, `::`, `ff00::/8` and `fe80::/10`.
pub open spec fn worthy(ip: IpModel) -> bool {
    match ip {
        IpModel::V4(n) => {
            &&& n / 0x100_0000 != 127
            &&& n != 0
            &&& !(224 <= n / 0x100_0000 <= 239)
            &&& n / 0x1_0000 != 169 * 256 + 254
        },
        IpModel::V6(o) => {
            &&& !(all_zero(o, 15) && o[15] <= 1)
            &&& o[0] != 0xff
            &&& !(o[0] == 0xfe && 0x80 <= o[1] <= 0xbf)
        },
    }
}

/// The first `n` octets are zero.
pub open spec fn all_zero(o: Seq<u8>, n: int) -> bool {
    forall|i: int| 0 <= i < n ==> #[trigger] o[i] == 0
}

/// Is the IPv4 address worth telling?
fn worthy_v4(a: Ipv4Addr) -> (r: bool)
    ensures
        r == worthy(IpModel::V4(a.bits as nat)),
{
    let first: u32 = a.bits / 0x100_0000;
    let pair: u32 = a.bits / 0x1_0000;
    first != 127 && a.bits != 0 && !(224 <= first && first <= 239) && pair != 169 * 256 + 254
}

/// Is the IPv6 address worth telling?
fn worthy_v6(a: &Ipv6Addr) -> (r: bool)
    ensures
        r == worthy(IpModel::V6(a.octets@)),
{
    let o = &a.octets;
    let mut i: usize = 0;
    while i < 15 && o[i] == 0
        invariant
            i <= 15,
            o@.len() == 16,
            forall|j: int| 0 <= j < i ==> #[trigger] o@[j] == 0,
        decreases 15 - i,
    {
        i = i + 1;
    }
    assert(i < 15 ==> !all_zero(o@, 15)) by {
        if i < 15 {
            assert(o@[i as int] != 0);
        }
    }
    !(i == 15 && o[15] <= 1) && o[0] != 0xff && !(o[0] == 0xfe && 0x80 <= o[1] && o[1] <= 0xbf)
}

/// Is the address worth telling?
pub fn share_worthy(ip: IpAddr) -> (r: bool)
    ensures
        r == worthy(ip@),
{
    match ip {
        IpAddr::V4(a) => worthy_v4(a),
        IpAddr::V6(a) => worthy_v6(&a),
    }
}

/// The interface's address is one to tell.
pub open spec fn shared(i: InterfaceModel, skip: Seq<Seq<char>>) -> bool {
    i.up && !i.loopback && !skip.contains(i.name) && worthy(i.ip)
}

/// The addresses to tell, with a port, in the order of the interfaces.
pub open spec fn shared_of(ifaces: Seq<InterfaceModel>, skip: Seq<Seq<char>>, port: u16) -> Seq<
    SockModel,
>
    decreases ifaces.len(),
{
    if ifaces.len() == 0 {
        Seq::empty()
    } else {
        let head = shared_of(ifaces.drop_last(), skip, port);
        if shared(ifaces.last(), skip) {
            head.push(SockModel { ip: ifaces.last().ip, port })
        } else {
            head
        }
    }
}

/// The models of a sequence of interfaces.
pub open spec fn interface_models(v: Seq<Interface>) -> Seq<InterfaceModel> {
    v.map_values(|i: Interface| i@)
}

/// The models of a sequence of addresses.
pub open spec fn socket_models(v: Seq<SocketAddr>) -> Seq<SockModel> {
    v.map_values(|a: SocketAddr| a@)
}

/// Is the text one of the list?
pub fn among(list: &Vec<String>, t: &str) -> (r: bool)
    ensures
        r == text::texts(list@).contains(t@),
{
    let mut i: usize = 0;
    while i < list.len()
        invariant
            i <= list@.len(),
            forall|j: int| 0 <= j < i ==> (#[trigger] list@[j])@ != t@,
        decreases list@.len() - i,
    {
        if text::same(list[i].as_str(), t) {
            assert(text::texts(list@)[i as int] == t@);
            return true;
        }
        i = i + 1;
    }
    assert forall|j: int| 0 <= j < text::texts(list@).len() implies text::texts(list@)[j] != t@ by {
        assert(list@[j]@ != t@);
    }
    false
}

/// The addresses to tell, with the port, given the interfaces: none where they
/// could not be listed.
pub fn local_endpoints(listen_port: u16, skip: &Vec<String>, ifaces: Option<Vec<Interface>>) -> (r:
    Vec<SocketAddr>)
    ensures
        socket_models(r@) == (match ifaces {
            Some(v) => shared_of(interface_models(v@), text::texts(skip@), listen_port),
            None => Seq::empty(),
        }),
{
    let mut out: Vec<SocketAddr> = Vec::new();
    assert(socket_models(out@) =~= Seq::<SockModel>::empty());
    let v = match ifaces {
        Some(v) => v,
        None => {
            return out;
        },
    };
    let ghost ms = interface_models(v@);
    let ghost names = text::texts(skip@);
    let mut i: usize = 0;
    while i < v.len()
        invariant
            i <= v@.len(),
            ms == interface_models(v@),
            names == text::texts(skip@),
            socket_models(out@) == shared_of(ms.take(i as int), names, listen_port),
        decreases v@.len() - i,
    {
        let ghost was = out@;
        proof {
            assert(ms.take(i + 1).drop_last() =~= ms.take(i as int));
            assert(ms.take(i + 1).last() == v@[i as int]@);
        }
        if v[i].up && !v[i].loopback && !among(skip, v[i].name.as_str()) && share_worthy(v[i].ip) {
            let a = SocketAddr { ip: v[i].ip, port: listen_port };
            out.push(a);
            assert(socket_models(out@) =~= socket_models(was).push(a@));
        }
        i = i + 1;
    }
    assert(ms.take(v@.len() as int) =~= ms);
    out
}

/// Which IPv4 addresses are worth telling, by their octets: not `127.x.x.x`, not
/// `0.0.0.0`, not `224.x.x.x` to `239.x.x.x`, not `169.254.x.x`, and all others.
pub proof fn worthy_by_octets(a: u8, b: u8, c: u8, d: u8)
    ensures
        worthy(IpModel::V4((a * 0x100_0000 + b * 0x1_0000 + c * 0x100 + d) as nat)) <==> {
            &&& a != 127
            &&& !(a == 0 && b == 0 && c == 0 && d == 0)
            &&& !(224 <= a <= 239)
            &&& !(a == 169 && b == 254)
        },
{
    let n = a * 0x100_0000 + b * 0x1_0000 + c * 0x100 + d;
    assert(n / 0x100_0000 == a);
    assert(n / 0x1_0000 == a * 256 + b);
}

/// Which IPv6 addresses are worth telling, by their sixteen-bit parts: not those
/// whose first part is `ff00` to `ffff` or `fe80` to `febf`, not those that are
/// all zero but for a last part of at most 1, and all others.
#[verifier::rlimit(40)]
pub proof fn worthy_by_parts(o: Seq<u8>, parts: Seq<int>)
    requires
        o.len() == 16,
        parts.len() == 8,
        forall|i: int| 0 <= i < 8 ==> #[trigger] parts[i] == o[2 * i] * 256 + o[2 * i + 1],
    ensures
        worthy(IpModel::V6(o)) <==> {
            &&& !(0xff00 <= parts[0] <= 0xffff)
            &&& !(0xfe80 <= parts[0] <= 0xfebf)
            &&& !((forall|i: int| 0 <= i < 7 ==> #[trigger] parts[i] == 0) && parts[7] <= 1)
        },
{
    assert(parts[0] == o[0] * 256 + o[1]);
    assert(parts[7] == o[14] * 256 + o[15]);
    if (forall|i: int| 0 <= i < 7 ==> #[trigger] parts[i] == 0) && parts[7] <= 1 {
        assert forall|j: int| 0 <= j < 15 implies #[trigger] o[j] == 0 by {
            let i = j / 2;
            assert(parts[i] == o[2 * i] * 256 + o[2 * i + 1]);
            assert(j == 2 * i || j == 2 * i + 1);
            if i < 7 {
                assert(parts[i] == 0);
            }
        }
    }
    if all_zero(o, 15) && o[15] <= 1 {
        assert(o[14] == 0);
        assert forall|i: int| 0 <= i < 7 implies #[trigger] parts[i] == 0 by {
            assert(o[2 * i] == 0 && o[2 * i + 1] == 0);
        }
    }
}

/// What is told: the address of each interface that is up, not the loopback and
/// not one to skip, where it is worth telling, with the port, in order.
pub proof fn shared_entries(ifaces: Seq<InterfaceModel>, skip: Seq<Seq<char>>, port: u16)
    ensures
        ({
            let told = ifaces.filter(
                |i: InterfaceModel|
                    i.up && !i.loopback && !skip.contains(i.name) && worthy(i.ip),
            );
            let r = shared_of(ifaces, skip, port);
            &&& r.len() == told.len()
            &&& forall|i: int|
                0 <= i < r.len() ==> (#[trigger] r[i]).ip == told[i].ip && r[i].port == port
        }),
    decreases ifaces.len(),
{
    reveal(Seq::filter);
    if ifaces.len() > 0 {
        shared_entries(ifaces.drop_last(), skip, port);
        let head = shared_of(ifaces.drop_last(), skip, port);
        let all = shared_of(ifaces, skip, port);
        assert forall|i: int| 0 <= i < head.len() implies #[trigger] all[i] == head[i] by {}
    }
}

/// Whether an interface is told of depends on nothing but the interface and the
/// names to skip: leaving one out takes its own address off the list and no
/// other.
#[verifier::rlimit(40)]
pub proof fn told_one_by_one(
    a: Seq<InterfaceModel>,
    i: InterfaceModel,
    b: Seq<InterfaceModel>,
    skip: Seq<Seq<char>>,
    port: u16,
)
    ensures
        shared_of(a + b, skip, port) == shared_of(a, skip, port) + shared_of(b, skip, port),
        !i.up || i.loopback || skip.contains(i.name) ==> shared_of(seq![i] + b, skip, port)
            == shared_of(b, skip, port),
    decreases b.len(),
{
    let x = shared_of(a, skip, port);
    if b.len() == 0 {
        assert(a + b =~= a);
        assert(x + shared_of(b, skip, port) =~= x);
    } else {
        let c = b.drop_last();
        told_one_by_one(a, i, c, skip, port);
        assert((a + b).drop_last() =~= a + c);
        assert((a + b).last() == b.last());
        assert(shared_of(a + b, skip, port) =~= x + shared_of(b, skip, port));
        assert((seq![i] + b).drop_last() =~= seq![i] + c);
        assert((seq![i] + b).last() == b.last());
    }
    if b.len() == 0 {
        assert((seq![i] + b).drop_last() =~= b);
        assert((seq![i] + b).last() == i);
    }
}

} // verus!
