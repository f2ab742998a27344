use wgmesh::net::{IpAddr, Ipv4Addr, Ipv6Addr, SocketAddr};
use wgmesh::stun::{
    binding_request, build_binding_request, parse_binding_response, parse_mapped, parse_xor_mapped,
    StunError, ATTR_MAPPED_ADDR, ATTR_XOR_MAPPED, BINDING_SUCCESS, MAGIC_COOKIE,
};

fn tx() -> [u8; 12] {
    let mut tx_id = [0u8; 12];
    for (i, b) in tx_id.iter_mut().enumerate() {
        *b = i as u8;
    }
    tx_id
}

fn v4(a: u8, b: u8, c: u8, d: u8, port: u16) -> SocketAddr {
    SocketAddr {
        ip: IpAddr::V4(Ipv4Addr::new(a, b, c, d)),
        port,
    }
}

#[test]
fn parse_xor_mapped_v4() {
    // Public addr: 203.0.113.7:51820
    let public = Ipv4Addr::new(203, 0, 113, 7);
    let port: u16 = 51820;

    let xport = port ^ ((MAGIC_COOKIE >> 16) as u16);
    let xaddr = public.bits ^ MAGIC_COOKIE;

    let mut tx_id = [0u8; 12];
    for (i, b) in tx_id.iter_mut().enumerate() {
        *b = i as u8;
    }

    let mut packet = vec![];
    // STUN header
    packet.extend_from_slice(&BINDING_SUCCESS.to_be_bytes());
    packet.extend_from_slice(&12u16.to_be_bytes()); // body len
    packet.extend_from_slice(&MAGIC_COOKIE.to_be_bytes());
    packet.extend_from_slice(&tx_id);
    // Attribute: XOR-MAPPED-ADDRESS (8-byte value: 0x00, family, xport, xaddr)
    packet.extend_from_slice(&ATTR_XOR_MAPPED.to_be_bytes());
    packet.extend_from_slice(&8u16.to_be_bytes());
    packet.push(0x00);
    packet.push(0x01); // family v4
    packet.extend_from_slice(&xport.to_be_bytes());
    packet.extend_from_slice(&xaddr.to_be_bytes());

    let sa = parse_binding_response(&packet, tx_id).unwrap();
    assert_eq!(
        sa,
        SocketAddr {
            ip: IpAddr::V4(public),
            port
        }
    );
}

fn packet(kind: u16, cookie: u32, tx_id: &[u8], body: &[u8]) -> Vec<u8> {
    let mut p = vec![];
    p.extend_from_slice(&kind.to_be_bytes());
    p.extend_from_slice(&(body.len() as u16).to_be_bytes());
    p.extend_from_slice(&cookie.to_be_bytes());
    p.extend_from_slice(tx_id);
    p.extend_from_slice(body);
    p
}

fn attribute(atype: u16, val: &[u8]) -> Vec<u8> {
    let mut p = vec![];
    p.extend_from_slice(&atype.to_be_bytes());
    p.extend_from_slice(&(val.len() as u16).to_be_bytes());
    p.extend_from_slice(val);
    while p.len() % 4 != 0 {
        p.push(0);
    }
    p
}

fn read(body: &[u8]) -> Result<SocketAddr, StunError> {
    parse_binding_response(&packet(BINDING_SUCCESS, MAGIC_COOKIE, &tx(), body), tx())
}

#[test]
fn requests_carry_their_number() {
    let r = binding_request(&tx());
    assert_eq!(r[..8], [0, 1, 0, 0, 0x21, 0x12, 0xA4, 0x42]);
    assert_eq!(r[8..], tx());
    let (r, id) = build_binding_request();
    assert_eq!(r, binding_request(&id));
    let (_, other) = build_binding_request();
    assert_ne!(id, other);
}

#[test]
fn plain_addresses_are_read_as_they_are() {
    let val = [0, 1, 0x12, 0x34, 192, 0, 2, 9];
    assert_eq!(parse_mapped(&val).unwrap(), v4(192, 0, 2, 9, 0x1234));
    assert_eq!(read(&attribute(ATTR_MAPPED_ADDR, &val)).unwrap(), v4(192, 0, 2, 9, 0x1234));
    let mut val = vec![0, 2, 0, 80];
    val.extend_from_slice(&[7u8; 16]);
    let a = parse_mapped(&val).unwrap();
    assert_eq!(a.ip, IpAddr::V6(Ipv6Addr { octets: [7u8; 16] }));
    assert_eq!(a.port, 80);
}

#[test]
fn six_is_combined_with_cookie_and_number() {
    let want = [0x20u8, 1, 0x0d, 0xb8, 0, 0, 0, 0, 0, 0, 0, 0, 0, 0, 0, 1];
    let mut key = MAGIC_COOKIE.to_be_bytes().to_vec();
    key.extend_from_slice(&tx());
    let mut val = vec![0, 2];
    val.extend_from_slice(&(443u16 ^ 0x2112).to_be_bytes());
    for i in 0..16 {
        val.push(want[i] ^ key[i]);
    }
    let a = parse_xor_mapped(&val, &tx()).unwrap();
    assert_eq!(a.ip, IpAddr::V6(Ipv6Addr { octets: want }));
    assert_eq!(a.port, 443);
    assert_eq!(read(&attribute(ATTR_XOR_MAPPED, &val)).unwrap(), a);
}

#[test]
fn attributes_without_an_address_are_passed_over() {
    let mut body = attribute(0x8022, b"server");
    body.extend(attribute(ATTR_XOR_MAPPED, &[0, 9, 0, 0, 0, 0, 0, 0]));
    body.extend(attribute(ATTR_MAPPED_ADDR, &[0, 1, 0, 5, 1, 2, 3, 4]));
    body.extend([1, 2, 3]);
    assert_eq!(read(&body).unwrap(), v4(1, 2, 3, 4, 5));
    assert!(matches!(read(&attribute(0x8022, b"server")), Err(StunError::NoMappedAddress)));
    // The last attribute may lack its padding.
    assert!(matches!(read(&[0x80, 0x22, 0, 1, 9]), Err(StunError::NoMappedAddress)));
}

#[test]
fn responses_that_make_no_sense_are_refused() {
    assert!(matches!(parse_binding_response(&[0; 19], tx()), Err(StunError::ShortResponse)));
    let p = packet(BINDING_SUCCESS, 1, &tx(), &[]);
    assert!(matches!(parse_binding_response(&p, tx()), Err(StunError::BadMagic)));
    let p = packet(BINDING_SUCCESS, MAGIC_COOKIE, &[9; 12], &[]);
    assert!(matches!(parse_binding_response(&p, tx()), Err(StunError::TxidMismatch)));
    let p = packet(0x0111, MAGIC_COOKIE, &tx(), &[]);
    assert!(matches!(parse_binding_response(&p, tx()), Err(StunError::UnexpectedType(0x0111))));
    let mut p = packet(BINDING_SUCCESS, MAGIC_COOKIE, &tx(), &[]);
    p[3] = 4;
    assert!(matches!(parse_binding_response(&p, tx()), Err(StunError::TruncatedAttribute)));
    assert!(matches!(read(&[0, 1, 0, 9, 0, 0, 0, 0]), Err(StunError::TruncatedAttribute)));
    assert!(matches!(parse_mapped(&[0; 7]), Err(StunError::ShortResponse)));
    assert!(matches!(parse_mapped(&[0, 3, 0, 0, 0, 0, 0, 0]), Err(StunError::UnknownFamily(3))));
    assert!(matches!(parse_mapped(&[0, 2, 0, 0, 0, 0, 0, 0]), Err(StunError::ShortResponse)));
    assert!(matches!(parse_xor_mapped(&[0; 7], &tx()), Err(StunError::ShortResponse)));
    assert!(matches!(
        parse_xor_mapped(&[0, 2, 0, 0, 0, 0, 0, 0], &tx()),
        Err(StunError::ShortResponse)
    ));
}

#[test]
fn stun_errors_have_their_wording() {
    assert_eq!(StunError::Io("x".into()).message(), "io: x");
    assert_eq!(StunError::Resolve("h".into()).message(), "resolve h: no addresses");
    assert_eq!(StunError::ShortResponse.message(), "stun: response too short");
    assert_eq!(StunError::BadMagic.message(), "stun: bad magic cookie");
    assert_eq!(StunError::TxidMismatch.message(), "stun: txid mismatch");
    assert_eq!(
        StunError::UnexpectedType(0x0a1).message(),
        "stun: unexpected message type 0x00a1"
    );
    assert_eq!(StunError::TruncatedAttribute.message(), "stun: truncated attribute");
    assert_eq!(StunError::UnknownFamily(7).message(), "stun: unknown address family 0x07");
    assert_eq!(
        StunError::NoMappedAddress.message(),
        "stun: no XOR-MAPPED-ADDRESS in response"
    );
}
