use rs_proxy::client::socks5::{
    error_reply, greeting_methods, greeting_reply, parse_domain_target, parse_ipv4_target,
    parse_ipv6_target, parse_request_header, success_reply, AddressKind,
};
use rs_proxy::error::ProxyError;
use rs_proxy::socks5::server as srv;
use rs_proxy::socks5::server::ConnectErrorKind::{
    AddrNotAvailable, ConnectionAborted, ConnectionRefused, ConnectionReset, NotConnected,
    NotFound, Other, PermissionDenied, TimedOut,
};
use rs_proxy::socks5::{Address, IpAddress};

#[test]
fn greeting_is_checked() {
    assert!(matches!(greeting_methods([5, 2]), Ok(2)));
    assert!(matches!(greeting_methods([4, 1]), Err(ProxyError::InvalidVersion)));
    assert_eq!(greeting_reply(), [5, 0]);
}

#[test]
fn request_header_kinds() {
    assert!(matches!(parse_request_header([5, 1, 0, 1]), Ok(AddressKind::Ipv4)));
    assert!(matches!(parse_request_header([5, 1, 0, 4]), Ok(AddressKind::Ipv6)));
    assert!(matches!(parse_request_header([5, 1, 0, 3]), Ok(AddressKind::Domain)));
}

#[test]
fn request_header_refusals() {
    let e = parse_request_header([4, 1, 0, 1]).err().unwrap();
    assert!(matches!(e.error, ProxyError::InvalidVersion));
    assert_eq!(e.reply, None);

    let e = parse_request_header([5, 2, 0, 1]).err().unwrap();
    assert!(matches!(e.error, ProxyError::UnsupportedCommand));
    assert_eq!(e.reply, Some(0x07));

    let e = parse_request_header([5, 1, 1, 1]).err().unwrap();
    assert!(matches!(e.error, ProxyError::InvalidReserved));
    assert_eq!(e.reply, None);

    let e = parse_request_header([5, 1, 0, 2]).err().unwrap();
    assert!(matches!(e.error, ProxyError::InvalidAddressType));
    assert_eq!(e.reply, Some(0x08));
}

#[test]
fn ipv4_target() {
    match parse_ipv4_target([127, 0, 0, 1, 0x1F, 0x90]) {
        Address::IP(IpAddress::V4(o), port) => {
            assert_eq!(o, [127, 0, 0, 1]);
            assert_eq!(port, 8080);
        }
        _ => panic!("not an IPv4 address"),
    }
}

#[test]
fn ipv6_target() {
    let mut buf = [0u8; 18];
    buf[15] = 1;
    buf[16] = 0x01;
    buf[17] = 0xBB;
    match parse_ipv6_target(buf) {
        Address::IP(IpAddress::V6(o), port) => {
            assert_eq!(o[15], 1);
            assert_eq!(port, 443);
        }
        _ => panic!("not an IPv6 address"),
    }
}

#[test]
fn domain_target() {
    let mut buf = b"example.org".to_vec();
    buf.extend_from_slice(&[0, 80]);
    match parse_domain_target(&buf, 11) {
        Ok(Address::DOMAIN(name, port)) => {
            assert_eq!(name, "example.org");
            assert_eq!(port, 80);
        }
        _ => panic!("not a domain"),
    }
    let bad = vec![0xFF, 0xFE, 0, 80];
    assert!(matches!(parse_domain_target(&bad, 2), Err(ProxyError::InvalidUtf8)));
}

#[test]
fn replies() {
    assert_eq!(error_reply(0x07), [5, 7, 0, 1, 0, 0, 0, 0, 0, 0]);
    assert_eq!(success_reply(), [5, 0, 0, 1, 0, 0, 0, 0, 0, 0]);
}

#[test]
fn server_variant_header_and_targets() {
    assert!(matches!(srv::parse_request_header([5, 1, 0, 4]), Ok(srv::AddressKind::Ipv6)));
    assert!(matches!(srv::parse_request_header([5, 1, 0, 1]), Ok(srv::AddressKind::Ipv4)));
    assert!(matches!(srv::parse_request_header([5, 1, 0, 3]), Ok(srv::AddressKind::Domain)));
    assert!(matches!(
        srv::parse_request_header([5, 1, 0, 2]),
        Err(srv::RequestError { error: ProxyError::InvalidAddressType, reply: Some(8) })
    ));
    assert!(matches!(
        srv::parse_ipv4_target([127, 0, 0, 1, 0x1F, 0x90]),
        Ok(Address::IP(IpAddress::V4([127, 0, 0, 1]), 8080))
    ));
    let mut v6 = [0u8; 18];
    v6[15] = 1;
    v6[16] = 0x01;
    v6[17] = 0xBB;
    let mut octets = [0u8; 16];
    octets[15] = 1;
    assert!(matches!(srv::parse_ipv6_target(v6), Ok(Address::IP(IpAddress::V6(o), 443)) if o == octets));
    let mut buf = b"a.b".to_vec();
    buf.push(0);
    assert!(matches!(srv::parse_domain_target(&buf, 3), Err(ProxyError::SliceLength)));
    buf.push(22);
    assert!(matches!(srv::parse_domain_target(&buf, 3), Ok(Address::DOMAIN(_, 22))));
    assert!(matches!(srv::check_greeting([5, 0]), Ok(0)));
    assert!(matches!(srv::check_greeting([5, 3]), Ok(3)));
    assert!(matches!(srv::check_greeting([1, 0]), Err(ProxyError::InvalidVersion)));
}

#[test]
fn server_variant_replies() {
    assert_eq!(srv::error_code(NotFound), 3);
    assert_eq!(srv::error_code(NotConnected), 3);
    assert_eq!(srv::error_code(PermissionDenied), 2);
    assert_eq!(srv::error_code(ConnectionRefused), 5);
    assert_eq!(srv::error_code(ConnectionAborted), 4);
    assert_eq!(srv::error_code(ConnectionReset), 4);
    assert_eq!(srv::error_code(AddrNotAvailable), 8);
    assert_eq!(srv::error_code(TimedOut), 6);
    assert_eq!(srv::error_code(Other), 1);
    assert_eq!(
        srv::connected_reply(IpAddress::V4([10, 0, 0, 2]), 1080),
        vec![5, 0, 0, 1, 10, 0, 0, 2, 0x04, 0x38]
    );
    let v6 = srv::connected_reply(IpAddress::V6([0; 16]), 1);
    assert_eq!(v6.len(), 22);
    assert_eq!(v6[3], 4);
    assert_eq!(srv::error_reply(5), [5, 5, 0, 1, 0, 0, 0, 0, 0, 0]);
}
