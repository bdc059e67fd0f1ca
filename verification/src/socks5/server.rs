use vstd::prelude::*;
use vstd::utf8::{decode_utf8, valid_utf8};

use crate::error::ProxyError;
use crate::socks5::{ip_octets, Address, AddressModel, IpAddress};
use crate::text::utf8_string;
use crate::wire::{be16, copy_range, from_be16, lemma_be16_value, put_slice, put_u16, put_u8, u16_from_be};

verus! {

/// The SOCKS protocol version this server speaks.
pub const SOCKS5_VERSION: u8 = 0x05;

/// The authentication method it picks: none.
pub const NO_AUTH: u8 = 0x00;

/// The only command it serves.
pub const CMD_CONNECT: u8 = 0x01;

/// Address type of an IPv4 address.
pub const IPV4: u8 = 0x01;

/// Address type of an IPv6 address.
pub const IPV6: u8 = 0x04;

/// Address type of a domain name.
pub const DOMAIN_NAME: u8 = 0x03;

/// The kind of address that follows a request header.
#[derive(Clone, Copy, Debug, PartialEq, Eq)]
pub enum AddressKind {
    Ipv4,
    Ipv6,
    Domain,
}

/// Why a request is refused, and the reply code to send the client first,
/// where one is sent.
pub struct RequestError {
    pub error: ProxyError,
    pub reply: Option<u8>,
}

/// Checks the first two bytes of a greeting (version and number of
/// methods) and gives the number of method bytes that follow.
pub fn check_greeting(header: [u8; 2]) -> (r: Result<usize, ProxyError>)
    ensures
        header@[0] != SOCKS5_VERSION ==> r matches Err(ProxyError::InvalidVersion),
        header@[0] == SOCKS5_VERSION ==> r == Ok::<usize, ProxyError>(header@[1] as usize),
{
    if header[0] != SOCKS5_VERSION {
        return Err(ProxyError::InvalidVersion);
    }
    Ok(header[1] as usize)
}

/// The kind of address an address-type byte names, or the refusal of an
/// unknown one.
pub open spec fn address_kind(atyp: u8) -> Result<AddressKind, RequestError> {
    if atyp == IPV4 {
        Ok(AddressKind::Ipv4)
    } else if atyp == IPV6 {
        Ok(AddressKind::Ipv6)
    } else if atyp == DOMAIN_NAME {
        Ok(AddressKind::Domain)
    } else {
        Err(RequestError { error: ProxyError::InvalidAddressType, reply: Some(0x08) })
    }
}

/// Checks a request header (version, command, reserved byte, address type)
/// in that order, and names the kind of address that follows.
pub fn parse_request_header(header: [u8; 4]) -> (r: Result<AddressKind, RequestError>)
    ensures
        header@[0] != SOCKS5_VERSION ==> r matches Err(
            RequestError { error: ProxyError::InvalidVersion, reply: None },
        ),
        header@[0] == SOCKS5_VERSION && header@[1] != CMD_CONNECT ==> (r matches Err(
            RequestError { error: ProxyError::UnsupportedCommand, reply: Some(c) },
        ) && c == 0x07),
        header@[0] == SOCKS5_VERSION && header@[1] == CMD_CONNECT && header@[2] != 0 ==> r matches Err(
            RequestError { error: ProxyError::InvalidReserved, reply: None },
        ),
        header@[0] == SOCKS5_VERSION && header@[1] == CMD_CONNECT && header@[2] == 0 ==> r
            == address_kind(header@[3]),
{
    if header[0] != SOCKS5_VERSION {
        return Err(RequestError { error: ProxyError::InvalidVersion, reply: None });
    }
    if header[1] != CMD_CONNECT {
        return Err(RequestError { error: ProxyError::UnsupportedCommand, reply: Some(0x07) });
    }
    if header[2] != 0x00 {
        return Err(RequestError { error: ProxyError::InvalidReserved, reply: None });
    }
    if header[3] == IPV4 {
        Ok(AddressKind::Ipv4)
    } else if header[3] == IPV6 {
        Ok(AddressKind::Ipv6)
    } else if header[3] == DOMAIN_NAME {
        Ok(AddressKind::Domain)
    } else {
        Err(RequestError { error: ProxyError::InvalidAddressType, reply: Some(0x08) })
    }
}

/// Reads an IPv4 target: four octets and a big-endian port.
pub fn parse_ipv4_target(buffer: [u8; 6]) -> (r: Result<Address, ProxyError>)
    ensures
        r matches Ok(a) && a@ == AddressModel::Ip(
            IpAddress::V4([buffer@[0], buffer@[1], buffer@[2], buffer@[3]]),
            from_be16(buffer@.subrange(4, 6)),
        ),
{
    let addr: [u8; 4] = [buffer[0], buffer[1], buffer[2], buffer[3]];
    let port = u16_from_be(buffer[4], buffer[5]);
    assert(seq![buffer@[4], buffer@[5]] =~= buffer@.subrange(4, 6));
    Ok(Address::IP(IpAddress::V4(addr), port))
}

/// Reads an IPv6 target: sixteen octets and a big-endian port.
pub fn parse_ipv6_target(buffer: [u8; 18]) -> (r: Result<Address, ProxyError>)
    ensures
        r matches Ok(a) && a@ matches AddressModel::Ip(IpAddress::V6(o), port) && o@
            == buffer@.subrange(0, 16) && port == from_be16(buffer@.subrange(16, 18)),
{
    let addr: [u8; 16] = [
        buffer[0],
        buffer[1],
        buffer[2],
        buffer[3],
        buffer[4],
        buffer[5],
        buffer[6],
        buffer[7],
        buffer[8],
        buffer[9],
        buffer[10],
        buffer[11],
        buffer[12],
        buffer[13],
        buffer[14],
        buffer[15],
    ];
    let port = u16_from_be(buffer[16], buffer[17]);
    assert(addr@ =~= buffer@.subrange(0, 16));
    assert(seq![buffer@[16], buffer@[17]] =~= buffer@.subrange(16, 18));
    Ok(Address::IP(IpAddress::V6(addr), port))
}

/// Reads a domain target from what one read gave after the length byte
/// `len`: the name is the first `len` bytes, in UTF-8, and exactly two
/// bytes of port must follow it.
pub fn parse_domain_target(buffer: &Vec<u8>, len: usize) -> (r: Result<Address, ProxyError>)
    requires
        len <= buffer@.len(),
    ensures
        !valid_utf8(buffer@.subrange(0, len as int)) ==> r matches Err(ProxyError::InvalidUtf8),
        valid_utf8(buffer@.subrange(0, len as int)) && buffer@.len() != len + 2 ==> r matches Err(
            ProxyError::SliceLength,
        ),
        valid_utf8(buffer@.subrange(0, len as int)) && buffer@.len() == len + 2 ==> (r matches Ok(
            a,
        ) && a@ == AddressModel::Domain(
            decode_utf8(buffer@.subrange(0, len as int)),
            from_be16(buffer@.subrange(len as int, len + 2)),
        )),
{
    let name_bytes = copy_range(buffer.as_slice(), 0, len);
    let domain_name = match utf8_string(name_bytes) {
        Some(s) => s,
        None => return Err(ProxyError::InvalidUtf8),
    };
    let total = buffer.len();
    if total - len != 2 {
        return Err(ProxyError::SliceLength);
    }
    let port = u16_from_be(buffer[total - 2], buffer[total - 1]);
    assert(seq![buffer@[len as int], buffer@[len + 1]] =~= buffer@.subrange(
        len as int,
        len + 2,
    ));
    Ok(Address::DOMAIN(domain_name, port))
}

/// The kinds of failure to reach a target that the reply distinguishes.
#[derive(Clone, Copy, Debug, PartialEq, Eq)]
pub enum ConnectErrorKind {
    NotFound,
    NotConnected,
    PermissionDenied,
    ConnectionRefused,
    ConnectionAborted,
    ConnectionReset,
    AddrNotAvailable,
    TimedOut,
    Other,
}

/// The reply code for a failure to reach a target.
pub open spec fn reply_code(kind: ConnectErrorKind) -> u8 {
    match kind {
        ConnectErrorKind::NotFound | ConnectErrorKind::NotConnected => 0x03,
        ConnectErrorKind::PermissionDenied => 0x02,
        ConnectErrorKind::ConnectionRefused => 0x05,
        ConnectErrorKind::ConnectionAborted | ConnectErrorKind::ConnectionReset => 0x04,
        ConnectErrorKind::AddrNotAvailable => 0x08,
        ConnectErrorKind::TimedOut => 0x06,
        ConnectErrorKind::Other => 0x01,
    }
}

/// The reply code for a failure to reach a target.
pub fn error_code(kind: ConnectErrorKind) -> (r: u8)
    ensures
        r == reply_code(kind),
{
    match kind {
        ConnectErrorKind::NotFound | ConnectErrorKind::NotConnected => 0x03,
        ConnectErrorKind::PermissionDenied => 0x02,
        ConnectErrorKind::ConnectionRefused => 0x05,
        ConnectErrorKind::ConnectionAborted | ConnectErrorKind::ConnectionReset => 0x04,
        ConnectErrorKind::AddrNotAvailable => 0x08,
        ConnectErrorKind::TimedOut => 0x06,
        ConnectErrorKind::Other => 0x01,
    }
}

/// The reply that refuses a request with code `rsp`.
pub fn error_reply(rsp: u8) -> (r: [u8; 10])
    ensures
        r@ == seq![0x05u8, rsp, 0u8, 0x01u8, 0u8, 0u8, 0u8, 0u8, 0u8, 0u8],
{
    let r = [0x05, rsp, 0x00, 0x01, 0x00, 0x00, 0x00, 0x00, 0x00, 0x00];
    assert(r@ =~= seq![0x05u8, rsp, 0u8, 0x01u8, 0u8, 0u8, 0u8, 0u8, 0u8, 0u8]);
    r
}

/// The reply that accepts a request, naming the address the target was
/// reached at: version 5, success, a reserved zero, then type 1 with four
/// octets for IPv4 or type 4 with sixteen for IPv6, then the big-endian port.
pub open spec fn reply_bytes(ip: IpAddress, port: u16) -> Seq<u8> {
    seq![0x05u8, 0x00u8, 0x00u8] + seq![
        match ip {
            IpAddress::V4(_) => 0x01u8,
            IpAddress::V6(_) => 0x04u8,
        },
    ] + ip_octets(ip) + be16(port)
}

/// A success reply, byte by byte: `5, 0, 0`, the address type, every octet
/// of the address in network order, and the port, high byte first.
pub proof fn lemma_reply_layout(ip: IpAddress, port: u16)
    ensures
        ({
            let b = reply_bytes(ip, port);
            &&& b[0] == 0x05u8 && b[1] == 0x00u8 && b[2] == 0x00u8
            &&& ip matches IpAddress::V4(o) ==> {
                &&& b.len() == 10
                &&& b[3] == 0x01u8
                &&& forall|i: int| 0 <= i < 4 ==> #[trigger] b[4 + i] == o[i]
                &&& b[8] as int * 256 + b[9] as int == port as int
            }
            &&& ip matches IpAddress::V6(o) ==> {
                &&& b.len() == 22
                &&& b[3] == 0x04u8
                &&& forall|i: int| 0 <= i < 16 ==> #[trigger] b[4 + i] == o[i]
                &&& b[20] as int * 256 + b[21] as int == port as int
            }
        }),
{
    lemma_be16_value(port);
    let b = reply_bytes(ip, port);
    match ip {
        IpAddress::V4(o) => {
            assert forall|i: int| 0 <= i < 4 implies #[trigger] b[4 + i] == o[i] by {
                assert(b[4 + i] == ip_octets(ip)[i]);
            }
            assert(b[8] == be16(port)[0]);
            assert(b[9] == be16(port)[1]);
        },
        IpAddress::V6(o) => {
            assert forall|i: int| 0 <= i < 16 implies #[trigger] b[4 + i] == o[i] by {
                assert(b[4 + i] == ip_octets(ip)[i]);
            }
            assert(b[20] == be16(port)[0]);
            assert(b[21] == be16(port)[1]);
        },
    }
}

/// The reply that accepts a request, naming the address the target was
/// reached at.
pub fn connected_reply(ip: IpAddress, port: u16) -> (r: Vec<u8>)
    ensures
        r@ == reply_bytes(ip, port),
{
    let mut buffer: Vec<u8> = Vec::with_capacity(10);
    put_slice(&mut buffer, [0x05u8, 0x00, 0x00].as_slice());
    match ip {
        IpAddress::V4(octets) => {
            put_u8(&mut buffer, 0x01);
            put_slice(&mut buffer, octets.as_slice());
        },
        IpAddress::V6(octets) => {
            put_u8(&mut buffer, 0x04);
            put_slice(&mut buffer, octets.as_slice());
        },
    }
    put_u16(&mut buffer, port);
    buffer
}

} // verus!
