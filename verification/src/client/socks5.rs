use vstd::prelude::*;
use vstd::utf8::{decode_utf8, encode_utf8_decode_utf8, encode_utf8_valid_utf8, valid_utf8};

use crate::error::ProxyError;
use crate::socks5::{Address, AddressModel, IpAddress};
use crate::text::{text_bytes, utf8_string};
use crate::wire::{be16, copy_range, from_be16, lemma_be16_roundtrip, u16_from_be};

verus! {

/// The SOCKS protocol version this server speaks.
pub const SOCKS5_VERSION: u8 = 0x05;

/// The authentication method it picks: none.
pub const NO_AUTH: u8 = 0x00;

/// The only command it serves.
pub const CMD_CONNECT: u8 = 0x01;

/// Address type of an IPv4 address.
pub const IPV4: u8 = 0x01;

/// Address type of an IPv6 address.
pub const IPV6: u8 = 0x04;

/// Address type of a domain name.
pub const DOMAIN_NAME: u8 = 0x03;

/// Reply code for a command other than CONNECT.
pub const REP_COMMAND_NOT_SUPPORTED: u8 = 0x07;

/// Reply code for an unknown address type.
pub const REP_ADDRESS_TYPE_NOT_SUPPORTED: u8 = 0x08;

/// Checks the first two bytes of a client's greeting (version and number of
/// methods) and gives the number of method bytes that follow.
pub fn greeting_methods(header: [u8; 2]) -> (r: Result<usize, ProxyError>)
    ensures
        header@[0] != SOCKS5_VERSION ==> r matches Err(ProxyError::InvalidVersion),
        header@[0] == SOCKS5_VERSION ==> r == Ok::<usize, ProxyError>(header@[1] as usize),
{
    if header[0] != SOCKS5_VERSION {
        return Err(ProxyError::InvalidVersion);
    }
    Ok(header[1] as usize)
}

/// The answer to a greeting: version 5, no authentication.
pub fn greeting_reply() -> (r: [u8; 2])
    ensures
        r@ == seq![SOCKS5_VERSION, NO_AUTH],
{
    [SOCKS5_VERSION, NO_AUTH]
}

/// The kind of address that follows a request header.
#[derive(Clone, Copy, Debug, PartialEq, Eq)]
pub enum AddressKind {
    Ipv4,
    Ipv6,
    Domain,
}

/// Why a request is refused, and the reply code to send the client first,
/// where one is sent.
pub struct RequestError {
    pub error: ProxyError,
    pub reply: Option<u8>,
}

/// Checks a request header (version, command, reserved byte, address type)
/// in that order, and names the kind of address that follows.
pub fn parse_request_header(header: [u8; 4]) -> (r: Result<AddressKind, RequestError>)
    ensures
        header@[0] != SOCKS5_VERSION ==> r matches Err(
            RequestError { error: ProxyError::InvalidVersion, reply: None },
        ),
        header@[0] == SOCKS5_VERSION && header@[1] != CMD_CONNECT ==> (r matches Err(
            RequestError { error: ProxyError::UnsupportedCommand, reply: Some(c) },
        ) && c == REP_COMMAND_NOT_SUPPORTED),
        header@[0] == SOCKS5_VERSION && header@[1] == CMD_CONNECT && header@[2] != 0 ==> r matches Err(
            RequestError { error: ProxyError::InvalidReserved, reply: None },
        ),
        header@[0] == SOCKS5_VERSION && header@[1] == CMD_CONNECT && header@[2] == 0 ==> r
            == address_kind(header@[3]),
{
    if header[0] != SOCKS5_VERSION {
        return Err(RequestError { error: ProxyError::InvalidVersion, reply: None });
    }
    if header[1] != CMD_CONNECT {
        return Err(
            RequestError {
                error: ProxyError::UnsupportedCommand,
                reply: Some(REP_COMMAND_NOT_SUPPORTED),
            },
        );
    }
    if header[2] != 0x00 {
        return Err(RequestError { error: ProxyError::InvalidReserved, reply: None });
    }
    if header[3] == IPV4 {
        Ok(AddressKind::Ipv4)
    } else if header[3] == IPV6 {
        Ok(AddressKind::Ipv6)
    } else if header[3] == DOMAIN_NAME {
        Ok(AddressKind::Domain)
    } else {
        Err(
            RequestError {
                error: ProxyError::InvalidAddressType,
                reply: Some(REP_ADDRESS_TYPE_NOT_SUPPORTED),
            },
        )
    }
}

/// The kind of address an address-type byte names, or the refusal of an
/// unknown one.
pub open spec fn address_kind(atyp: u8) -> Result<AddressKind, RequestError> {
    if atyp == IPV4 {
        Ok(AddressKind::Ipv4)
    } else if atyp == IPV6 {
        Ok(AddressKind::Ipv6)
    } else if atyp == DOMAIN_NAME {
        Ok(AddressKind::Domain)
    } else {
        Err(
            RequestError {
                error: ProxyError::InvalidAddressType,
                reply: Some(REP_ADDRESS_TYPE_NOT_SUPPORTED),
            },
        )
    }
}

/// Reads an IPv4 target: four octets and a big-endian port.
pub fn parse_ipv4_target(buffer: [u8; 6]) -> (r: Address)
    ensures
        r@ == AddressModel::Ip(
            IpAddress::V4([buffer@[0], buffer@[1], buffer@[2], buffer@[3]]),
            from_be16(buffer@.subrange(4, 6)),
        ),
{
    let addr: [u8; 4] = [buffer[0], buffer[1], buffer[2], buffer[3]];
    let port = u16_from_be(buffer[4], buffer[5]);
    assert(seq![buffer@[4], buffer@[5]] =~= buffer@.subrange(4, 6));
    Address::IP(IpAddress::V4(addr), port)
}

/// Reads an IPv6 target: sixteen octets and a big-endian port.
pub fn parse_ipv6_target(buffer: [u8; 18]) -> (r: Address)
    ensures
        r@ matches AddressModel::Ip(IpAddress::V6(a), port) && a@ == buffer@.subrange(0, 16)
            && port == from_be16(buffer@.subrange(16, 18)),
{
    let addr: [u8; 16] = [
        buffer[0],
        buffer[1],
        buffer[2],
        buffer[3],
        buffer[4],
        buffer[5],
        buffer[6],
        buffer[7],
        buffer[8],
        buffer[9],
        buffer[10],
        buffer[11],
        buffer[12],
        buffer[13],
        buffer[14],
        buffer[15],
    ];
    let port = u16_from_be(buffer[16], buffer[17]);
    assert(addr@ =~= buffer@.subrange(0, 16));
    assert(seq![buffer@[16], buffer@[17]] =~= buffer@.subrange(16, 18));
    Address::IP(IpAddress::V6(addr), port)
}

/// Reads a domain target: `len` bytes of name in UTF-8 and a big-endian port.
pub fn parse_domain_target(buffer: &Vec<u8>, len: usize) -> (r: Result<Address, ProxyError>)
    requires
        buffer@.len() == len + 2,
    ensures
        valid_utf8(buffer@.subrange(0, len as int)) ==> (r matches Ok(a) && a@
            == AddressModel::Domain(
            decode_utf8(buffer@.subrange(0, len as int)),
            from_be16(buffer@.subrange(len as int, len + 2)),
        )),
        !valid_utf8(buffer@.subrange(0, len as int)) ==> r matches Err(ProxyError::InvalidUtf8),
{
    let name_bytes = copy_range(buffer.as_slice(), 0, len);
    let domain_name = match utf8_string(name_bytes) {
        Some(s) => s,
        None => return Err(ProxyError::InvalidUtf8),
    };
    let total = buffer.len();
    let port = u16_from_be(buffer[total - 2], buffer[total - 1]);
    assert(seq![buffer@[len as int], buffer@[len + 1]] =~= buffer@.subrange(
        len as int,
        len + 2,
    ));
    Ok(Address::DOMAIN(domain_name, port))
}

/// The reply that refuses a request with code `rsp`.
pub fn error_reply(rsp: u8) -> (r: [u8; 10])
    ensures
        r@ == seq![SOCKS5_VERSION, rsp, 0u8, IPV4, 0u8, 0u8, 0u8, 0u8, 0u8, 0u8],
{
    let r = [SOCKS5_VERSION, rsp, 0x00, IPV4, 0x00, 0x00, 0x00, 0x00, 0x00, 0x00];
    assert(r@ =~= seq![SOCKS5_VERSION, rsp, 0u8, IPV4, 0u8, 0u8, 0u8, 0u8, 0u8, 0u8]);
    r
}

/// The reply that accepts a request; the bound address is left as zeros.
pub fn success_reply() -> (r: [u8; 10])
    ensures
        r@ == seq![SOCKS5_VERSION, 0u8, 0u8, IPV4, 0u8, 0u8, 0u8, 0u8, 0u8, 0u8],
{
    error_reply(0x00)
}


/// The bytes a SOCKS5 client sends to ask for a connection to `a`: version,
/// CONNECT, a zero byte, the address type, then the octets of an IP address
/// or the length and UTF-8 bytes of a domain name, then the big-endian port.
pub open spec fn request_bytes(a: AddressModel) -> Seq<u8> {
    match a {
        AddressModel::Ip(IpAddress::V4(o), port) => seq![SOCKS5_VERSION, CMD_CONNECT, 0u8, IPV4]
            + o@ + be16(port),
        AddressModel::Ip(IpAddress::V6(o), port) => seq![SOCKS5_VERSION, CMD_CONNECT, 0u8, IPV6]
            + o@ + be16(port),
        AddressModel::Domain(name, port) => seq![
            SOCKS5_VERSION,
            CMD_CONNECT,
            0u8,
            DOMAIN_NAME,
            text_bytes(name).len() as u8,
        ] + text_bytes(name) + be16(port),
    }
}

/// A request that a client forms for an address is read back as that
/// address: the header is accepted and names the address's kind, and the
/// part that follows, read as that kind, gives the address. A domain name
/// must fit the one length byte.
pub proof fn lemma_request_roundtrip(a: AddressModel)
    requires
        a matches AddressModel::Domain(name, _) ==> text_bytes(name).len() <= 255,
    ensures
        ({
            let b = request_bytes(a);
            &&& b[0] == SOCKS5_VERSION && b[1] == CMD_CONNECT && b[2] == 0
            &&& match a {
                AddressModel::Ip(IpAddress::V4(o), port) => {
                    &&& b.len() == 10
                    &&& address_kind(b[3]) == Ok::<AddressKind, RequestError>(AddressKind::Ipv4)
                    &&& seq![b[4], b[5], b[6], b[7]] == o@
                    &&& from_be16(b.subrange(8, 10)) == port
                },
                AddressModel::Ip(IpAddress::V6(o), port) => {
                    &&& b.len() == 22
                    &&& address_kind(b[3]) == Ok::<AddressKind, RequestError>(AddressKind::Ipv6)
                    &&& b.subrange(4, 20) == o@
                    &&& from_be16(b.subrange(20, 22)) == port
                },
                AddressModel::Domain(name, port) => {
                    let len = b[4] as int;
                    &&& address_kind(b[3]) == Ok::<AddressKind, RequestError>(AddressKind::Domain)
                    &&& b.len() == 5 + len + 2
                    &&& valid_utf8(b.subrange(5, 5 + len))
                    &&& decode_utf8(b.subrange(5, 5 + len)) == name
                    &&& from_be16(b.subrange(5 + len, 7 + len)) == port
                },
            }
        }),
{
    let b = request_bytes(a);
    match a {
        AddressModel::Ip(IpAddress::V4(o), port) => {
            lemma_be16_roundtrip(port);
            assert(seq![b[4], b[5], b[6], b[7]] =~= o@);
            assert(b.subrange(8, 10) =~= be16(port));
        },
        AddressModel::Ip(IpAddress::V6(o), port) => {
            lemma_be16_roundtrip(port);
            assert(b.subrange(4, 20) =~= o@);
            assert(b.subrange(20, 22) =~= be16(port));
        },
        AddressModel::Domain(name, port) => {
            let len = text_bytes(name).len() as int;
            lemma_be16_roundtrip(port);
            encode_utf8_valid_utf8(name);
            encode_utf8_decode_utf8(name);
            assert(b[4] as int == len);
            assert(b.subrange(5, 5 + len) =~= text_bytes(name));
            assert(b.subrange(5 + len, 7 + len) =~= be16(port));
        },
    }
}

} // verus!
