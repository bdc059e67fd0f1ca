use vstd::prelude::*;

use crate::socks5::{ip_octets, Address, AddressModel, IpAddress};
use vstd::utf8::encode_utf8;

use crate::text::text_bytes;
use crate::wire::{be16, lemma_be16_value, put_slice, put_u16, put_u8};

verus! {

/// Type byte of a message that opens a channel.
pub const CONNECT: u8 = 0x01;

/// Type byte of a message that closes a channel.
pub const DISCONNECT: u8 = 0x02;

/// Type byte of a message that carries data.
pub const DATA: u8 = 0x03;

/// Type byte of a keep-alive message.
pub const HEARTBEAT: u8 = 0x04;

/// The host part of an address on the wire: the octets of an IP address,
/// or the UTF-8 bytes of a domain name.
pub open spec fn host_bytes(a: AddressModel) -> Seq<u8> {
    match a {
        AddressModel::Ip(ip, _) => ip_octets(ip),
        AddressModel::Domain(name, _) => text_bytes(name),
    }
}

/// The port of an address.
pub open spec fn port_of(a: AddressModel) -> u16 {
    match a {
        AddressModel::Ip(_, port) => port,
        AddressModel::Domain(_, port) => port,
    }
}

/// The bytes of a message that opens channel `id` to `a`: the type byte,
/// the channel id, the host, a colon and the big-endian port.
pub open spec fn connect_build_bytes(a: AddressModel, id: Seq<char>) -> Seq<u8> {
    seq![CONNECT] + text_bytes(id) + host_bytes(a) + seq![0x3a_u8] + be16(port_of(a))
}

/// A connect message, byte by byte: type byte 1, the UTF-8 bytes of the
/// channel id, the whole host (every octet of an IP address in network
/// order, or the UTF-8 bytes of a domain name), `':'`, and the port, high
/// byte first.
pub proof fn lemma_connect_build_layout(a: AddressModel, id: Seq<char>)
    ensures
        ({
            let b = connect_build_bytes(a, id);
            let i = encode_utf8(id).len() as int;
            let host = match a {
                AddressModel::Ip(IpAddress::V4(o), _) => o@,
                AddressModel::Ip(IpAddress::V6(o), _) => o@,
                AddressModel::Domain(name, _) => encode_utf8(name),
            };
            let port = match a {
                AddressModel::Ip(_, p) => p,
                AddressModel::Domain(_, p) => p,
            };
            let h = host.len() as int;
            &&& b.len() == 1 + i + h + 3
            &&& b[0] == 0x01u8
            &&& b.subrange(1, 1 + i) == encode_utf8(id)
            &&& b.subrange(1 + i, 1 + i + h) == host
            &&& b[1 + i + h] == 0x3au8
            &&& b[2 + i + h] as int * 256 + b[3 + i + h] as int == port as int
        }),
{
    let b = connect_build_bytes(a, id);
    let i = encode_utf8(id).len() as int;
    let h = host_bytes(a).len() as int;
    lemma_be16_value(port_of(a));
    assert(b.subrange(1, 1 + i) =~= encode_utf8(id));
    assert(b.subrange(1 + i, 1 + i + h) =~= host_bytes(a));
    assert(b[2 + i + h] == be16(port_of(a))[0]);
    assert(b[3 + i + h] == be16(port_of(a))[1]);
}

/// A message that opens channel `channel_id` to `addr`: the type byte, the
/// channel id, the host, a colon and the big-endian port.
pub fn connect_msg_build(addr: Address, channel_id: String) -> (r: Vec<u8>)
    ensures
        r@ == connect_build_bytes(addr@, channel_id@),
{
    let mut buffer: Vec<u8> = Vec::new();

    put_u8(&mut buffer, CONNECT);
    put_slice(&mut buffer, channel_id.as_str().as_bytes());

    let port = match addr {
        Address::IP(host, port) => {
            match host {
                IpAddress::V4(octets) => put_slice(&mut buffer, octets.as_slice()),
                IpAddress::V6(octets) => put_slice(&mut buffer, octets.as_slice()),
            }
            port
        },
        Address::DOMAIN(domain_name, port) => {
            put_slice(&mut buffer, domain_name.as_str().as_bytes());
            port
        },
    };

    put_u8(&mut buffer, 0x3a);
    put_u16(&mut buffer, port);
    buffer
}

/// A message that closes channel `channel_id`: the type byte and the id.
pub fn disconnect_msg_build(channel_id: String) -> (r: Vec<u8>)
    ensures
        r@ == seq![DISCONNECT] + text_bytes(channel_id@),
{
    let mut buffer: Vec<u8> = Vec::new();

    put_u8(&mut buffer, DISCONNECT);
    put_slice(&mut buffer, channel_id.as_str().as_bytes());
    buffer
}

/// A data message: the data followed by the channel id, with no type byte.
pub fn data_msg_build(data: Vec<u8>, channel_id: String) -> (r: Vec<u8>)
    ensures
        r@ == data@ + text_bytes(channel_id@),
{
    let mut buffer: Vec<u8> = Vec::new();

    put_slice(&mut buffer, data.as_slice());
    put_slice(&mut buffer, channel_id.as_str().as_bytes());
    buffer
}

} // verus!
