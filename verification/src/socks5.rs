use vstd::prelude::*;

pub mod server;

verus! {

/// An IP address as its octets.
#[derive(Clone, Copy, Debug, PartialEq, Eq)]
pub enum IpAddress {
    V4([u8; 4]),
    V6([u8; 16]),
}

/// The octets of an IP address.
pub open spec fn ip_octets(ip: IpAddress) -> Seq<u8> {
    match ip {
        IpAddress::V4(a) => a@,
        IpAddress::V6(a) => a@,
    }
}

/// The octets of an address are the address's own octets, in network order.
pub proof fn lemma_ip_octets_in_order(ip: IpAddress)
    ensures
        ip matches IpAddress::V4(o) ==> ip_octets(ip).len() == 4 && forall|i: int|
            0 <= i < 4 ==> #[trigger] ip_octets(ip)[i] == o[i],
        ip matches IpAddress::V6(o) ==> ip_octets(ip).len() == 16 && forall|i: int|
            0 <= i < 16 ==> #[trigger] ip_octets(ip)[i] == o[i],
{
}

/// A target address named in a SOCKS5 request.
pub enum Address {
    /// An IP address and a port.
    IP(IpAddress, u16),
    /// A domain name and a port.
    DOMAIN(String, u16),
}

/// The mathematical content of an address.
pub enum AddressModel {
    Ip(IpAddress, u16),
    Domain(Seq<char>, u16),
}

impl View for Address {
    type V = AddressModel;

    open spec fn view(&self) -> AddressModel {
        match self {
            Address::IP(ip, port) => AddressModel::Ip(*ip, *port),
            Address::DOMAIN(name, port) => AddressModel::Domain(name@, *port),
        }
    }
}

} // verus!
