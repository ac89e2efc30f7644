//! IP addresses and networks as plain numbers, and the test whether an
//! address lies in a network.

use vstd::prelude::*;

verus! {

/// An IPv4 or IPv6 address, held as the number its bytes spell in network
/// order.
#[derive(Clone, Copy, Debug, PartialEq, Eq, Structural)]
pub enum IpAddress {
    V4(u32),
    V6(u128),
}

/// An address together with its prefix length: the number of leading bits
/// that name the network.
#[derive(Clone, Copy, Debug, PartialEq, Eq, Structural)]
pub enum IpNetwork {
    V4(u32, u8),
    V6(u128, u8),
}

/// The address that `text` spells in the standard textual form, if it spells
/// one.
pub uninterp spec fn address_of(text: Seq<char>) -> Option<IpAddress>;

/// The network that `text` spells as an address, a slash and a prefix length,
/// if it spells one.
pub uninterp spec fn network_of(text: Seq<char>) -> Option<IpNetwork>;

/// Calls the standard library's parser of `core::net::IpAddr`. The result
/// depends on the text alone; the contract gives it a name and says nothing
/// about which texts are accepted.
#[verifier::external_body]
pub(crate) fn parse_ip(text: &str) -> (r: Option<IpAddress>)
    ensures
        r == address_of(text@),
{
    match text.parse::<core::net::IpAddr>() {
        Ok(core::net::IpAddr::V4(a)) => Some(IpAddress::V4(u32::from(a))),
        Ok(core::net::IpAddr::V6(a)) => Some(IpAddress::V6(u128::from(a))),
        Err(_) => None,
    }
}

/// Calls `ipnet::IpNet::from_str` and copies out the address and the prefix
/// length of the network it read. The result depends on the text alone; the
/// contract gives it a name and says nothing about which texts are accepted.
#[verifier::external_body]
pub(crate) fn parse_net(text: &str) -> (r: Option<IpNetwork>)
    ensures
        r == network_of(text@),
{
    match text.parse::<ipnet::IpNet>() {
        Ok(ipnet::IpNet::V4(n)) => Some(IpNetwork::V4(u32::from(n.addr()), n.prefix_len())),
        Ok(ipnet::IpNet::V6(n)) => Some(IpNetwork::V6(u128::from(n.addr()), n.prefix_len())),
        Err(_) => None,
    }
}

/// The IPv4 mask with the first `prefix_len` bits set (all of them from 32 on).
pub open spec fn netmask_v4(prefix_len: u8) -> u32 {
    if prefix_len == 0 {
        0u32
    } else if prefix_len >= 32 {
        0xffff_ffffu32
    } else {
        0xffff_ffffu32 << ((32 - prefix_len) as u32)
    }
}

/// The IPv6 mask with the first `prefix_len` bits set (all of them from 128 on).
pub open spec fn netmask_v6(prefix_len: u8) -> u128 {
    if prefix_len == 0 {
        0u128
    } else if prefix_len >= 128 {
        0xffff_ffff_ffff_ffff_ffff_ffff_ffff_ffffu128
    } else {
        0xffff_ffff_ffff_ffff_ffff_ffff_ffff_ffffu128 << ((128 - prefix_len) as u128)
    }
}

impl IpNetwork {
    /// Whether `ip` lies between the network's first address (the host bits
    /// cleared) and its last (the host bits set). An address of the other
    /// family lies in no network.
    pub open spec fn spec_contains(self, ip: IpAddress) -> bool {
        match (self, ip) {
            (IpNetwork::V4(address, prefix_len), IpAddress::V4(a)) => {
                let mask = netmask_v4(prefix_len);
                (address & mask) <= a <= (address | !mask)
            },
            (IpNetwork::V6(address, prefix_len), IpAddress::V6(a)) => {
                let mask = netmask_v6(prefix_len);
                (address & mask) <= a <= (address | !mask)
            },
            _ => false,
        }
    }

    /// Tells whether `ip` belongs to this network.
    #[verifier::when_used_as_spec(spec_contains)]
    pub fn contains(self, ip: IpAddress) -> (r: bool)
        ensures
            r == self.spec_contains(ip),
    {
        match (self, ip) {
            (IpNetwork::V4(address, prefix_len), IpAddress::V4(a)) => {
                let mask: u32 = if prefix_len == 0 {
                    0u32
                } else if prefix_len >= 32 {
                    0xffff_ffffu32
                } else {
                    0xffff_ffffu32 << ((32 - prefix_len) as u32)
                };
                (address & mask) <= a && a <= (address | !mask)
            },
            (IpNetwork::V6(address, prefix_len), IpAddress::V6(a)) => {
                let mask: u128 = if prefix_len == 0 {
                    0u128
                } else if prefix_len >= 128 {
                    0xffff_ffff_ffff_ffff_ffff_ffff_ffff_ffffu128
                } else {
                    0xffff_ffff_ffff_ffff_ffff_ffff_ffff_ffffu128 << ((128 - prefix_len) as u128)
                };
                (address & mask) <= a && a <= (address | !mask)
            },
            _ => false,
        }
    }
}

/// What [`ip_matches_cidr`] returns: membership where `cidr` spells a
/// network, equality where it spells a single address, `false` otherwise.
pub open spec fn matches_cidr(ip: IpAddress, cidr: Seq<char>) -> bool {
    match network_of(cidr) {
        Some(net) => net.spec_contains(ip),
        None => address_of(cidr) == Some(ip),
    }
}

/// Reads `text` as an IP address.
pub fn parse_address(text: &str) -> (r: Option<IpAddress>)
    ensures
        r == address_of(text@),
{
    parse_ip(text)
}

/// Tests `ip` against `cidr`, read as a network or, failing that, as one
/// address.
pub fn ip_matches_cidr(ip: IpAddress, cidr: &str) -> (r: bool)
    ensures
        r == matches_cidr(ip, cidr@),
{
    match parse_net(cidr) {
        Some(net) => net.contains(ip),
        None => match parse_ip(cidr) {
            Some(only) => only == ip,
            None => false,
        },
    }
}

} // verus!
