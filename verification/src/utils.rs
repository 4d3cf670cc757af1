//! Client addresses and address blocks. An address is held as its bits so
//! that block membership is plain integer masking; the textual forms are
//! parsed by the `ipnetwork` crate behind a trusted boundary.

use vstd::prelude::*;
use crate::config::ConfigError;

verus! {

/// A client address: the 32 bits of an IPv4 address or the 128 bits of an
/// IPv6 address.
#[derive(Debug, Clone, Copy, PartialEq, Eq, Structural)]
pub enum IpAddress {
    V4(u32),
    V6(u128),
}

impl IpAddress {
    /// The 128-bit key an address is tracked under; an IPv4 address maps to
    /// its IPv4-mapped IPv6 form.
    pub open spec fn spec_key(self) -> u128 {
        match self {
            IpAddress::V4(a) => (0xffff00000000u128 + a) as u128,
            IpAddress::V6(a) => a,
        }
    }

    pub fn key(self) -> (r: u128)
        ensures
            r == self.spec_key(),
    {
        match self {
            IpAddress::V4(a) => 0xffff00000000u128 + (a as u128),
            IpAddress::V6(a) => a,
        }
    }
}

/// An address block: a masked base address and a prefix length.
#[derive(Debug, Clone, Copy)]
pub struct Cidr {
    pub v4: bool,
    pub addr4: u32,
    pub addr6: u128,
    pub prefix: u8,
}

/// The high-ones mask that keeps the first `p` bits of an IPv4 address.
pub open spec fn spec_mask4(p: u8) -> u32 {
    (!(0xffffffffu64 >> p)) as u32
}

/// The high-ones mask that keeps the first `p` bits of an IPv6 address.
pub open spec fn spec_mask6(p: u8) -> u128 {
    if p == 0 {
        0u128
    } else {
        u128::MAX << (128 - p)
    }
}

impl Cidr {
    /// A prefix length never exceeds the address width.
    pub open spec fn wf(self) -> bool {
        if self.v4 {
            self.prefix <= 32
        } else {
            self.prefix <= 128
        }
    }

    /// Whether an address lies in this block: same version, and equal under
    /// the prefix mask. An IPv4 block never contains an IPv6 address nor the
    /// reverse.
    pub open spec fn spec_contains(self, ip: IpAddress) -> bool {
        match ip {
            IpAddress::V4(a) => self.v4 && (a & spec_mask4(self.prefix)) == (self.addr4 & spec_mask4(
                self.prefix,
            )),
            IpAddress::V6(a) => !self.v4 && (a & spec_mask6(self.prefix)) == (self.addr6 & spec_mask6(
                self.prefix,
            )),
        }
    }
}

/// What `ipnetwork`'s text parser yields for a given text: the version, the
/// masked base address, and the prefix length.
pub uninterp spec fn parsed_network(s: Seq<char>) -> Option<(bool, u32, u128, u8)>;

/// Relies on `ipnetwork::IpNetwork::from_str` with `network()` and
/// `prefix()`: parses an address or CIDR text (a bare address gets the full
/// prefix), yielding the masked network base; the prefix is at most 32 for
/// IPv4 and 128 for IPv6.
#[verifier::external_body]
fn parse_network_text(s: &str) -> (r: Option<(bool, u32, u128, u8)>)
    ensures
        r == parsed_network(s@),
        r matches Some(t) ==> (t.0 ==> t.3 <= 32) && (!t.0 ==> t.3 <= 128),
{
    match s.parse::<ipnetwork::IpNetwork>() {
        Ok(ipnetwork::IpNetwork::V4(n)) => Some((true, u32::from(n.network()), 0u128, n.prefix())),
        Ok(ipnetwork::IpNetwork::V6(n)) => Some((false, 0u32, u128::from(n.network()), n.prefix())),
        Err(_) => None,
    }
}

/// Parse an address or CIDR text into a block; succeeds exactly when the
/// text parser reads it.
pub fn parse_ip_or_cidr(input: &str) -> (r: Result<Cidr, ConfigError>)
    ensures
        match parsed_network(input@) {
            Some(t) => r matches Ok(c) && c.v4 == t.0 && c.addr4 == t.1 && c.addr6 == t.2
                && c.prefix == t.3 && c.wf(),
            None => r matches Err(ConfigError::InvalidAddress),
        },
{
    match parse_network_text(input) {
        Some((v4, addr4, addr6, prefix)) => Ok(Cidr { v4, addr4, addr6, prefix }),
        None => Err(ConfigError::InvalidAddress),
    }
}

/// Whether an address lies in a block.
pub fn ip_in_network(ip: IpAddress, network: &Cidr) -> (r: bool)
    requires
        network.wf(),
    ensures
        r == network.spec_contains(ip),
{
    match ip {
        IpAddress::V4(a) => {
            if !network.v4 {
                return false;
            }
            let mask = (!(0xffffffffu64 >> network.prefix)) as u32;
            (a & mask) == (network.addr4 & mask)
        },
        IpAddress::V6(a) => {
            if network.v4 {
                return false;
            }
            let mask: u128 = if network.prefix == 0 {
                0
            } else {
                u128::MAX << ((128 - network.prefix) as u128)
            };
            (a & mask) == (network.addr6 & mask)
        },
    }
}

} // verus!
