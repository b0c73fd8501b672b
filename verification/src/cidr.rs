//! Parsed CIDR blocks and single addresses, as plain values.
//!
//! A network is held as its family, the bits of its base address and its
//! prefix length; an address as its family and bits.  A v4 address lives in
//! the low 32 bits.

use vstd::prelude::*;

verus! {

/// A parsed CIDR block: address family, base address bits and prefix length.
#[derive(Clone, Copy, Debug)]
pub struct Net {
    /// True for an IPv6 network, false for IPv4.
    pub v6: bool,
    /// The bits of the address written before the slash (low 32 bits for v4).
    pub bits: u128,
    /// The prefix length after the slash.
    pub prefix: u8,
}

impl Net {
    /// The prefix length is valid for the family and a v4 address fits in
    /// 32 bits.
    pub open spec fn wf(self) -> bool {
        if self.v6 {
            self.prefix <= 128
        } else {
            self.prefix <= 32 && self.bits < 0x1_0000_0000u128
        }
    }
}

/// A single IP address of either family (low 32 bits for v4).
#[derive(Clone, Copy, Debug)]
pub struct IpAddress {
    /// True for an IPv6 address, false for IPv4.
    pub v6: bool,
    /// The address bits (low 32 bits for v4).
    pub bits: u128,
}

impl IpAddress {
    /// A v4 address fits in 32 bits.
    pub open spec fn wf(self) -> bool {
        !self.v6 ==> self.bits < 0x1_0000_0000u128
    }
}

/// What parsing a CIDR string yields: `None` when the string is not valid
/// CIDR notation, otherwise the family, address bits and prefix length.
pub uninterp spec fn cidr_of(s: Seq<char>) -> Option<(bool, u128, u8)>;

/// Relies on `ipnet::IpNet`'s `FromStr` (reached through `str::parse`): the
/// outcome is a pure function of the string alone, and a parsed network
/// carries a prefix length of at most 32 (v4) or 128 (v6), with a v4 address
/// of 32 bits.
#[verifier::external_body]
pub(crate) fn parse_cidr(s: &str) -> (r: Result<Net, String>)
    ensures
        match r {
            Ok(n) => n.wf() && cidr_of(s@) == Some((n.v6, n.bits, n.prefix)),
            Err(_) => cidr_of(s@) is None,
        },
{
    match s.parse::<ipnet::IpNet>() {
        Ok(ipnet::IpNet::V4(n)) => Ok(Net {
            v6: false,
            bits: u32::from_be_bytes(n.addr().octets()) as u128,
            prefix: n.prefix_len(),
        }),
        Ok(ipnet::IpNet::V6(n)) => Ok(Net {
            v6: true,
            bits: u128::from_be_bytes(n.addr().octets()),
            prefix: n.prefix_len(),
        }),
        Err(e) => Err(format!("'{s}' is an invalid CIDR: {e}")),
    }
}

} // verus!
