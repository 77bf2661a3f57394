//! A compact form of an address and port pair.

use vstd::prelude::*;

verus! {

/// The first address of the range that holds the IPv4 addresses mapped into
/// IPv6, `::ffff:0.0.0.0`.
pub const MAPPED_BASE: u128 = 0xffff_0000_0000;

/// One more than the largest IPv4 address.
pub const V4_SPAN: u128 = 0x1_0000_0000;

/// An address of either family, as the number that its bytes spell.
#[derive(Debug, Clone, Copy, PartialEq, Eq, Structural)]
pub enum PeerIp {
    V4(u32),
    V6(u128),
}

/// Whether the 128-bit address `ip` lies in the range of mapped IPv4
/// addresses, `::ffff:0:0/96`.
pub open spec fn is_mapped(ip: int) -> bool {
    0xffff_0000_0000 <= ip < 0xffff_0000_0000 + 0x1_0000_0000
}

/// The 128 bits under which `ip` is stored: an IPv4 address at its place in
/// the mapped range, an IPv6 address as it is.
pub open spec fn stored_ip(ip: PeerIp) -> int {
    match ip {
        PeerIp::V4(v4) => 0xffff_0000_0000 + v4,
        PeerIp::V6(v6) => v6 as int,
    }
}

/// The address that the stored bits `ip` stand for: IPv4 when they lie in
/// the mapped range, IPv6 otherwise.
pub open spec fn shown_ip(ip: int) -> PeerIp {
    if is_mapped(ip) {
        PeerIp::V4((ip - 0xffff_0000_0000) as u32)
    } else {
        PeerIp::V6(ip as u128)
    }
}

/// A compact representation of an IP and port pair.
#[derive(Debug, Clone, Copy, PartialEq, Eq, Structural)]
pub struct PeerAddr {
    ip: u128,
    port: u16,
}

impl PeerAddr {
    /// The 128 bits that hold the address.
    pub closed spec fn spec_bits(&self) -> int {
        self.ip as int
    }

    /// The port.
    pub closed spec fn spec_port(&self) -> int {
        self.port as int
    }

    /// The compact form of the address `ip` with `port`.
    pub fn new(ip: PeerIp, port: u16) -> (peer: PeerAddr)
        ensures
            peer.spec_bits() == stored_ip(ip),
            peer.spec_port() == port,
    {
        let bits: u128 = match ip {
            PeerIp::V4(v4) => MAPPED_BASE + v4 as u128,
            PeerIp::V6(v6) => v6,
        };
        PeerAddr { ip: bits, port }
    }

    /// The address, in the family that it is shown in.
    pub fn ip(&self) -> (ip: PeerIp)
        ensures
            ip == shown_ip(self.spec_bits()),
    {
        if MAPPED_BASE <= self.ip && self.ip - MAPPED_BASE < V4_SPAN {
            PeerIp::V4((self.ip - MAPPED_BASE) as u32)
        } else {
            PeerIp::V6(self.ip)
        }
    }

    /// The port.
    pub fn port(&self) -> (port: u16)
        ensures
            port == self.spec_port(),
    {
        self.port
    }

    /// The 128 bits that hold the address.
    pub fn bits(&self) -> (bits: u128)
        ensures
            bits == self.spec_bits(),
    {
        self.ip
    }
}

/// An address survives the compact form: every IPv4 address, and every IPv6
/// address outside the range of mapped IPv4 addresses, is shown as it was
/// stored.
pub proof fn lemma_round_trip(ip: PeerIp)
    requires
        ip is V6 ==> !is_mapped(ip->V6_0 as int),
    ensures
        shown_ip(stored_ip(ip)) == ip,
{
}

/// An IPv6 address inside the mapped range is shown as the IPv4 address
/// that it maps.
pub proof fn lemma_mapped_shown_as_v4(v6: u128)
    requires
        is_mapped(v6 as int),
    ensures
        shown_ip(stored_ip(PeerIp::V6(v6))) == PeerIp::V4((v6 - 0xffff_0000_0000) as u32),
        stored_ip(shown_ip(stored_ip(PeerIp::V6(v6)))) == v6,
{
}

} // verus!
