//! Link-layer socket addresses.

use crate::payload::be16_bytes;
use vstd::prelude::*;

verus! {

/// Length of an Ethernet hardware address.
pub const HW_ADDR_LEN: usize = 6;

/// Link-layer packet type of a frame sent to this host alone.
pub const PACKET_UNICAST: u8 = 0;

/// Link-layer packet type of a frame sent to every host.
pub const PACKET_BROADCAST: u8 = 1;

/// The address family of link-layer sockets.
pub open spec fn packet_family() -> u16 {
    17
}

/// Trusted: hands out libc's constant `AF_PACKET`, the address family of
/// link-layer sockets, which is 17 on Linux.
#[verifier::external_body]
fn af_packet() -> (r: u16)
    ensures
        r == packet_family(),
{
    libc::AF_PACKET as u16
}

/// A link-layer socket address, field by field as the kernel takes it, with
/// the protocol number as its two bytes in network order.
#[derive(Clone, Copy, Debug)]
pub struct LinkAddr {
    pub family: u16,
    pub protocol: [u8; 2],
    pub ifindex: i32,
    pub hatype: u16,
    pub pkttype: u8,
    pub halen: u8,
    pub addr: [u8; 8],
}

impl LinkAddr {
    /// The six-byte hardware address of a peer.
    pub fn hw_addr(&self) -> (r: [u8; 6])
        requires
            self.halen == HW_ADDR_LEN,
        ensures
            r@ == self.addr@.take(HW_ADDR_LEN as int),
    {
        let r: [u8; 6] = [
            self.addr[0],
            self.addr[1],
            self.addr[2],
            self.addr[3],
            self.addr[4],
            self.addr[5],
        ];
        assert(r@ =~= self.addr@.take(HW_ADDR_LEN as int));
        r
    }
}

/// Whether `r` is the address of protocol `proto` on the interface
/// `interface`: with the hardware address `addr` in its first six bytes, or
/// with no hardware address at all.
pub open spec fn is_built(interface: i32, proto: u16, addr: Option<Seq<u8>>, r: LinkAddr) -> bool {
    &&& r.family == packet_family()
    &&& r.protocol@ == be16_bytes(proto)
    &&& r.ifindex == interface
    &&& r.hatype == 0
    &&& r.pkttype == 0
    &&& match addr {
        Some(a) => r.halen == HW_ADDR_LEN && r.addr@ == a + seq![0u8, 0u8],
        None => r.halen == 0 && r.addr@ == seq![0u8, 0u8, 0u8, 0u8, 0u8, 0u8, 0u8, 0u8],
    }
}

/// Builds link-layer addresses on one network interface.
pub struct AddrBuilder {
    interface: i32,
}

impl View for AddrBuilder {
    type V = i32;

    closed spec fn view(&self) -> i32 {
        self.interface
    }
}

impl AddrBuilder {
    /// A builder for the interface with the given index.
    pub fn new(interface: i32) -> (r: Self)
        ensures
            r@ == interface,
    {
        Self { interface }
    }

    /// The address of protocol `proto` on this interface: that of the peer
    /// `addr`, or one without a hardware address, as a socket is bound to.
    pub fn build(&self, proto: u16, addr: Option<[u8; 6]>) -> (r: LinkAddr)
        ensures
            is_built(
                self@,
                proto,
                match addr {
                    Some(a) => Some(a@),
                    None => None,
                },
                r,
            ),
    {
        let protocol: [u8; 2] = [(proto / 256) as u8, (proto % 256) as u8];
        assert(protocol@ =~= be16_bytes(proto));
        let mut v = LinkAddr {
            family: af_packet(),
            protocol,
            ifindex: self.interface,
            hatype: 0,
            pkttype: 0,
            halen: 0,
            addr: [0, 0, 0, 0, 0, 0, 0, 0],
        };
        assert(v.addr@ =~= seq![0u8, 0u8, 0u8, 0u8, 0u8, 0u8, 0u8, 0u8]);
        if let Some(a) = addr {
            v.addr = [a[0], a[1], a[2], a[3], a[4], a[5], 0, 0];
            v.halen = HW_ADDR_LEN as u8;
            assert(v.addr@ =~= a@ + seq![0u8, 0u8]);
        }
        v
    }
}

} // verus!
