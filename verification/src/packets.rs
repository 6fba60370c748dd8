//! Cosmetic transport-layer records used by the companion animations: a
//! packet dot that walks across the canvas, and plain header layouts. They
//! carry no topology and take no forwarding decisions.

use vstd::prelude::*;

verus! {

/// A travelling packet dot. `kind` distinguishes the TCP animation (`0`)
/// from the UDP one (`1`); `tcp_state` holds the wire code of a
/// `TcpState` phase.
#[derive(Clone, Copy, Debug, PartialEq, Eq, Structural)]
pub struct Packet {
    pub id: u32,
    pub kind: u8,
    pub x: i64,
    pub y: i64,
    pub tcp_state: u8,
}

/// TCP connection phases of the toy handshake animation; their wire codes
/// are their declaration order, starting at zero.
#[derive(Clone, Copy, Debug)]
pub enum TcpState {
    Closed,
    Listen,
    SynSent,
    SynReceived,
    Established,
    FinWait,
}

/// The fields of a TCP header, host order.
#[derive(Clone, Copy, Debug)]
pub struct TcpHeader {
    pub src_port: u16,
    pub dst_port: u16,
    pub seq_num: u32,
    pub ack_num: u32,
    pub offset_flags: u16,
    pub window_size: u16,
    pub checksum: u16,
    pub urgent_ptr: u16,
}

/// The fields of a UDP header, host order.
#[derive(Clone, Copy, Debug)]
pub struct UdpHeader {
    pub src_port: u16,
    pub dst_port: u16,
    pub length: u16,
    pub checksum: u16,
}

impl Packet {
    /// A packet at its starting position, in the closed TCP phase (wire
    /// code zero).
    pub fn new(id: u32, kind: u8, x: i64, y: i64) -> (p: Self)
        ensures
            p == (Packet { id, kind, x, y, tcp_state: 0u8 }),
    {
        Packet { id, kind, x, y, tcp_state: 0 }
    }

    /// One animation step: the dot moves one grid unit to the right.
    pub fn step(&mut self)
        requires
            old(self).x < i64::MAX,
        ensures
            final(self).x == old(self).x + 1,
            final(self).id == old(self).id,
            final(self).kind == old(self).kind,
            final(self).y == old(self).y,
            final(self).tcp_state == old(self).tcp_state,
    {
        self.x = self.x + 1;
    }
}

} // verus!
