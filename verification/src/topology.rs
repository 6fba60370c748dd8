//! Topology records: nodes (hosts and switches) and the undirected links
//! between them.
//!
//! Positions are integer grid coordinates; a link's `length` is the floor of
//! the Euclidean distance between its endpoints, fixed at creation time.

use vstd::prelude::*;

verus! {

/// Largest magnitude a node coordinate may have, so that squared distances
/// fit in a machine word.
pub const COORD_LIMIT: i64 = 1_000_000_000;

/// Node kind of a host: absorbs frames addressed to it.
pub const KIND_HOST: u8 = 0;

/// Node kind of a switch: learns source addresses and forwards or floods.
pub const KIND_SWITCH: u8 = 1;

/// A topology endpoint. `id` is its dense, insertion-ordered index.
#[derive(Clone, Copy, Debug, PartialEq, Eq, Structural)]
pub struct Node {
    pub id: u32,
    pub x: i64,
    pub y: i64,
    pub kind: u8,
}

/// An undirected connection between two nodes. `id` is its dense,
/// insertion-ordered index; `length` is fixed at creation time.
#[derive(Clone, Copy, Debug, PartialEq, Eq, Structural)]
pub struct Link {
    pub id: u32,
    pub node_a_id: u32,
    pub node_b_id: u32,
    pub length: u64,
}

/// Squared Euclidean distance between the positions of two nodes.
pub open spec fn dist_sq(a: Node, b: Node) -> int {
    (a.x - b.x) * (a.x - b.x) + (a.y - b.y) * (a.y - b.y)
}

/// `r` is the integer square root (floor) of `n`.
pub open spec fn is_floor_sqrt(r: u64, n: int) -> bool {
    r * r <= n < (r + 1) * (r + 1)
}

/// Whether `node_id` is one of the two endpoints of `l`.
pub open spec fn touches(l: Link, node_id: u32) -> bool {
    l.node_a_id == node_id || l.node_b_id == node_id
}

/// Integer square root by bisection: the unique `r` with
/// `r * r <= n < (r + 1) * (r + 1)`.
pub fn isqrt(n: u64) -> (r: u64)
    ensures
        is_floor_sqrt(r, n as int),
{
    let mut lo: u64 = 0;
    let mut hi: u64 = 0x1_0000_0000;
    while lo + 1 < hi
        invariant
            lo < hi <= 0x1_0000_0000,
            lo * lo <= n as int,
            (n as int) < hi * hi,
        decreases hi - lo,
    {
        let mid: u64 = lo + (hi - lo) / 2;
        assert(mid * mid < 0x1_0000_0000_0000_0000) by (nonlinear_arith)
            requires
                mid < 0x1_0000_0000,
        ;
        let sq: u64 = mid * mid;
        if sq <= n {
            lo = mid;
        } else {
            hi = mid;
        }
    }
    lo
}

} // verus!
