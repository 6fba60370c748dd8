//! The in-flight unit of simulated traffic.

use vstd::prelude::*;

verus! {

/// A frame travelling along one link.
///
/// `from_node_id` is the endpoint the frame departed from; it travels toward
/// the other endpoint. `progress` counts thousandths of the link traversed
/// (`crate::model::PROGRESS_ONE` marks arrival) and grows by `speed` each
/// tick. MAC addresses are node ids in this model.
#[derive(Clone, Copy, Debug, PartialEq, Eq, Structural)]
pub struct EthernetFrame {
    pub id: u32,
    pub link_id: u32,
    pub from_node_id: u32,
    pub progress: u64,
    pub speed: u64,
    pub src_mac: u32,
    pub dst_mac: u32,
}

} // verus!
