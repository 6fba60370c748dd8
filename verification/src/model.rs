//! The mathematical model of one simulation step.
//!
//! A tick advances every frame by its speed, removes the frames that reached
//! the far end of their link, and processes each removal in order: a host
//! absorbs the frame (recording a delivery when the destination address
//! matches), while a switch learns the source address and then forwards on
//! the learned link or floods on every other link it touches.
//! `tick_spec` pins all of this down; `NetworkState::tick` is proved against
//! it.

use vstd::prelude::*;

use crate::frames::EthernetFrame;
use crate::topology::{Link, Node, touches, KIND_HOST};

verus! {

/// Progress units that make up one full link traversal.
pub const PROGRESS_ONE: u64 = 1000;

/// Progress gained per tick by frames the engine creates: one twentieth of a
/// link per tick.
pub const FRAME_SPEED: u64 = 50;

/// Learning tables of all switches share one map; an entry for MAC `mac`
/// learned at switch `node_id` sits under this packed key.
pub open spec fn table_key(node_id: u32, mac: u32) -> u64 {
    ((node_id as int) * 0x1_0000_0000 + (mac as int)) as u64
}

/// The switch a packed table key belongs to.
pub open spec fn key_node(k: u64) -> u32 {
    ((k as int) / 0x1_0000_0000) as u32
}

/// The MAC address a packed table key records.
pub open spec fn key_mac(k: u64) -> u32 {
    ((k as int) % 0x1_0000_0000) as u32
}

/// Packing a switch id and a MAC address into one key loses nothing.
pub proof fn lemma_table_key_decode(node_id: u32, mac: u32)
    ensures
        key_node(table_key(node_id, mac)) == node_id,
        key_mac(table_key(node_id, mac)) == mac,
{
    let k = (node_id as int) * 0x1_0000_0000 + (mac as int);
    assert(k / 0x1_0000_0000 == node_id as int && k % 0x1_0000_0000 == mac as int)
        by (nonlinear_arith)
        requires
            k == (node_id as int) * 0x1_0000_0000 + (mac as int),
            0 <= node_id as int,
            0 <= mac as int,
            (mac as int) < 0x1_0000_0000,
    ;
}

/// A frame sits on an existing link and departed from one of that link's
/// endpoints, so arrival resolution is well defined.
pub open spec fn frame_on_links(f: EthernetFrame, links: Seq<Link>) -> bool {
    &&& (f.link_id as int) < links.len()
    &&& touches(links[f.link_id as int], f.from_node_id)
}

/// A frame is structurally sound for a given link sequence: it sits on an
/// existing link, departed from one of that link's endpoints, has not yet
/// arrived, and its speed is positive and word-sized.
pub open spec fn frame_ok(f: EthernetFrame, links: Seq<Link>) -> bool {
    &&& frame_on_links(f, links)
    &&& f.progress < PROGRESS_ONE
    &&& 1 <= f.speed <= u32::MAX
}

/// A learning-table entry is structurally sound: it names an existing link,
/// belongs to an existing node, and that node is an endpoint of the link
/// (the entry records the link on which a frame reached the node).
pub open spec fn table_entry_ok(k: u64, v: u32, nodes: Seq<Node>, links: Seq<Link>) -> bool {
    &&& (v as int) < links.len()
    &&& (key_node(k) as int) < nodes.len()
    &&& touches(links[v as int], key_node(k))
}

/// One tick of movement for a single frame.
pub open spec fn frame_advanced(f: EthernetFrame) -> EthernetFrame {
    EthernetFrame { progress: (f.progress + f.speed) as u64, ..f }
}

/// One tick of movement for the whole pool.
pub open spec fn advance_frames(frames: Seq<EthernetFrame>) -> Seq<EthernetFrame> {
    frames.map_values(|f: EthernetFrame| frame_advanced(f))
}

/// The frames of `s` still short of the far end, in order.
pub open spec fn in_flight_part(s: Seq<EthernetFrame>) -> Seq<EthernetFrame>
    decreases s.len(),
{
    if s.len() == 0 {
        Seq::empty()
    } else {
        let prev = in_flight_part(s.drop_last());
        if s.last().progress < PROGRESS_ONE {
            prev.push(s.last())
        } else {
            prev
        }
    }
}

/// The frames of `s` that completed their traversal, in order.
pub open spec fn arrived_part(s: Seq<EthernetFrame>) -> Seq<EthernetFrame>
    decreases s.len(),
{
    if s.len() == 0 {
        Seq::empty()
    } else {
        let prev = arrived_part(s.drop_last());
        if s.last().progress >= PROGRESS_ONE {
            prev.push(s.last())
        } else {
            prev
        }
    }
}

/// The node an arrived frame reaches: the endpoint of its link other than
/// the one it departed from.
pub open spec fn far_end(links: Seq<Link>, f: EthernetFrame) -> u32 {
    let l = links[f.link_id as int];
    if f.from_node_id == l.node_a_id {
        l.node_b_id
    } else {
        l.node_a_id
    }
}

/// Frame ids are the pool slot at creation time, reduced to a word as the
/// pool index may outgrow one.
pub open spec fn frame_id_of(n: int) -> u32 {
    (n % 0x1_0000_0000) as u32
}

/// The frame a switch injects: fresh progress, engine speed, source address
/// equal to the emitting node.
pub open spec fn new_frame(slot: int, link_id: u32, origin: u32, dst_mac: u32) -> EthernetFrame {
    EthernetFrame {
        id: frame_id_of(slot),
        link_id,
        from_node_id: origin,
        progress: 0,
        speed: FRAME_SPEED,
        src_mac: origin,
        dst_mac,
    }
}

/// Ids of the links whose endpoint set contains `node_id`, in link order.
pub open spec fn connected_ids(links: Seq<Link>, node_id: u32) -> Seq<u32>
    decreases links.len(),
{
    if links.len() == 0 {
        Seq::empty()
    } else {
        let prev = connected_ids(links.drop_last(), node_id);
        if touches(links.last(), node_id) {
            prev.push(links.last().id)
        } else {
            prev
        }
    }
}

/// Flooding: one new frame per candidate link id, skipping the arrival link.
pub open spec fn flood_ids(
    ids: Seq<u32>,
    arrival_link: u32,
    origin: u32,
    dst_mac: u32,
    frames: Seq<EthernetFrame>,
) -> Seq<EthernetFrame>
    decreases ids.len(),
{
    if ids.len() == 0 {
        frames
    } else {
        let next = if ids[0] != arrival_link {
            frames.push(new_frame(frames.len() as int, ids[0], origin, dst_mac))
        } else {
            frames
        };
        flood_ids(ids.drop_first(), arrival_link, origin, dst_mac, next)
    }
}

/// Handling of one arrived frame: host absorption or switch
/// learn-then-forward-or-flood. Returns the frame pool, the learning tables
/// and the delivery log after the frame is consumed.
pub open spec fn process_one(
    nodes: Seq<Node>,
    links: Seq<Link>,
    f: EthernetFrame,
    frames: Seq<EthernetFrame>,
    tables: Map<u64, u32>,
    deliveries: Seq<u32>,
) -> (Seq<EthernetFrame>, Map<u64, u32>, Seq<u32>) {
    let cur = far_end(links, f);
    if nodes[cur as int].kind == KIND_HOST {
        if f.dst_mac == cur {
            (frames, tables, deliveries.push(cur))
        } else {
            (frames, tables, deliveries)
        }
    } else {
        let learned = tables.insert(table_key(cur, f.src_mac), f.link_id);
        let dkey = table_key(cur, f.dst_mac);
        if learned.dom().contains(dkey) {
            if learned[dkey] != f.link_id {
                (
                    frames.push(new_frame(frames.len() as int, learned[dkey], cur, f.dst_mac)),
                    learned,
                    deliveries,
                )
            } else {
                (frames, learned, deliveries)
            }
        } else {
            (flood_ids(connected_ids(links, cur), f.link_id, cur, f.dst_mac, frames), learned, deliveries)
        }
    }
}

/// Sequential handling of every arrived frame, each one seeing the tables as
/// the previous one left them.
pub open spec fn process_arrivals(
    nodes: Seq<Node>,
    links: Seq<Link>,
    arrived: Seq<EthernetFrame>,
    frames: Seq<EthernetFrame>,
    tables: Map<u64, u32>,
    deliveries: Seq<u32>,
) -> (Seq<EthernetFrame>, Map<u64, u32>, Seq<u32>)
    decreases arrived.len(),
{
    if arrived.len() == 0 {
        (frames, tables, deliveries)
    } else {
        let s = process_one(nodes, links, arrived[0], frames, tables, deliveries);
        process_arrivals(nodes, links, arrived.drop_first(), s.0, s.1, s.2)
    }
}

/// One full simulation step: advance, split off the arrivals, process them.
pub open spec fn tick_spec(
    nodes: Seq<Node>,
    links: Seq<Link>,
    frames: Seq<EthernetFrame>,
    tables: Map<u64, u32>,
    deliveries: Seq<u32>,
) -> (Seq<EthernetFrame>, Map<u64, u32>, Seq<u32>) {
    let adv = advance_frames(frames);
    process_arrivals(nodes, links, arrived_part(adv), in_flight_part(adv), tables, deliveries)
}

/// Exact-tick arrival, part one: splitting the advanced pool keeps every
/// frame exactly once — a frame goes to the in-flight side precisely when
/// its progress is short of a full traversal, to the arrived side precisely
/// when it reached one.
pub proof fn lemma_partition_exactly_once(s: Seq<EthernetFrame>)
    ensures
        in_flight_part(s).to_multiset().add(arrived_part(s).to_multiset()) == s.to_multiset(),
        forall|j: int|
            0 <= j < in_flight_part(s).len() ==> (#[trigger] in_flight_part(s)[j]).progress
                < PROGRESS_ONE,
        forall|j: int|
            0 <= j < arrived_part(s).len() ==> (#[trigger] arrived_part(s)[j]).progress
                >= PROGRESS_ONE,
    decreases s.len(),
{
    broadcast use vstd::seq_lib::group_to_multiset_ensures;

    if s.len() == 0 {
        assert(in_flight_part(s).to_multiset().add(arrived_part(s).to_multiset())
            =~= s.to_multiset());
    } else {
        let rest = s.drop_last();
        let x = s.last();
        lemma_partition_exactly_once(rest);
        assert(s =~= rest.push(x));
        assert(s.to_multiset() =~= rest.to_multiset().insert(x));
        if x.progress < PROGRESS_ONE {
            assert(in_flight_part(s).to_multiset() =~= in_flight_part(rest).to_multiset().insert(
                x,
            ));
        } else {
            assert(arrived_part(s).to_multiset() =~= arrived_part(rest).to_multiset().insert(x));
        }
        assert(in_flight_part(s).to_multiset().add(arrived_part(s).to_multiset())
            =~= s.to_multiset());
    }
}

/// Flooding only appends: every frame already pooled stays at its slot.
pub proof fn lemma_flood_ids_appends(
    ids: Seq<u32>,
    arrival_link: u32,
    origin: u32,
    dst_mac: u32,
    frames: Seq<EthernetFrame>,
)
    ensures
        flood_ids(ids, arrival_link, origin, dst_mac, frames).len() >= frames.len(),
        forall|i: int|
            0 <= i < frames.len() ==> #[trigger] flood_ids(
                ids,
                arrival_link,
                origin,
                dst_mac,
                frames,
            )[i] == frames[i],
    decreases ids.len(),
{
    if ids.len() > 0 {
        let next = if ids[0] != arrival_link {
            frames.push(new_frame(frames.len() as int, ids[0], origin, dst_mac))
        } else {
            frames
        };
        lemma_flood_ids_appends(ids.drop_first(), arrival_link, origin, dst_mac, next);
    }
}

/// Exact-tick arrival, part two: consuming the arrivals never disturbs the
/// frames still in flight — they keep their slots and their progress; new
/// frames are only appended after them.
pub proof fn lemma_process_keeps_in_flight(
    nodes: Seq<Node>,
    links: Seq<Link>,
    arrived: Seq<EthernetFrame>,
    frames: Seq<EthernetFrame>,
    tables: Map<u64, u32>,
    deliveries: Seq<u32>,
)
    ensures
        process_arrivals(nodes, links, arrived, frames, tables, deliveries).0.len()
            >= frames.len(),
        forall|i: int|
            0 <= i < frames.len() ==> #[trigger] process_arrivals(
                nodes,
                links,
                arrived,
                frames,
                tables,
                deliveries,
            ).0[i] == frames[i],
    decreases arrived.len(),
{
    if arrived.len() > 0 {
        let f = arrived[0];
        let cur = far_end(links, f);
        lemma_flood_ids_appends(connected_ids(links, cur), f.link_id, cur, f.dst_mac, frames);
        let s = process_one(nodes, links, f, frames, tables, deliveries);
        lemma_process_keeps_in_flight(nodes, links, arrived.drop_first(), s.0, s.1, s.2);
    }
}

/// Host absorption: a frame arriving at the host it is addressed to is
/// consumed with exactly one delivery notification for that host, zero new
/// frames, and untouched learning tables.
pub proof fn lemma_host_absorption(
    nodes: Seq<Node>,
    links: Seq<Link>,
    f: EthernetFrame,
    frames: Seq<EthernetFrame>,
    tables: Map<u64, u32>,
    deliveries: Seq<u32>,
)
    requires
        frame_on_links(f, links),
        (far_end(links, f) as int) < nodes.len(),
        nodes[far_end(links, f) as int].kind == KIND_HOST,
        f.dst_mac == far_end(links, f),
    ensures
        process_one(nodes, links, f, frames, tables, deliveries).0 == frames,
        process_one(nodes, links, f, frames, tables, deliveries).1 == tables,
        process_one(nodes, links, f, frames, tables, deliveries).2 == deliveries.push(
            far_end(links, f),
        ),
{
}

/// Host non-match drop: a frame arriving at a host whose id differs from
/// its destination address is absorbed silently — no notification, no new
/// frames, no table change.
pub proof fn lemma_host_mismatch_drop(
    nodes: Seq<Node>,
    links: Seq<Link>,
    f: EthernetFrame,
    frames: Seq<EthernetFrame>,
    tables: Map<u64, u32>,
    deliveries: Seq<u32>,
)
    requires
        frame_on_links(f, links),
        (far_end(links, f) as int) < nodes.len(),
        nodes[far_end(links, f) as int].kind == KIND_HOST,
        f.dst_mac != far_end(links, f),
    ensures
        process_one(nodes, links, f, frames, tables, deliveries).0 == frames,
        process_one(nodes, links, f, frames, tables, deliveries).1 == tables,
        process_one(nodes, links, f, frames, tables, deliveries).2 == deliveries,
{
}

/// Learned forward without reflood: at a switch that (after learning the
/// frame's source) knows the destination behind a link other than the
/// arrival link, exactly one new frame is injected, on that learned link —
/// no other link sees a copy.
pub proof fn lemma_learned_forward_no_reflood(
    nodes: Seq<Node>,
    links: Seq<Link>,
    f: EthernetFrame,
    frames: Seq<EthernetFrame>,
    tables: Map<u64, u32>,
    deliveries: Seq<u32>,
)
    requires
        frame_on_links(f, links),
        (far_end(links, f) as int) < nodes.len(),
        nodes[far_end(links, f) as int].kind != KIND_HOST,
        ({
            let cur = far_end(links, f);
            let learned = tables.insert(table_key(cur, f.src_mac), f.link_id);
            &&& learned.dom().contains(table_key(cur, f.dst_mac))
            &&& learned[table_key(cur, f.dst_mac)] != f.link_id
        }),
    ensures
        ({
            let cur = far_end(links, f);
            let learned = tables.insert(table_key(cur, f.src_mac), f.link_id);
            let r = process_one(nodes, links, f, frames, tables, deliveries);
            &&& r.0 == frames.push(
                new_frame(
                    frames.len() as int,
                    learned[table_key(cur, f.dst_mac)],
                    cur,
                    f.dst_mac,
                ),
            )
            &&& r.1 == learned
            &&& r.2 == deliveries
        }),
{
}

/// Same-link suppression: when the learned link for the destination equals
/// the link the frame arrived on, the switch retransmits on no link at all
/// — the frame is dropped, not flooded.
pub proof fn lemma_same_link_suppression(
    nodes: Seq<Node>,
    links: Seq<Link>,
    f: EthernetFrame,
    frames: Seq<EthernetFrame>,
    tables: Map<u64, u32>,
    deliveries: Seq<u32>,
)
    requires
        frame_on_links(f, links),
        (far_end(links, f) as int) < nodes.len(),
        nodes[far_end(links, f) as int].kind != KIND_HOST,
        ({
            let cur = far_end(links, f);
            let learned = tables.insert(table_key(cur, f.src_mac), f.link_id);
            &&& learned.dom().contains(table_key(cur, f.dst_mac))
            &&& learned[table_key(cur, f.dst_mac)] == f.link_id
        }),
    ensures
        ({
            let cur = far_end(links, f);
            let learned = tables.insert(table_key(cur, f.src_mac), f.link_id);
            let r = process_one(nodes, links, f, frames, tables, deliveries);
            &&& r.0 == frames
            &&& r.1 == learned
            &&& r.2 == deliveries
        }),
{
}

/// Switch learning: whatever the forwarding decision, consuming a frame at
/// a switch records the frame's source address against its arrival link,
/// overwriting any earlier entry for that address.
pub proof fn lemma_switch_learns(
    nodes: Seq<Node>,
    links: Seq<Link>,
    f: EthernetFrame,
    frames: Seq<EthernetFrame>,
    tables: Map<u64, u32>,
    deliveries: Seq<u32>,
)
    requires
        (far_end(links, f) as int) < nodes.len(),
        nodes[far_end(links, f) as int].kind != KIND_HOST,
    ensures
        process_one(nodes, links, f, frames, tables, deliveries).1 == tables.insert(
            table_key(far_end(links, f), f.src_mac),
            f.link_id,
        ),
{
}

/// Idempotent idle ticks: with no frame in flight, a step changes nothing —
/// the pool stays empty and tables and deliveries are untouched (the
/// topology is never written by a step at all).
pub proof fn lemma_idle_tick(
    nodes: Seq<Node>,
    links: Seq<Link>,
    tables: Map<u64, u32>,
    deliveries: Seq<u32>,
)
    ensures
        tick_spec(nodes, links, Seq::empty(), tables, deliveries) == (
            Seq::<EthernetFrame>::empty(),
            tables,
            deliveries,
        ),
{
    assert(advance_frames(Seq::empty()) =~= Seq::<EthernetFrame>::empty());
}

} // verus!
