//! A small, deterministic Ethernet-network simulator built for
//! visualization: hosts and switches joined by undirected links, frames that
//! travel along links with a fixed amount of progress per tick, and a
//! per-switch MAC learning table that drives forwarding and flooding.
//!
//! The topology is append-only; all movement and switching happens inside
//! `NetworkState::tick`, whose behaviour is specified exactly by
//! `model::tick_spec`. Deliveries (a frame reaching the host it is addressed
//! to) are recorded in order so that a caller can surface them however it
//! likes.

use vstd::prelude::*;

pub mod frames;
pub mod model;
pub mod packets;
pub mod topology;

use crate::frames::EthernetFrame;
use crate::model::{
    advance_frames, arrived_part, connected_ids, far_end, flood_ids, frame_advanced, frame_id_of,
    frame_ok, frame_on_links, in_flight_part, lemma_table_key_decode, new_frame, process_arrivals,
    process_one, table_entry_ok, table_key, tick_spec, FRAME_SPEED, PROGRESS_ONE,
};
use crate::topology::{dist_sq, is_floor_sqrt, isqrt, touches, Link, Node, COORD_LIMIT, KIND_HOST};

verus! {

broadcast use vstd::std_specs::hash::group_hash_axioms;

/// The whole simulation: topology, in-flight frames, the switches' learning
/// tables and the log of matched host deliveries.
///
/// Learning tables of all switches live in one map keyed by
/// `model::table_key(switch_id, mac)`; the entry's value is the link on
/// which a frame from `mac` last reached that switch.
pub struct NetworkState {
    pub nodes: Vec<Node>,
    pub links: Vec<Link>,
    pub frames: Vec<EthernetFrame>,
    pub mac_tables: std::collections::HashMap<u64, u32>,
    pub deliveries: Vec<u32>,
}

impl NetworkState {
    /// Node records are dense (slot `i` holds id `i`) and their coordinates
    /// stay within the grid bounds.
    pub open spec fn wf_nodes(self) -> bool {
        &&& self.nodes@.len() <= u32::MAX
        &&& forall|i: int|
            0 <= i < self.nodes@.len() ==> {
                let n = #[trigger] self.nodes@[i];
                &&& n.id == i
                &&& -COORD_LIMIT <= n.x <= COORD_LIMIT
                &&& -COORD_LIMIT <= n.y <= COORD_LIMIT
            }
    }

    /// Link records are dense and refer to existing nodes.
    pub open spec fn wf_links(self) -> bool {
        &&& self.links@.len() <= u32::MAX
        &&& forall|i: int|
            0 <= i < self.links@.len() ==> {
                let l = #[trigger] self.links@[i];
                &&& l.id == i
                &&& (l.node_a_id as int) < self.nodes@.len()
                &&& (l.node_b_id as int) < self.nodes@.len()
            }
    }

    /// Every in-flight frame sits on an existing link, left from one of its
    /// endpoints, and has not yet arrived: no reader ever observes a frame
    /// at or past full progress.
    pub open spec fn wf_frames(self) -> bool {
        forall|i: int|
            0 <= i < self.frames@.len() ==> frame_ok(#[trigger] self.frames@[i], self.links@)
    }

    /// Every learning-table entry names an existing link of the switch it
    /// belongs to.
    pub open spec fn wf_tables(self) -> bool {
        forall|k: u64| #[trigger]
            self.mac_tables@.dom().contains(k) ==> table_entry_ok(
                k,
                self.mac_tables@[k],
                self.nodes@,
                self.links@,
            )
    }

    /// Structural soundness of the whole simulation state.
    pub open spec fn wf(self) -> bool {
        &&& self.wf_nodes()
        &&& self.wf_links()
        &&& self.wf_frames()
        &&& self.wf_tables()
    }

    /// A fresh, empty simulation.
    pub fn new() -> (s: Self)
        ensures
            s.nodes@.len() == 0,
            s.links@.len() == 0,
            s.frames@.len() == 0,
            s.mac_tables@ == Map::<u64, u32>::empty(),
            s.deliveries@.len() == 0,
            s.wf(),
    {
        NetworkState {
            nodes: Vec::new(),
            links: Vec::new(),
            frames: Vec::new(),
            mac_tables: std::collections::HashMap::new(),
            deliveries: Vec::new(),
        }
    }

    /// Appends a node and returns its dense id: the number of nodes created
    /// before it.
    pub fn add_node(&mut self, x: i64, y: i64, kind: u8) -> (id: u32)
        requires
            old(self).wf(),
            old(self).nodes@.len() < u32::MAX,
            -COORD_LIMIT <= x <= COORD_LIMIT,
            -COORD_LIMIT <= y <= COORD_LIMIT,
        ensures
            id == old(self).nodes@.len(),
            final(self).nodes@ == old(self).nodes@.push(Node { id, x, y, kind }),
            final(self).links@ == old(self).links@,
            final(self).frames@ == old(self).frames@,
            final(self).mac_tables@ == old(self).mac_tables@,
            final(self).deliveries@ == old(self).deliveries@,
            final(self).wf(),
    {
        let id: u32 = self.nodes.len() as u32;
        let node = Node { id, x, y, kind };
        self.nodes.push(node);
        id
    }

    /// Appends a link between two existing nodes and returns its dense id.
    /// The link's length is fixed at creation: the floor of the Euclidean
    /// distance between the endpoints' positions.
    pub fn add_link(&mut self, node_a_id: u32, node_b_id: u32) -> (id: u32)
        requires
            old(self).wf(),
            old(self).links@.len() < u32::MAX,
            (node_a_id as int) < old(self).nodes@.len(),
            (node_b_id as int) < old(self).nodes@.len(),
        ensures
            id == old(self).links@.len(),
            final(self).links@.len() == old(self).links@.len() + 1,
            forall|i: int|
                0 <= i < old(self).links@.len() ==> final(self).links@[i] == old(self).links@[i],
            ({
                let l = final(self).links@.last();
                &&& l.id == id
                &&& l.node_a_id == node_a_id
                &&& l.node_b_id == node_b_id
                &&& is_floor_sqrt(
                    l.length,
                    dist_sq(
                        old(self).nodes@[node_a_id as int],
                        old(self).nodes@[node_b_id as int],
                    ),
                )
            }),
            final(self).nodes@ == old(self).nodes@,
            final(self).frames@ == old(self).frames@,
            final(self).mac_tables@ == old(self).mac_tables@,
            final(self).deliveries@ == old(self).deliveries@,
            final(self).wf(),
    {
        let id: u32 = self.links.len() as u32;
        let node_a = self.nodes[node_a_id as usize];
        let node_b = self.nodes[node_b_id as usize];
        let dx: i64 = node_a.x - node_b.x;
        let dy: i64 = node_a.y - node_b.y;
        assert(0 <= dx * dx <= 4_000_000_000_000_000_000 && 0 <= dy * dy
            <= 4_000_000_000_000_000_000) by (nonlinear_arith)
            requires
                -2_000_000_000 <= dx <= 2_000_000_000,
                -2_000_000_000 <= dy <= 2_000_000_000,
        ;
        let dd: i64 = dx * dx + dy * dy;
        let length: u64 = isqrt(dd as u64);
        let link = Link { id, node_a_id, node_b_id, length };
        self.links.push(link);
        id
    }

    /// Constructs a fresh frame on `link_id`, departing from `from_node_id`
    /// toward the link's other endpoint, and appends it to the pool. The
    /// frame's source address is the emitting node's id; its speed is the
    /// engine constant. Returns the frame's pool slot at creation time,
    /// reduced to a word.
    pub fn send_frame(&mut self, link_id: u32, from_node_id: u32, dst_mac: u32) -> (id: u32)
        requires
            old(self).wf(),
            (link_id as int) < old(self).links@.len(),
            touches(old(self).links@[link_id as int], from_node_id),
        ensures
            id == frame_id_of(old(self).frames@.len() as int),
            final(self).frames@ == old(self).frames@.push(
                new_frame(old(self).frames@.len() as int, link_id, from_node_id, dst_mac),
            ),
            final(self).nodes@ == old(self).nodes@,
            final(self).links@ == old(self).links@,
            final(self).mac_tables@ == old(self).mac_tables@,
            final(self).deliveries@ == old(self).deliveries@,
            final(self).wf(),
    {
        let id: u32 = fresh_frame_id(self.frames.len());
        let frame = EthernetFrame {
            id,
            link_id,
            from_node_id,
            progress: 0,
            speed: FRAME_SPEED,
            src_mac: from_node_id,
            dst_mac,
        };
        self.frames.push(frame);
        id
    }

    /// Ids of every link whose endpoint set contains `node_id`, in link
    /// insertion order. Used by flooding.
    fn get_connected_links(&self, node_id: u32) -> (result: Vec<u32>)
        requires
            self.wf(),
        ensures
            result@ == connected_ids(self.links@, node_id),
            forall|k: int|
                0 <= k < result@.len() ==> ((#[trigger] result@[k]) as int) < self.links@.len()
                    && touches(self.links@[result@[k] as int], node_id),
    {
        let mut result: Vec<u32> = Vec::new();
        let mut i: usize = 0;
        while i < self.links.len()
            invariant
                self.wf(),
                i <= self.links@.len(),
                result@ == connected_ids(self.links@.take(i as int), node_id),
                forall|k: int|
                    0 <= k < result@.len() ==> ((#[trigger] result@[k]) as int)
                        < self.links@.len() && touches(self.links@[result@[k] as int], node_id),
            decreases self.links@.len() - i,
        {
            let link = self.links[i];
            if link.node_a_id == node_id || link.node_b_id == node_id {
                result.push(link.id);
            }
            proof {
                assert(self.links@.take(i as int + 1).drop_last() =~= self.links@.take(i as int));
                assert(self.links@.take(i as int + 1).last() == self.links@[i as int]);
            }
            i = i + 1;
        }
        proof {
            assert(self.links@.take(self.links@.len() as int) =~= self.links@);
        }
        result
    }

    /// Advances the simulation by exactly one step: every frame gains its
    /// speed of progress, the frames that completed their link leave the
    /// pool, and each of those is then consumed in order — a host absorbs it
    /// (logging a delivery when the destination address matches its id), a
    /// switch learns the source address and forwards on the learned link or
    /// floods on its other links. `model::tick_spec` states the whole step.
    ///
    /// Frames injected while consuming the arrivals start at zero progress
    /// and are never taken for arrivals of the same step.
    ///
    /// Flooding has no loop prevention: a cycle of switches grows the frame
    /// population without bound. That is deliberate — the simulation is
    /// meant to make broadcast storms observable, not to avoid them.
    pub fn tick(&mut self)
        requires
            old(self).wf(),
        ensures
            final(self).nodes@ == old(self).nodes@,
            final(self).links@ == old(self).links@,
            ({
                let r = tick_spec(
                    old(self).nodes@,
                    old(self).links@,
                    old(self).frames@,
                    old(self).mac_tables@,
                    old(self).deliveries@,
                );
                &&& final(self).frames@ == r.0
                &&& final(self).mac_tables@ == r.1
                &&& final(self).deliveries@ == r.2
            }),
            final(self).wf(),
    {
        let ghost nodes0 = old(self).nodes@;
        let ghost links0 = old(self).links@;
        let ghost frames0 = old(self).frames@;
        let ghost tables0 = old(self).mac_tables@;
        let ghost deliveries0 = old(self).deliveries@;

        // Movement: one tick of progress for every frame.
        let mut advanced: Vec<EthernetFrame> = Vec::new();
        let mut i: usize = 0;
        while i < self.frames.len()
            invariant
                *self == *old(self),
                old(self).wf(),
                i <= self.frames@.len(),
                advanced@.len() == i,
                forall|j: int|
                    0 <= j < i ==> advanced@[j] == frame_advanced(old(self).frames@[j]),
            decreases self.frames@.len() - i,
        {
            let f = self.frames[i];
            let nf = EthernetFrame {
                id: f.id,
                link_id: f.link_id,
                from_node_id: f.from_node_id,
                progress: f.progress + f.speed,
                speed: f.speed,
                src_mac: f.src_mac,
                dst_mac: f.dst_mac,
            };
            advanced.push(nf);
            i = i + 1;
        }
        proof {
            assert(advanced@ =~= advance_frames(frames0));
        }
        let ghost adv = advanced@;

        // Arrival detection: split without disturbing any index.
        let mut in_flight: Vec<EthernetFrame> = Vec::new();
        let mut arrived: Vec<EthernetFrame> = Vec::new();
        let mut i: usize = 0;
        while i < advanced.len()
            invariant
                *self == *old(self),
                old(self).wf(),
                links0 == old(self).links@,
                advanced@ == adv,
                adv.len() == old(self).frames@.len(),
                forall|j: int| 0 <= j < adv.len() ==> adv[j] == frame_advanced(old(self).frames@[j]),
                i <= adv.len(),
                in_flight@ == in_flight_part(adv.take(i as int)),
                arrived@ == arrived_part(adv.take(i as int)),
                forall|j: int|
                    0 <= j < in_flight@.len() ==> frame_ok(#[trigger] in_flight@[j], links0),
                forall|j: int|
                    0 <= j < arrived@.len() ==> frame_on_links(#[trigger] arrived@[j], links0),
            decreases adv.len() - i,
        {
            let f = advanced[i];
            assert(frame_ok(old(self).frames@[i as int], links0));
            if f.progress >= PROGRESS_ONE {
                arrived.push(f);
            } else {
                in_flight.push(f);
            }
            proof {
                assert(adv.take(i as int + 1).drop_last() =~= adv.take(i as int));
                assert(adv.take(i as int + 1).last() == adv[i as int]);
            }
            i = i + 1;
        }
        proof {
            assert(adv.take(adv.len() as int) =~= adv);
        }
        let ghost fly0 = in_flight_part(adv);
        let ghost arr = arrived@;

        self.frames = in_flight;

        let ghost target = process_arrivals(nodes0, links0, arr, fly0, tables0, deliveries0);
        proof {
            assert(arr.skip(0) =~= arr);
        }

        // Switching: consume each arrival in order.
        let mut j: usize = 0;
        while j < arrived.len()
            invariant
                arrived@ == arr,
                j <= arr.len(),
                forall|m: int|
                    0 <= m < arr.len() ==> frame_on_links(#[trigger] arr[m], links0),
                self.nodes@ == nodes0,
                self.links@ == links0,
                self.wf(),
                process_arrivals(
                    nodes0,
                    links0,
                    arr.skip(j as int),
                    self.frames@,
                    self.mac_tables@,
                    self.deliveries@,
                ) == target,
            decreases arr.len() - j,
        {
            let f = arrived[j];
            let ghost pre_frames = self.frames@;
            let ghost pre_tables = self.mac_tables@;
            let ghost pre_deliveries = self.deliveries@;

            let link = self.links[f.link_id as usize];
            let current_node_id: u32 = if f.from_node_id == link.node_a_id {
                link.node_b_id
            } else {
                link.node_a_id
            };
            assert(current_node_id == far_end(links0, f));
            let node = self.nodes[current_node_id as usize];

            if node.kind == KIND_HOST {
                if f.dst_mac == current_node_id {
                    self.deliveries.push(current_node_id);
                }
            } else {
                // Learning: record the link the source address came in on.
                let k: u64 = table_slot(current_node_id, f.src_mac);
                self.mac_tables.insert(k, f.link_id);
                proof {
                    lemma_table_key_decode(current_node_id, f.src_mac);
                    assert forall|k2: u64| #[trigger]
                        self.mac_tables@.dom().contains(k2) implies table_entry_ok(
                        k2,
                        self.mac_tables@[k2],
                        nodes0,
                        links0,
                    ) by {
                        if k2 != table_key(current_node_id, f.src_mac) {
                            assert(pre_tables.dom().contains(k2));
                        }
                    }
                }
                // Forwarding or flooding.
                let dk: u64 = table_slot(current_node_id, f.dst_mac);
                let looked_up: Option<u32> = match self.mac_tables.get(&dk) {
                    Some(v) => Some(*v),
                    None => None,
                };
                match looked_up {
                    Some(target_link_id) => {
                        if target_link_id != f.link_id {
                            proof {
                                lemma_table_key_decode(current_node_id, f.dst_mac);
                            }
                            self.send_frame(target_link_id, current_node_id, f.dst_mac);
                        }
                    },
                    None => {
                        let conn = self.get_connected_links(current_node_id);
                        let ghost ids = conn@;
                        let ghost flood_base = self.frames@;
                        proof {
                            assert(ids.skip(0) =~= ids);
                        }
                        let mut kk: usize = 0;
                        while kk < conn.len()
                            invariant
                                conn@ == ids,
                                kk <= ids.len(),
                                forall|m: int|
                                    0 <= m < ids.len() ==> ((#[trigger] ids[m]) as int)
                                        < links0.len() && touches(
                                        links0[ids[m] as int],
                                        current_node_id,
                                    ),
                                self.nodes@ == nodes0,
                                self.links@ == links0,
                                self.mac_tables@ == pre_tables.insert(
                                    table_key(current_node_id, f.src_mac),
                                    f.link_id,
                                ),
                                self.deliveries@ == pre_deliveries,
                                self.wf(),
                                flood_ids(
                                    ids.skip(kk as int),
                                    f.link_id,
                                    current_node_id,
                                    f.dst_mac,
                                    self.frames@,
                                ) == flood_ids(
                                    ids,
                                    f.link_id,
                                    current_node_id,
                                    f.dst_mac,
                                    flood_base,
                                ),
                            decreases ids.len() - kk,
                        {
                            let l_id: u32 = conn[kk];
                            proof {
                                assert(ids.skip(kk as int).drop_first() =~= ids.skip(
                                    kk as int + 1,
                                ));
                                assert(ids.skip(kk as int)[0] == ids[kk as int]);
                            }
                            if l_id != f.link_id {
                                self.send_frame(l_id, current_node_id, f.dst_mac);
                            }
                            kk = kk + 1;
                        }
                        proof {
                            assert(ids.skip(ids.len() as int) =~= Seq::<u32>::empty());
                        }
                    },
                }
            }

            proof {
                let one = process_one(nodes0, links0, f, pre_frames, pre_tables, pre_deliveries);
                assert(self.frames@ == one.0);
                assert(self.mac_tables@ == one.1);
                assert(self.deliveries@ == one.2);
                assert(arr.skip(j as int)[0] == arr[j as int]);
                assert(arr.skip(j as int).drop_first() =~= arr.skip(j as int + 1));
            }
            j = j + 1;
        }
        proof {
            assert(arr.skip(arr.len() as int) =~= Seq::<EthernetFrame>::empty());
        }
    }

    /// The frame at a pool slot, if the slot is occupied.
    pub fn get_frame(&self, index: usize) -> (r: Option<EthernetFrame>)
        ensures
            (index as int) < self.frames@.len() ==> r == Some(self.frames@[index as int]),
            (index as int) >= self.frames@.len() ==> r is None,
    {
        if index < self.frames.len() {
            Some(self.frames[index])
        } else {
            None
        }
    }

    /// Read-only view of the node records.
    pub fn nodes(&self) -> (r: &Vec<Node>)
        ensures
            r@ == self.nodes@,
    {
        &self.nodes
    }

    /// The number of nodes.
    pub fn nodes_len(&self) -> (n: usize)
        ensures
            n == self.nodes@.len(),
    {
        self.nodes.len()
    }

    /// Read-only view of the link records.
    pub fn links(&self) -> (r: &Vec<Link>)
        ensures
            r@ == self.links@,
    {
        &self.links
    }

    /// The number of links.
    pub fn links_len(&self) -> (n: usize)
        ensures
            n == self.links@.len(),
    {
        self.links.len()
    }

    /// Read-only view of the frames currently in flight.
    pub fn frames(&self) -> (r: &Vec<EthernetFrame>)
        ensures
            r@ == self.frames@,
    {
        &self.frames
    }

    /// The number of frames currently in flight.
    pub fn frames_len(&self) -> (n: usize)
        ensures
            n == self.frames@.len(),
    {
        self.frames.len()
    }

    /// Read-only view of the delivery log: the id of each host that
    /// received a frame addressed to it, in order of delivery.
    pub fn deliveries(&self) -> (r: &Vec<u32>)
        ensures
            r@ == self.deliveries@,
    {
        &self.deliveries
    }

    /// The number of matched host deliveries so far.
    pub fn deliveries_len(&self) -> (n: usize)
        ensures
            n == self.deliveries@.len(),
    {
        self.deliveries.len()
    }

    /// What switch `node_id` has learned about `mac`: the link on which a
    /// frame from that address last reached it, if any frame has.
    pub fn mac_table_lookup(&self, node_id: u32, mac: u32) -> (r: Option<u32>)
        ensures
            self.mac_tables@.dom().contains(table_key(node_id, mac)) ==> r == Some(
                self.mac_tables@[table_key(node_id, mac)],
            ),
            !self.mac_tables@.dom().contains(table_key(node_id, mac)) ==> r is None,
    {
        let k = table_slot(node_id, mac);
        match self.mac_tables.get(&k) {
            Some(v) => Some(*v),
            None => None,
        }
    }
}

/// Id density: in a well-formed state, node ids are exactly the insertion
/// order `0, 1, ...` of the nodes, and link ids likewise — each record's id
/// equals its slot.
pub proof fn lemma_id_density(s: NetworkState)
    requires
        s.wf(),
    ensures
        forall|i: int| 0 <= i < s.nodes@.len() ==> (#[trigger] s.nodes@[i]).id == i,
        forall|i: int| 0 <= i < s.links@.len() ==> (#[trigger] s.links@[i]).id == i,
{
}

/// The pool slot a new frame gets as its id, reduced to a word as the pool
/// may outgrow one.
fn fresh_frame_id(slot: usize) -> (id: u32)
    ensures
        id == frame_id_of(slot as int),
{
    ((slot as u64) % 0x1_0000_0000) as u32
}

/// The packed learning-table key of switch `node_id` and address `mac`.
fn table_slot(node_id: u32, mac: u32) -> (k: u64)
    ensures
        k == table_key(node_id, mac),
{
    (node_id as u64) * 0x1_0000_0000 + (mac as u64)
}

} // verus!
