use net_core::topology::{KIND_HOST, KIND_SWITCH};
use net_core::NetworkState;

#[test]
fn test_topology_creation() {
    let mut state: NetworkState = NetworkState::new();

    // 0 = Host
    let id1: u32 = state.add_node(0, 0, 0);
    assert_eq!(id1, 0);

    let id2: u32 = state.add_node(100, 100, 0);
    assert_eq!(id2, 1);

    let link_id: u32 = state.add_link(id1, id2);
    assert_eq!(link_id, 0);

    assert_eq!(state.nodes_len(), 2);
}

#[test]
fn test_switch_flooding() {
    let mut state = NetworkState::new();
    // Node 0 (Host) -- Node 1 (Switch) -- Node 2 (Host)
    let n0 = state.add_node(0, 0, 0);
    let n1_sw = state.add_node(50, 0, 1); // Switch
    let n2 = state.add_node(100, 0, 0);

    let l1 = state.add_link(n0, n1_sw);
    let _l2 = state.add_link(n1_sw, n2);

    // Host 0 -> Host 2
    state.send_frame(l1, n0, n2);

    for _ in 0..25 {
        state.tick();
    }

    // The switch flooded, so frames are still in flight.
    assert!(state.frames_len() > 0);
}

#[test]
fn test_node_and_link_ids_are_dense() {
    let mut state = NetworkState::new();
    for i in 0..5u32 {
        let id = state.add_node(i as i64, 0, KIND_HOST);
        assert_eq!(id, i);
    }
    for i in 0..4u32 {
        let id = state.add_link(i, i + 1);
        assert_eq!(id, i);
    }
    assert_eq!(state.nodes_len(), 5);
    assert_eq!(state.links_len(), 4);
    for i in 0..5usize {
        assert_eq!(state.nodes()[i].id, i as u32);
    }
    for i in 0..4usize {
        assert_eq!(state.links()[i].id, i as u32);
    }
}

#[test]
fn test_link_length_three_four_five() {
    let mut state = NetworkState::new();
    let a = state.add_node(0, 0, KIND_HOST);
    let b = state.add_node(3, 4, KIND_HOST);
    let l = state.add_link(a, b);
    assert_eq!(state.links()[l as usize].length, 5);
}

#[test]
fn test_link_length_is_floor_of_distance() {
    let mut state = NetworkState::new();
    let a = state.add_node(0, 0, KIND_HOST);
    let b = state.add_node(100, 100, KIND_HOST);
    let l = state.add_link(a, b);
    // sqrt(20000) = 141.42..., stored as its floor.
    assert_eq!(state.links()[l as usize].length, 141);
}

#[test]
fn test_exact_tick_arrival() {
    let mut state = NetworkState::new();
    let n0 = state.add_node(0, 0, KIND_HOST);
    let n1 = state.add_node(100, 0, KIND_HOST);
    let l = state.add_link(n0, n1);

    state.send_frame(l, n0, n1);

    // Present (and short of arrival) for ticks 1 through 19.
    for t in 1..20u64 {
        state.tick();
        assert_eq!(state.frames_len(), 1);
        let f = state.get_frame(0).unwrap();
        assert_eq!(f.progress, 50 * t);
        assert_eq!(state.deliveries_len(), 0);
    }

    // Gone at tick 20, when progress reaches a full traversal.
    state.tick();
    assert_eq!(state.frames_len(), 0);
    assert_eq!(state.deliveries_len(), 1);
}

#[test]
fn test_host_absorption() {
    let mut state = NetworkState::new();
    let n0 = state.add_node(0, 0, KIND_HOST);
    let n1 = state.add_node(100, 0, KIND_HOST);
    let l = state.add_link(n0, n1);

    state.send_frame(l, n0, n1);
    for _ in 0..20 {
        state.tick();
    }

    // Exactly one notification, for the addressed host; zero new frames.
    assert_eq!(state.deliveries_len(), 1);
    assert_eq!(state.deliveries()[0], n1);
    assert_eq!(state.frames_len(), 0);
}

#[test]
fn test_host_mismatch_drop() {
    let mut state = NetworkState::new();
    let n0 = state.add_node(0, 0, KIND_HOST);
    let n1 = state.add_node(100, 0, KIND_HOST);
    let l = state.add_link(n0, n1);

    // Addressed to a node that is not the far-end host.
    state.send_frame(l, n0, 7);
    for _ in 0..20 {
        state.tick();
    }

    assert_eq!(state.deliveries_len(), 0);
    assert_eq!(state.frames_len(), 0);
}

#[test]
fn test_switch_flood_then_converge() {
    let mut state = NetworkState::new();
    let n0 = state.add_node(0, 0, KIND_HOST);
    let n1 = state.add_node(50, 0, KIND_SWITCH);
    let n2 = state.add_node(100, 0, KIND_HOST);
    let l01 = state.add_link(n0, n1);
    let l12 = state.add_link(n1, n2);

    state.send_frame(l01, n0, n2);

    // 20 ticks bring the frame to the switch, which floods it on the only
    // other link and learns where node 0 lives.
    for _ in 0..20 {
        state.tick();
    }
    assert_eq!(state.frames_len(), 1);
    let f = state.get_frame(0).unwrap();
    assert_eq!(f.link_id, l12);
    assert_eq!(f.from_node_id, n1);
    assert_eq!(f.dst_mac, n2);
    assert_eq!(state.mac_table_lookup(n1, n0), Some(l01));
    assert_eq!(state.deliveries_len(), 0);

    // 20 more ticks: the copy reaches host 2 and is absorbed.
    for _ in 0..20 {
        state.tick();
    }
    assert_eq!(state.frames_len(), 0);
    assert_eq!(state.deliveries_len(), 1);
    assert_eq!(state.deliveries()[0], n2);
}

#[test]
fn test_learned_forward_no_reflood() {
    let mut state = NetworkState::new();
    let n0 = state.add_node(0, 0, KIND_HOST);
    let n1 = state.add_node(50, 0, KIND_SWITCH);
    let n2 = state.add_node(100, 0, KIND_HOST);
    let n3 = state.add_node(50, 50, KIND_HOST);
    let l01 = state.add_link(n0, n1);
    let l12 = state.add_link(n1, n2);
    let l13 = state.add_link(n1, n3);

    // Teach the switch where node 2 lives: a frame from node 2 reaches the
    // switch, is flooded (destination unknown), and its copies die out.
    state.send_frame(l12, n2, n0);
    for _ in 0..40 {
        state.tick();
    }
    assert_eq!(state.mac_table_lookup(n1, n2), Some(l12));
    assert_eq!(state.frames_len(), 0);

    // A frame for node 2 is now forwarded on the learned link only.
    state.send_frame(l01, n0, n2);
    for _ in 0..20 {
        state.tick();
    }
    assert_eq!(state.frames_len(), 1);
    let f = state.get_frame(0).unwrap();
    assert_eq!(f.link_id, l12);
    assert_eq!(f.from_node_id, n1);

    // No copy went to node 3's link; node 2 receives the frame.
    for _ in 0..20 {
        state.tick();
    }
    assert_eq!(state.frames_len(), 0);
    assert_eq!(*state.deliveries().last().unwrap(), n2);
    let _ = l13;
}

#[test]
fn test_same_link_suppression() {
    let mut state = NetworkState::new();
    let n0 = state.add_node(0, 0, KIND_HOST);
    let n1 = state.add_node(50, 0, KIND_SWITCH);
    let n2 = state.add_node(100, 0, KIND_HOST);
    let l01 = state.add_link(n0, n1);
    let _l12 = state.add_link(n1, n2);

    // The frame's source and destination sit behind the same link: after
    // learning, the looked-up link equals the arrival link, so the switch
    // retransmits nothing at all.
    state.send_frame(l01, n0, n0);
    for _ in 0..20 {
        state.tick();
    }
    assert_eq!(state.mac_table_lookup(n1, n0), Some(l01));
    assert_eq!(state.frames_len(), 0);
    assert_eq!(state.deliveries_len(), 0);
}

#[test]
fn test_idle_ticks_leave_topology_alone() {
    let mut state = NetworkState::new();
    let n0 = state.add_node(0, 0, KIND_HOST);
    let n1 = state.add_node(50, 0, KIND_SWITCH);
    let n2 = state.add_node(100, 25, KIND_HOST);
    state.add_link(n0, n1);
    state.add_link(n1, n2);

    for _ in 0..10 {
        state.tick();
    }

    assert_eq!(state.nodes_len(), 3);
    assert_eq!(state.links_len(), 2);
    assert_eq!(state.frames_len(), 0);
    assert_eq!(state.deliveries_len(), 0);
    assert_eq!(state.nodes()[1].x, 50);
    assert_eq!(state.nodes()[1].kind, KIND_SWITCH);
    assert_eq!(state.links()[1].node_a_id, n1);
    assert_eq!(state.links()[1].node_b_id, n2);
}

#[test]
fn test_lookup_before_learning_is_empty() {
    let mut state = NetworkState::new();
    let n0 = state.add_node(0, 0, KIND_HOST);
    let n1 = state.add_node(50, 0, KIND_SWITCH);
    state.add_link(n0, n1);
    assert_eq!(state.mac_table_lookup(n1, n0), None);
}

#[test]
fn test_get_frame_out_of_range() {
    let mut state = NetworkState::new();
    let n0 = state.add_node(0, 0, KIND_HOST);
    let n1 = state.add_node(100, 0, KIND_HOST);
    let l = state.add_link(n0, n1);
    assert!(state.get_frame(0).is_none());
    state.send_frame(l, n0, n1);
    assert!(state.get_frame(0).is_some());
    assert!(state.get_frame(1).is_none());
}

#[test]
fn test_sent_frame_fields() {
    let mut state = NetworkState::new();
    let n0 = state.add_node(0, 0, KIND_HOST);
    let n1 = state.add_node(100, 0, KIND_HOST);
    let l = state.add_link(n0, n1);

    let id = state.send_frame(l, n0, n1);
    assert_eq!(id, 0);
    let f = state.get_frame(0).unwrap();
    assert_eq!(f.id, 0);
    assert_eq!(f.link_id, l);
    assert_eq!(f.from_node_id, n0);
    assert_eq!(f.progress, 0);
    assert_eq!(f.speed, 50);
    assert_eq!(f.src_mac, n0);
    assert_eq!(f.dst_mac, n1);
}
