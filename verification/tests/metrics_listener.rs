use drone_sim::config::{Client, Config, Drone, Server};
use drone_sim::listener;
use drone_sim::metrics::{DroneMetrics, HostMetrics, Metrics, PacketCounts, PacketTypeLabel};
use drone_sim::node::{ControllerEvent, DroneEvent, HostEvent};
use drone_sim::packet::{
    Ack, Fragment, Packet, PacketHeader, PacketType, PacketTypeHeader, SourceRoutingHeader,
};
use drone_sim::state::SimulationState;
use drone_sim::topology::NodeType;

fn fragment_packet(hops: Vec<u8>, hop_index: usize) -> Packet {
    let fragment = Fragment::from_data(0, 1, &vec![1, 2, 3]);
    Packet::new_fragment(SourceRoutingHeader::new(hops, hop_index), 7, fragment)
}

fn ack_packet(hops: Vec<u8>, hop_index: usize) -> Packet {
    Packet::new_ack(SourceRoutingHeader::new(hops, hop_index), 7, 4)
}

#[test]
fn fragment_builder_pads_to_the_fixed_size() {
    let fragment = Fragment::from_data(2, 5, &vec![9, 8]);
    assert_eq!(fragment.fragment_index, 2);
    assert_eq!(fragment.total_n_fragments, 5);
    assert_eq!(fragment.length, 2);
    assert_eq!(fragment.data.len(), 128);
    assert_eq!(fragment.data[0], 9);
    assert_eq!(fragment.data[1], 8);
    assert_eq!(fragment.data[2], 0);
    let truncated = Fragment::from_data(0, 1, &vec![1; 200]);
    assert_eq!(truncated.length, 128);
}

#[test]
fn rolling_window_records_outcomes_and_trims_to_one_hundred() {
    let mut dm = DroneMetrics::new();
    dm.update_pdr(false, 1);
    let (failed, window) = dm.current_pdr();
    assert_eq!((failed, window), (1, 1));
    for t in 0..150u64 {
        dm.update_pdr(true, t);
    }
    let (failed, window) = dm.current_pdr();
    assert_eq!(window, 100);
    assert_eq!(failed, 0);
    assert_eq!(dm.time_series.len(), 151);
}

#[test]
fn drop_events_keep_the_window_fraction_exact() {
    let mut dm = DroneMetrics::new();
    dm.update_pdr(false, 1);
    dm.update_pdr(true, 2);
    dm.update_pdr(false, 3);
    dm.update_pdr(true, 4);
    let (failed, window) = dm.current_pdr();
    assert_eq!((failed, window), (2, 4));
}

#[test]
fn record_packet_counts_by_class_and_marks_fragments_successful() {
    let mut dm = DroneMetrics::new();
    dm.record_packet(PacketTypeLabel::MsgFragment, 1);
    dm.record_packet(PacketTypeLabel::Ack, 2);
    dm.record_packet(PacketTypeLabel::MsgFragment, 3);
    assert_eq!(dm.number_of_msg_fragments_sent(), 2);
    assert_eq!(dm.number_of_packets_sent(), 3);
    let (failed, window) = dm.current_pdr();
    assert_eq!((failed, window), (0, 2));
}

#[test]
fn packet_counts_saturate_at_the_top() {
    let mut counts = PacketCounts::new();
    counts.ack = u64::MAX;
    counts.bump(PacketTypeLabel::Ack);
    assert_eq!(counts.ack, u64::MAX);
    counts.nack = u64::MAX - 1;
    counts.bump(PacketTypeLabel::Nack);
    assert_eq!(counts.nack, u64::MAX);
    assert_eq!(counts.total_sat(), u64::MAX);
}

#[test]
fn a_drone_fragment_send_bumps_the_heatmap_once() {
    let mut metrics = Metrics::new();
    metrics.insert_node(1, NodeType::Drone);
    // the packet sits at hop index 2, so its current hop is node 20
    let packet = fragment_packet(vec![10, 1, 20], 2);
    metrics.update_drone_packet_sent(1, &packet, 5);
    let sent = match &metrics.drone_metrics[1] {
        Some(dm) => dm.number_of_msg_fragments_sent(),
        None => 0,
    };
    assert_eq!(sent, 1);
    assert_eq!(heat_of(&metrics, 1, 20), 1);
    assert_eq!(heat_of(&metrics, 1, 10), 0);
}

#[test]
fn an_unregistered_sender_moves_neither_counter_nor_heatmap() {
    let mut metrics = Metrics::new();
    let packet = fragment_packet(vec![10, 1, 20], 2);
    metrics.update_drone_packet_sent(1, &packet, 5);
    assert!(metrics.drone_metrics[1].is_none());
    assert_eq!(heat_of(&metrics, 1, 20), 0);
}

#[test]
fn heatmap_and_fragment_totals_move_in_step() {
    let mut metrics = Metrics::new();
    metrics.insert_node(1, NodeType::Drone);
    let packet = fragment_packet(vec![10, 1, 20], 2);
    metrics.update_drone_packet_sent(1, &packet, 5);
    metrics.update_drone_packet_sent(1, &packet, 6);
    let overview_heat: u64 = heat_of(&metrics, 1, 20);
    assert_eq!(overview_heat, 2);
    let sent = match &metrics.drone_metrics[1] {
        Some(dm) => dm.number_of_msg_fragments_sent(),
        None => 0,
    };
    assert_eq!(sent, 2);
}

fn heat_of(metrics: &Metrics, s: u8, d: u8) -> u64 {
    metrics.global_heatmap[s as usize * 256 + d as usize]
}

#[test]
fn an_ack_reaching_its_last_hop_credits_the_destination_host() {
    let mut metrics = Metrics::new();
    metrics.insert_node(1, NodeType::Drone);
    metrics.insert_node(10, NodeType::Client);
    let packet = ack_packet(vec![20, 1, 10], 2);
    metrics.update_drone_packet_sent(1, &packet, 5);
    match &metrics.host_metrics[10] {
        Some(hm) => {
            assert_eq!(hm.dest_stats[20], (0, 1));
            assert_eq!(hm.time_series.len(), 1);
        }
        None => panic!("client 10 is registered"),
    }
}

#[test]
fn host_packet_sends_count_per_destination() {
    let mut hm = HostMetrics::new();
    hm.record_packet(20, PacketTypeLabel::MsgFragment, 1);
    hm.record_packet(20, PacketTypeLabel::MsgFragment, 2);
    hm.record_packet(30, PacketTypeLabel::Ack, 3);
    assert_eq!(hm.dest_stats[20], (2, 0));
    assert_eq!(hm.dest_stats[30], (1, 0));
    assert_eq!(hm.number_of_fragments_sent(), 2);
    assert_eq!(hm.number_of_packets_sent(), 3);
    assert_eq!(hm.time_series.len(), 2);
    hm.record_latency(42);
    assert_eq!(hm.number_of_messages_sent(), 1);
}

fn running_state() -> SimulationState {
    let config = Config {
        drone: vec![
            Drone { id: 1, connected_node_ids: vec![2, 3, 10, 20], pdr: 0 },
            Drone { id: 2, connected_node_ids: vec![1, 3, 20], pdr: 0 },
            Drone { id: 3, connected_node_ids: vec![1, 2], pdr: 0 },
        ],
        client: vec![Client { id: 10, connected_drone_ids: vec![1] }],
        server: vec![Server { id: 20, connected_drone_ids: vec![1, 2] }],
    };
    let mut state = SimulationState::new();
    state.load_config(config);
    state.start_simulation().expect("the triangle topology starts");
    state
}

#[test]
fn process_event_records_and_projects_a_drop() {
    let mut state = running_state();
    let packet = fragment_packet(vec![10, 1, 20], 1);
    let event = ControllerEvent::Drone { node_id: 1, event: DroneEvent::PacketDropped(packet) };
    listener::process_event(&mut state, event, 9);
    assert_eq!(state.get_received_messages().len(), 1);
    match &state.metrics.drone_metrics[1] {
        Some(dm) => {
            assert_eq!(dm.drops, 1);
            let (failed, window) = dm.current_pdr();
            assert_eq!((failed, window), (1, 1));
            assert!(window <= 100);
        }
        None => panic!("drone 1 is registered"),
    }
}

#[test]
fn a_shortcut_ack_is_delivered_to_its_destination() {
    let mut state = running_state();
    let packet = ack_packet(vec![20, 1, 10], 1);
    let event = ControllerEvent::Drone { node_id: 1, event: DroneEvent::ControllerShortcut(packet) };
    listener::process_event(&mut state, event, 9);
    match &state.metrics.drone_metrics[1] {
        Some(dm) => assert_eq!(dm.shortcuts, 1),
        None => panic!("drone 1 is registered"),
    }
    let (_, receiver) = state.inter_node_channels[10].as_ref().unwrap();
    let delivered = receiver.try_recv().expect("the destination got the packet");
    assert_eq!(delivered.routing_header.hops, vec![20, 1, 10]);
    assert!(matches!(delivered.pack_type, PacketType::Ack(Ack { fragment_index: 4 })));
}

#[test]
fn a_shortcut_fragment_is_refused() {
    let mut state = running_state();
    let packet = fragment_packet(vec![10, 1, 20], 1);
    let event = ControllerEvent::Drone { node_id: 1, event: DroneEvent::ControllerShortcut(packet) };
    listener::process_event(&mut state, event, 9);
    match &state.metrics.drone_metrics[1] {
        Some(dm) => assert_eq!(dm.shortcuts, 0),
        None => panic!("drone 1 is registered"),
    }
    let (_, receiver) = state.inter_node_channels[20].as_ref().unwrap();
    assert!(receiver.try_recv().is_err());
}

#[test]
fn host_events_project_onto_host_metrics() {
    let mut state = running_state();
    let header = PacketHeader {
        routing_header: SourceRoutingHeader::new(vec![10, 1, 20], 1),
        pack_type: PacketTypeHeader::MsgFragment,
    };
    let event = ControllerEvent::Host { node_id: 10, event: HostEvent::PacketSent(header) };
    listener::process_event(&mut state, event, 9);
    let sent_event = ControllerEvent::Host {
        node_id: 10,
        event: HostEvent::HostMessageSent(20, "status report".to_string(), 17),
    };
    listener::process_event(&mut state, sent_event, 10);
    match &state.metrics.host_metrics[10] {
        Some(hm) => {
            assert_eq!(hm.dest_stats[20], (1, 0));
            assert_eq!(hm.latencies, vec![17]);
        }
        None => panic!("client 10 is registered"),
    }
    assert_eq!(heat_of(&state.metrics, 10, 1), 1);
    assert_eq!(state.get_received_messages().len(), 2);
}

#[test]
fn get_new_messages_returns_the_tagged_tail() {
    let mut state = running_state();
    for session in 0..5u64 {
        let packet = Packet::new_ack(SourceRoutingHeader::new(vec![10, 1], 0), session, 0);
        let event = ControllerEvent::Drone { node_id: 1, event: DroneEvent::PacketSent(packet) };
        listener::process_event(&mut state, event, session);
    }
    let all = listener::get_new_messages(&state, 0, 100);
    assert_eq!(all.len(), 5);
    assert_eq!(all[0].id, 0);
    assert_eq!(all[4].id, 4);
    assert_eq!(all[0].node, 1);
    assert_eq!(all[0].node_type, "Drone");
    assert!(matches!(all[0].event_type, listener::EventType::PacketSent));
    let tail = listener::get_new_messages(&state, 3, 100);
    assert_eq!(tail.len(), 2);
    assert_eq!(tail[0].id, 3);
    let window = listener::get_new_messages(&state, 0, 2);
    assert_eq!(window.len(), 2);
    assert_eq!(window[0].id, 3);
    let none = listener::get_new_messages(&state, 5, 100);
    assert_eq!(none.len(), 0);
}

#[test]
fn collect_events_drains_one_event_per_node() {
    let state = running_state();
    // push one event into drone 2's event queue through its node-side
    // sender half
    match &state.drone_node_endpoints[2] {
        Some((_, evt_tx)) => {
            let packet = ack_packet(vec![10, 1], 0);
            evt_tx.send(DroneEvent::PacketSent(packet)).unwrap();
        }
        None => panic!("drone 2 has endpoints"),
    }
    let events = listener::collect_events(&state);
    assert_eq!(events.len(), 1);
    match &events[0] {
        ControllerEvent::Drone { node_id, event: DroneEvent::PacketSent(_) } => {
            assert_eq!(*node_id, 2);
        }
        _ => panic!("the drone event came back"),
    }
    assert_eq!(listener::collect_events(&state).len(), 0);
}
