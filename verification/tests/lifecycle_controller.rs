use drone_sim::config::{Client, Config, Drone, Server};
use drone_sim::controller;
use drone_sim::errors::{NetworkError, ValidationIssue};
use drone_sim::packet::{PacketType, SourceRoutingHeader};
use drone_sim::state::{SimulationState, SimulationStatus};

fn triangle_config() -> Config {
    Config {
        drone: vec![
            Drone { id: 1, connected_node_ids: vec![2, 3, 10, 20], pdr: 0 },
            Drone { id: 2, connected_node_ids: vec![1, 3, 20], pdr: 0 },
            Drone { id: 3, connected_node_ids: vec![1, 2], pdr: 0 },
        ],
        client: vec![Client { id: 10, connected_drone_ids: vec![1] }],
        server: vec![Server { id: 20, connected_drone_ids: vec![1, 2] }],
    }
}

fn running_state() -> SimulationState {
    let mut state = SimulationState::new();
    state.load_config(triangle_config());
    state.start_simulation().expect("the triangle topology starts");
    state
}

fn line_config() -> Config {
    // Drones 1-2-3 in a line, client 10 on drone 1, server 20 on drones
    // 1 and 3.
    Config {
        drone: vec![
            Drone { id: 1, connected_node_ids: vec![2, 10, 20], pdr: 0 },
            Drone { id: 2, connected_node_ids: vec![1, 3], pdr: 0 },
            Drone { id: 3, connected_node_ids: vec![2, 20], pdr: 0 },
        ],
        client: vec![Client { id: 10, connected_drone_ids: vec![1] }],
        server: vec![Server { id: 20, connected_drone_ids: vec![1, 3] }],
    }
}

#[test]
fn start_without_config_is_rejected() {
    let mut state = SimulationState::new();
    assert!(matches!(
        state.start_simulation(),
        Err(NetworkError::NoConfigLoaded)
    ));
}

#[test]
fn start_twice_is_rejected() {
    let mut state = running_state();
    assert!(matches!(
        state.start_simulation(),
        Err(NetworkError::NetworkAlreadyRunning)
    ));
}

#[test]
fn start_builds_the_fabric_for_every_node() {
    let state = running_state();
    assert_eq!(state.get_status(), SimulationStatus::Running);
    for id in [1u8, 2, 3, 10, 20] {
        assert!(state.inter_node_channels[id as usize].is_some());
    }
    for id in [1u8, 2, 3] {
        assert!(state.drones_controller_channels[id as usize].is_some());
    }
    assert!(state.client_controller_channels[10].is_some());
    assert!(state.server_controller_channels[20].is_some());
    assert!(state.inter_node_channels[4].is_none());
    assert!(state.drones_controller_channels[10].is_none());
}

#[test]
fn start_rejects_duplicate_ids() {
    let mut config = triangle_config();
    config.client.push(Client { id: 1, connected_drone_ids: vec![2] });
    let mut state = SimulationState::new();
    state.load_config(config);
    assert_eq!(
        state.start_simulation(),
        Err(NetworkError::ValidationError(ValidationIssue::DuplicateNodeId))
    );
    assert_eq!(state.get_status(), SimulationStatus::Init);
}

#[test]
fn stop_clears_everything_and_is_idempotent() {
    let mut state = running_state();
    assert!(state.stop_simulation().is_ok());
    assert_eq!(state.get_status(), SimulationStatus::Stopped);
    for slot in state.inter_node_channels.iter() {
        assert!(slot.is_none());
    }
    assert!(state.get_received_messages().is_empty());
    // stopping again changes nothing
    assert!(state.stop_simulation().is_ok());
    assert_eq!(state.get_status(), SimulationStatus::Stopped);
    // a further start/stop pair lands in the same observable state
    assert!(state.start_simulation().is_ok());
    assert!(state.stop_simulation().is_ok());
    assert_eq!(state.get_status(), SimulationStatus::Stopped);
    for slot in state.inter_node_channels.iter() {
        assert!(slot.is_none());
    }
    assert!(state.get_config().is_some());
}

#[test]
fn set_pdr_rejects_101_and_accepts_0_and_100() {
    let mut state = running_state();
    assert_eq!(
        controller::set_pdr(&mut state, 1, 101),
        Err(NetworkError::InvalidPdr(101))
    );
    assert!(controller::set_pdr(&mut state, 1, 0).is_ok());
    assert!(controller::set_pdr(&mut state, 1, 100).is_ok());
    match state.get_graph().get_node_type(1) {
        Some(drone_sim::topology::NodeMetadata::Drone(d)) => assert_eq!(d.get_pdr(), 100),
        _ => panic!("drone expected"),
    }
}

#[test]
fn set_pdr_on_a_host_fails() {
    let mut state = running_state();
    assert!(controller::set_pdr(&mut state, 10, 50).is_err());
}

#[test]
fn crash_drone_that_would_strand_the_server_is_rejected() {
    // Crashing drone 2 leaves server 20 with a single neighbor, so the
    // proposed graph fails validation and drone 2 stays alive.
    let mut state = running_state();
    assert!(matches!(
        controller::crash_drone(&mut state, 2),
        Err(NetworkError::ValidationError(_))
    ));
    assert!(state.get_graph().get_node_type(2).is_some());
    assert!(state.drones_controller_channels[2].is_some());
}

#[test]
fn crash_drone_commits_when_the_rest_stays_valid() {
    let mut state = running_state();
    assert!(controller::crash_drone(&mut state, 3).is_ok());
    assert!(state.get_graph().get_node_type(3).is_none());
    assert!(state.inter_node_channels[3].is_none());
    assert!(state.drones_controller_channels[3].is_none());
    assert_eq!(state.get_graph().get_neighbors(1), vec![2, 10, 20]);
}

#[test]
fn crash_drone_rejects_hosts_and_unknown_ids() {
    let mut state = running_state();
    assert_eq!(
        controller::crash_drone(&mut state, 10),
        Err(NetworkError::NodeIsNotDrone(10))
    );
    assert_eq!(
        controller::crash_drone(&mut state, 99),
        Err(NetworkError::NodeIsNotDrone(99))
    );
}

#[test]
fn live_add_and_remove_edge_round_trip() {
    let mut state = running_state();
    let before = state.get_graph().get_neighbors(3);
    assert!(controller::add_edge(&mut state, 3, 20).is_ok());
    assert_eq!(state.get_graph().get_neighbors(3), vec![1, 2, 20]);
    assert!(controller::remove_edge(&mut state, 3, 20).is_ok());
    assert_eq!(state.get_graph().get_neighbors(3), before);
}

#[test]
fn live_remove_edge_that_disconnects_is_rejected() {
    let mut state = running_state();
    // removing the only client link would strand client 10
    assert!(matches!(
        controller::remove_edge(&mut state, 1, 10),
        Err(NetworkError::ValidationError(_))
    ));
    assert_eq!(state.get_graph().get_neighbors(10), vec![1]);
}

#[test]
fn add_drone_takes_the_smallest_unused_id() {
    // From the 1-2-3 line the next free id counting from one is 4.
    let mut state = SimulationState::new();
    state.load_config(line_config());
    state.start_simulation().expect("the line topology starts");
    let groups = vec!["alpha".to_string(), "beta".to_string()];
    let id = controller::add_drone(&mut state, vec![2], 10, &groups).expect("add succeeds");
    assert_eq!(id, 4);
    assert!(state.get_graph().get_node_type(4).is_some());
    assert_eq!(state.get_graph().get_neighbors(4), vec![2]);
    assert_eq!(state.get_graph().get_neighbors(2), vec![1, 3, 4]);
    assert!(state.inter_node_channels[4].is_some());
    assert!(state.drones_controller_channels[4].is_some());
    let group = state.get_graph().get_drone_group(4).expect("a group was assigned");
    assert!(group == "alpha" || group == "beta");
}

#[test]
fn add_drone_with_an_invalid_proposal_is_rejected() {
    // A new drone with no neighbors would leave the graph disconnected,
    // so validation rejects the proposal and nothing changes.
    let mut state = running_state();
    let groups: Vec<String> = Vec::new();
    assert!(matches!(
        controller::add_drone(&mut state, vec![], 10, &groups),
        Err(NetworkError::ValidationError(_))
    ));
    assert!(state.get_graph().get_node_type(4).is_none());
    assert!(state.inter_node_channels[4].is_none());
}

#[test]
fn add_drone_rejects_an_out_of_range_drop_rate() {
    let mut state = running_state();
    let groups: Vec<String> = Vec::new();
    assert_eq!(
        controller::add_drone(&mut state, vec![1], 101, &groups),
        Err(NetworkError::InvalidPdr(101))
    );
}

#[test]
fn send_packet_prepends_the_sender_and_advances_the_hop_index() {
    let state = running_state();
    // route [10, 1, 20] given by the operator, but injected on behalf of
    // node 10: hops already open with the sender, so nothing changes and
    // the packet lands in drone 1's inbound queue... whereas a route
    // [1, 20] on behalf of 10 gets 10 prepended and the index advanced.
    let r = controller::send_packet(
        &state,
        10,
        7,
        "MsgFragment".to_string(),
        vec![1, 20],
        Some(0),
        Some(1),
        Some(vec![104, 105]),
        None,
        None,
    );
    assert!(r.is_ok());
    let (_, receiver) = state.inter_node_channels[1].as_ref().unwrap();
    let packet = receiver.try_recv().expect("drone 1 received the packet");
    assert_eq!(packet.routing_header.hops, vec![10, 1, 20]);
    assert_eq!(packet.routing_header.hop_index, 1);
    match packet.pack_type {
        PacketType::MsgFragment(fragment) => {
            assert_eq!(fragment.fragment_index, 0);
            assert_eq!(fragment.total_n_fragments, 1);
            assert_eq!(fragment.length, 2);
            assert_eq!(&fragment.data[..2], &[104, 105]);
        }
        _ => panic!("a fragment was sent"),
    }
    let state2 = running_state();
    let r2 = controller::send_packet(
        &state2,
        10,
        8,
        "Ack".to_string(),
        vec![10, 1, 20],
        Some(3),
        None,
        None,
        None,
        None,
    );
    assert!(r2.is_ok());
    let (_, receiver2) = state2.inter_node_channels[10].as_ref().unwrap();
    let packet2 = receiver2.try_recv().expect("the opener keeps the route");
    assert_eq!(packet2.routing_header.hops, vec![10, 1, 20]);
    assert_eq!(packet2.routing_header.hop_index, 0);
}

#[test]
fn send_packet_classifies_bad_arguments() {
    let state = running_state();
    assert_eq!(
        controller::send_packet(
            &state,
            10,
            1,
            "MsgFragment".to_string(),
            vec![10, 1],
            None,
            None,
            None,
            None,
            None,
        ),
        Err(NetworkError::InvalidOperation)
    );
    assert_eq!(
        controller::send_packet(
            &state,
            10,
            1,
            "Nack".to_string(),
            vec![10, 1],
            Some(0),
            None,
            None,
            Some("ErrorInRouting".to_string()),
            None,
        ),
        Err(NetworkError::InvalidOperation)
    );
    assert!(matches!(
        controller::send_packet(
            &state,
            99,
            1,
            "Ack".to_string(),
            vec![99, 1],
            Some(0),
            None,
            None,
            None,
            None,
        ),
        Err(NetworkError::NodeNotFound(99))
    ));
    assert!(matches!(
        controller::send_packet(
            &state,
            10,
            1,
            "Telegram".to_string(),
            vec![10, 1],
            None,
            None,
            None,
            None,
            None,
        ),
        Err(NetworkError::Other(_))
    ));
}

#[test]
fn an_injected_discovery_request_carries_the_senders_true_kind() {
    let state = running_state();
    let r = controller::send_packet(
        &state,
        20,
        9,
        "FloodRequest".to_string(),
        vec![20, 2],
        None,
        None,
        None,
        None,
        None,
    );
    assert!(r.is_ok());
    let (_, receiver) = state.inter_node_channels[20].as_ref().unwrap();
    let packet = receiver.try_recv().expect("the opener keeps the route");
    match packet.pack_type {
        PacketType::FloodRequest(request) => {
            assert_eq!(request.flood_id, 0);
            assert_eq!(request.initiator_id, 20);
            assert_eq!(
                request.path_trace,
                vec![(20, drone_sim::topology::NodeType::Server)]
            );
        }
        _ => panic!("a discovery request was sent"),
    }
}

#[test]
fn prepare_route_is_exact() {
    let (route, index) = controller::prepare_route(5, vec![5, 6, 7]);
    assert_eq!(route, vec![5, 6, 7]);
    assert_eq!(index, 0);
    let (route2, index2) = controller::prepare_route(5, vec![6, 7]);
    assert_eq!(route2, vec![5, 6, 7]);
    assert_eq!(index2, 1);
    let (route3, index3) = controller::prepare_route(5, vec![]);
    assert_eq!(route3, vec![5]);
    assert_eq!(index3, 1);
}

#[test]
fn header_helpers_are_exact() {
    let header = SourceRoutingHeader::new(vec![10, 1, 20], 1);
    assert_eq!(header.current_hop(), Some(1));
    assert_eq!(header.destination(), Some(20));
    assert_eq!(header.source(), Some(10));
    assert!(!header.is_last_hop());
    let last = SourceRoutingHeader::new(vec![10, 1, 20], 2);
    assert!(last.is_last_hop());
    let empty = SourceRoutingHeader::new(vec![], 0);
    assert_eq!(empty.current_hop(), None);
    assert_eq!(empty.destination(), None);
}
