use drone_sim::config::{Client, Config, Drone, Server};
use drone_sim::node::NodeNeighbors;
use drone_sim::packet::Packet;
use drone_sim::state::SimulationState;

#[test]
fn add_sender_twice_equals_once() {
    let mut table = NodeNeighbors::new();
    let (tx, _rx) = crossbeam_channel::unbounded::<Packet>();
    table.add_sender(5, tx.clone());
    let occupied_once: Vec<bool> = table.senders.iter().map(|s| s.is_some()).collect();
    table.add_sender(5, tx.clone());
    let occupied_twice: Vec<bool> = table.senders.iter().map(|s| s.is_some()).collect();
    assert_eq!(occupied_once, occupied_twice);
    assert!(table.senders[5].is_some());
    assert!(table.senders[4].is_none());
}

#[test]
fn remove_sender_revokes_the_endpoint() {
    let mut table = NodeNeighbors::new();
    let (tx, _rx) = crossbeam_channel::unbounded::<Packet>();
    table.add_sender(7, tx);
    assert!(table.senders[7].is_some());
    table.remove_sender(7);
    assert!(table.senders[7].is_none());
    // revoking again is harmless
    table.remove_sender(7);
    assert!(table.senders[7].is_none());
}

#[test]
fn kind_lists_partition_the_nodes() {
    let config = Config {
        drone: vec![
            Drone { id: 1, connected_node_ids: vec![2, 10, 20], pdr: 0 },
            Drone { id: 2, connected_node_ids: vec![1, 3], pdr: 0 },
            Drone { id: 3, connected_node_ids: vec![2, 20], pdr: 0 },
        ],
        client: vec![Client { id: 10, connected_drone_ids: vec![1] }],
        server: vec![Server { id: 20, connected_drone_ids: vec![1, 3] }],
    };
    let mut state = SimulationState::new();
    state.load_config(config);
    state.start_simulation().unwrap();
    assert_eq!(state.get_drones(), vec![1, 2, 3]);
    assert_eq!(state.get_clients(), vec![10]);
    assert_eq!(state.get_servers(), vec![20]);
    assert_eq!(
        state.get_node_type(10),
        Some(drone_sim::topology::NodeType::Client)
    );
    assert_eq!(state.get_node_type(99), None);
}
