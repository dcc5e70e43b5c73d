use drone_sim::config::{
    add_edge_to_config, add_node_to_config, remove_edge_from_config, remove_node_from_config,
    Client, Config, ConfigFile, Drone, Server,
};
use drone_sim::errors::NetworkError;
use drone_sim::state::SimulationState;
use drone_sim::stats;
use drone_sim::topology::NodeType;

fn line_config() -> Config {
    Config {
        drone: vec![
            Drone { id: 1, connected_node_ids: vec![2, 10, 20], pdr: 5 },
            Drone { id: 2, connected_node_ids: vec![1, 3], pdr: 0 },
            Drone { id: 3, connected_node_ids: vec![2, 20], pdr: 0 },
        ],
        client: vec![Client { id: 10, connected_drone_ids: vec![1] }],
        server: vec![Server { id: 20, connected_drone_ids: vec![1, 3] }],
    }
}

#[test]
fn unique_id_check_catches_reuse_across_lists() {
    let mut config = line_config();
    assert!(config.check_unique_ids());
    config.server.push(Server { id: 10, connected_drone_ids: vec![2, 3] });
    assert!(!config.check_unique_ids());
}

#[test]
fn pdr_range_check_catches_values_over_one_hundred() {
    let mut config = line_config();
    assert!(config.check_pdr_in_range());
    config.drone[1].pdr = 101;
    assert!(!config.check_pdr_in_range());
}

#[test]
fn adding_a_node_to_the_config_takes_the_smallest_unused_id() {
    let mut config = line_config();
    let id = add_node_to_config(&mut config, NodeType::Drone, vec![2, 3], Some(10)).unwrap();
    assert_eq!(id, 4);
    assert_eq!(config.drone.len(), 4);
    assert_eq!(config.drone[3].id, 4);
    assert_eq!(config.drone[3].pdr, 10);
    assert_eq!(config.drone[3].connected_node_ids, vec![2, 3]);
    assert_eq!(config.drone[1].connected_node_ids, vec![1, 3, 4]);
    assert_eq!(config.drone[2].connected_node_ids, vec![2, 20, 4]);
    assert_eq!(config.drone[0].connected_node_ids, vec![2, 10, 20]);
}

#[test]
fn adding_a_client_to_the_config_links_its_drones() {
    let mut config = line_config();
    let id = add_node_to_config(&mut config, NodeType::Client, vec![3], None).unwrap();
    assert_eq!(id, 4);
    assert_eq!(config.client.len(), 2);
    assert_eq!(config.client[1].id, 4);
    assert_eq!(config.client[1].connected_drone_ids, vec![3]);
    assert_eq!(config.drone[2].connected_node_ids, vec![2, 20, 4]);
}

#[test]
fn adding_a_drone_without_a_drop_rate_is_rejected() {
    let mut config = line_config();
    assert_eq!(
        add_node_to_config(&mut config, NodeType::Drone, vec![2], None),
        Err(NetworkError::InvalidPdr(0))
    );
    assert_eq!(
        add_node_to_config(&mut config, NodeType::Drone, vec![2], Some(101)),
        Err(NetworkError::InvalidPdr(101))
    );
    assert_eq!(config.drone.len(), 3);
}

#[test]
fn removing_a_node_from_the_config_drops_its_entry_and_links() {
    let mut config = line_config();
    remove_node_from_config(&mut config, 3);
    assert_eq!(config.drone.len(), 2);
    assert_eq!(config.drone[0].id, 1);
    assert_eq!(config.drone[1].id, 2);
    assert_eq!(config.drone[1].connected_node_ids, vec![1]);
    assert_eq!(config.server[0].connected_drone_ids, vec![1]);
}

#[test]
fn config_edge_editing_round_trips() {
    let mut config = line_config();
    add_edge_to_config(&mut config, 1, 3);
    assert_eq!(config.drone[0].connected_node_ids, vec![2, 10, 20, 3]);
    assert_eq!(config.drone[2].connected_node_ids, vec![2, 20, 1]);
    remove_edge_from_config(&mut config, 1, 3);
    assert_eq!(config.drone[0].connected_node_ids, vec![2, 10, 20]);
    assert_eq!(config.drone[2].connected_node_ids, vec![2, 20]);
}

fn running_state() -> SimulationState {
    let mut state = SimulationState::new();
    state.load_config(line_config());
    state.start_simulation().expect("the line topology starts");
    state
}

#[test]
fn node_info_reports_kind_group_and_connections() {
    let state = running_state();
    let info = stats::get_node_info(&state, 1).unwrap();
    assert_eq!(info.node_id, 1);
    assert_eq!(info.node_type, "Drone");
    assert_eq!(info.connections, vec![2, 10, 20]);
    // a server whose stored neighbor order is descending comes back sorted
    let server_info = stats::get_node_info(&state, 20).unwrap();
    assert_eq!(server_info.connections, vec![1, 3]);
    match info.metrics {
        stats::NodeMetrics::Drone { pdr, current_pdr_failed, current_pdr_window, .. } => {
            assert_eq!(pdr, 5);
            assert_eq!((current_pdr_failed, current_pdr_window), (0, 0));
        }
        _ => panic!("drone metrics expected"),
    }
    let client_info = stats::get_node_info(&state, 10).unwrap();
    assert_eq!(client_info.node_type, "Client");
    assert!(matches!(
        stats::get_node_info(&state, 77),
        Err(NetworkError::NodeNotFound(77))
    ));
}

#[test]
fn network_infos_cover_every_node() {
    let state = running_state();
    let infos = stats::get_network_infos(&state);
    let mut ids: Vec<u8> = infos.iter().map(|i| i.node_id).collect();
    ids.sort();
    assert_eq!(ids, vec![1, 2, 3, 10, 20]);
}

#[test]
fn network_nodes_require_a_running_simulation() {
    let mut state = SimulationState::new();
    assert_eq!(
        stats::get_network_nodes(&state).err(),
        Some(NetworkError::NetworkNotRunning)
    );
    state.load_config(line_config());
    state.start_simulation().unwrap();
    let rows = stats::get_network_nodes(&state).unwrap();
    assert_eq!(rows.len(), 5);
    let drone_row = rows.iter().find(|r| r.id == 1).unwrap();
    assert_eq!(drone_row.node_type, NodeType::Drone);
    assert_eq!(drone_row.pdr, 5);
    assert!(!drone_row.crashed);
}

#[test]
fn node_info_sorts_an_unordered_neighbor_list() {
    let mut state = SimulationState::new();
    let config = Config {
        drone: vec![
            Drone { id: 5, connected_node_ids: vec![9, 2, 7, 2], pdr: 0 },
            Drone { id: 2, connected_node_ids: vec![5], pdr: 0 },
            Drone { id: 7, connected_node_ids: vec![5], pdr: 0 },
            Drone { id: 9, connected_node_ids: vec![5], pdr: 0 },
        ],
        client: vec![],
        server: vec![],
    };
    state.graph.build_graph(&config);
    let info = stats::get_node_info(&state, 5).unwrap();
    assert_eq!(info.connections, vec![2, 2, 7, 9]);
}

#[test]
fn the_graph_falls_back_to_the_loaded_configuration() {
    // before the first start, the operator sees the loaded topology
    let mut state = SimulationState::new();
    let empty = stats::get_graph(&state);
    assert!(empty.drone.is_empty() && empty.client.is_empty() && empty.server.is_empty());
    state.load_config(line_config());
    let rendered = stats::get_graph(&state);
    assert_eq!(rendered.drone.len(), 3);
    assert_eq!(rendered.drone[0].id, 1);
    assert_eq!(rendered.drone[0].pdr, 5);
    assert_eq!(rendered.drone[0].connected_node_ids, vec![2, 10, 20]);
    assert_eq!(rendered.client.len(), 1);
    assert_eq!(rendered.server.len(), 1);
}

#[test]
fn the_graph_renders_back_into_configuration_shape() {
    let state = running_state();
    let rendered = stats::get_graph(&state);
    assert_eq!(rendered.drone.len(), 3);
    assert_eq!(rendered.client.len(), 1);
    assert_eq!(rendered.server.len(), 1);
    let d1 = rendered.drone.iter().find(|d| d.id == 1).unwrap();
    assert_eq!(d1.pdr, 5);
    assert_eq!(d1.connected_node_ids, vec![2, 10, 20]);
    let s20 = rendered.server.iter().find(|s| s.id == 20).unwrap();
    assert_eq!(s20.connected_drone_ids, vec![1, 3]);
}

#[test]
fn the_overview_aggregates_counts_and_nonzero_heat() {
    let mut state = running_state();
    let packet = drone_sim::packet::Packet::new_fragment(
        drone_sim::packet::SourceRoutingHeader::new(vec![10, 1, 20], 2),
        7,
        drone_sim::packet::Fragment::from_data(0, 1, &vec![1]),
    );
    state.metrics.update_drone_packet_sent(1, &packet, 5);
    let overview = stats::get_overview_metrics(&state);
    assert_eq!(overview.total_messages_sent, 0);
    assert_eq!(overview.total_packets_sent, 1);
    assert_eq!(overview.packets_by_type.msg_fragment, 1);
    assert_eq!(overview.heatmap, vec![(1, 20, 1)]);
}

#[test]
fn drone_and_host_metric_snapshots_copy_the_counters() {
    let mut state = running_state();
    let packet = drone_sim::packet::Packet::new_fragment(
        drone_sim::packet::SourceRoutingHeader::new(vec![10, 1, 20], 2),
        7,
        drone_sim::packet::Fragment::from_data(0, 1, &vec![1]),
    );
    state.metrics.update_drone_packet_dropped(1, &packet, 5);
    let dm = stats::get_drone_metrics(&state, 1).unwrap();
    assert_eq!(dm.drops, 1);
    assert_eq!(dm.rolling_window, vec![false]);
    assert!(matches!(
        stats::get_drone_metrics(&state, 10),
        Err(NetworkError::NodeNotFound(10))
    ));
    let hs = stats::get_host_metrics(&state, 10).unwrap();
    assert_eq!(hs.number_of_fragment_sent, 0);
    assert!(hs.latencies.is_empty());
    assert!(matches!(
        stats::get_host_metrics(&state, 1),
        Err(NetworkError::NodeNotFound(1))
    ));
}

#[test]
fn config_file_metadata_is_plain_data() {
    let entry = ConfigFile {
        id: "config_20250101".to_string(),
        name: "config_20250101.toml".to_string(),
        path: "/tmp/history/config_20250101.toml".to_string(),
        timestamp: 1735689600,
    };
    let copy = entry.clone();
    assert_eq!(copy.name, entry.name);
    assert_eq!(copy.timestamp, 1735689600);
}
