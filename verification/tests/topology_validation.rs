use drone_sim::config::{Client, Config, Drone, Server};
use drone_sim::errors::{NetworkError, ValidationIssue};
use drone_sim::topology::GraphState;
use drone_sim::validation::validate_graph;

fn triangle_config() -> Config {
    // Drones 1, 2, 3 in a triangle, client 10 on drone 1, server 20 on
    // drones 1 and 2.
    Config {
        drone: vec![
            Drone { id: 1, connected_node_ids: vec![2, 3, 10, 20], pdr: 0 },
            Drone { id: 2, connected_node_ids: vec![1, 3, 20], pdr: 0 },
            Drone { id: 3, connected_node_ids: vec![1, 2], pdr: 0 },
        ],
        client: vec![Client { id: 10, connected_drone_ids: vec![1] }],
        server: vec![Server { id: 20, connected_drone_ids: vec![1, 2] }],
    }
}

fn triangle_graph() -> GraphState {
    let config = triangle_config();
    assert!(config.check_unique_ids());
    let mut g = GraphState::new();
    g.build_graph(&config);
    g
}

#[test]
fn triangle_with_hosts_is_valid_in_strict_mode() {
    let g = triangle_graph();
    assert!(validate_graph(&g, true).is_ok());
    assert!(validate_graph(&g, false).is_ok());
}

#[test]
fn empty_graph_is_rejected() {
    let g = GraphState::new();
    assert_eq!(
        validate_graph(&g, false),
        Err(NetworkError::ValidationError(ValidationIssue::EmptyGraph))
    );
}

#[test]
fn one_way_edge_is_rejected() {
    let mut g = GraphState::new();
    let config = Config {
        drone: vec![
            Drone { id: 1, connected_node_ids: vec![2], pdr: 0 },
            Drone { id: 2, connected_node_ids: vec![], pdr: 0 },
        ],
        client: vec![],
        server: vec![],
    };
    g.build_graph(&config);
    assert_eq!(
        validate_graph(&g, false),
        Err(NetworkError::ValidationError(ValidationIssue::NotBidirectional))
    );
}

#[test]
fn duplicate_neighbor_is_rejected() {
    let mut g = GraphState::new();
    let config = Config {
        drone: vec![
            Drone { id: 1, connected_node_ids: vec![2, 2], pdr: 0 },
            Drone { id: 2, connected_node_ids: vec![1, 1], pdr: 0 },
        ],
        client: vec![],
        server: vec![],
    };
    g.build_graph(&config);
    assert_eq!(
        validate_graph(&g, false),
        Err(NetworkError::ValidationError(ValidationIssue::DuplicateNeighbor))
    );
}

#[test]
fn self_loop_is_rejected() {
    let mut g = GraphState::new();
    let config = Config {
        drone: vec![Drone { id: 1, connected_node_ids: vec![1], pdr: 0 }],
        client: vec![],
        server: vec![],
    };
    g.build_graph(&config);
    assert_eq!(
        validate_graph(&g, false),
        Err(NetworkError::ValidationError(ValidationIssue::SelfLoop))
    );
}

#[test]
fn unknown_neighbor_is_rejected() {
    let mut g = GraphState::new();
    let config = Config {
        drone: vec![
            Drone { id: 1, connected_node_ids: vec![2], pdr: 0 },
            Drone { id: 2, connected_node_ids: vec![1], pdr: 0 },
        ],
        client: vec![],
        server: vec![],
    };
    g.build_graph(&config);
    // a drone wired to an id that no node uses: the edge is recorded in
    // both directions, but its far end does not exist
    assert!(g.add_drone(3, &vec![9], 0).is_ok());
    assert_eq!(
        validate_graph(&g, false),
        Err(NetworkError::ValidationError(ValidationIssue::UnknownNeighbor))
    );
}

#[test]
fn disconnected_graph_is_rejected() {
    let mut g = GraphState::new();
    let config = Config {
        drone: vec![
            Drone { id: 1, connected_node_ids: vec![2], pdr: 0 },
            Drone { id: 2, connected_node_ids: vec![1], pdr: 0 },
            Drone { id: 3, connected_node_ids: vec![4], pdr: 0 },
            Drone { id: 4, connected_node_ids: vec![3], pdr: 0 },
        ],
        client: vec![],
        server: vec![],
    };
    g.build_graph(&config);
    assert_eq!(
        validate_graph(&g, false),
        Err(NetworkError::ValidationError(ValidationIssue::NotConnected))
    );
}

#[test]
fn client_with_three_links_is_rejected() {
    let mut g = GraphState::new();
    let config = Config {
        drone: vec![
            Drone { id: 1, connected_node_ids: vec![2, 3, 10], pdr: 0 },
            Drone { id: 2, connected_node_ids: vec![1, 3, 10], pdr: 0 },
            Drone { id: 3, connected_node_ids: vec![1, 2, 10], pdr: 0 },
        ],
        client: vec![Client { id: 10, connected_drone_ids: vec![1, 2, 3] }],
        server: vec![],
    };
    g.build_graph(&config);
    assert_eq!(
        validate_graph(&g, false),
        Err(NetworkError::ValidationError(ValidationIssue::ClientDegree))
    );
}

#[test]
fn server_with_one_link_is_rejected() {
    let mut g = GraphState::new();
    let config = Config {
        drone: vec![
            Drone { id: 1, connected_node_ids: vec![2, 20], pdr: 0 },
            Drone { id: 2, connected_node_ids: vec![1], pdr: 0 },
        ],
        client: vec![],
        server: vec![Server { id: 20, connected_drone_ids: vec![1] }],
    };
    g.build_graph(&config);
    assert_eq!(
        validate_graph(&g, false),
        Err(NetworkError::ValidationError(ValidationIssue::ServerDegree))
    );
}

#[test]
fn adjacent_hosts_are_rejected() {
    let mut g = GraphState::new();
    let config = Config {
        drone: vec![
            Drone { id: 1, connected_node_ids: vec![2, 10, 20], pdr: 0 },
            Drone { id: 2, connected_node_ids: vec![1, 20], pdr: 0 },
        ],
        client: vec![Client { id: 10, connected_drone_ids: vec![1, 20] }],
        server: vec![Server { id: 20, connected_drone_ids: vec![1, 2, 10] }],
    };
    g.build_graph(&config);
    assert_eq!(
        validate_graph(&g, false),
        Err(NetworkError::ValidationError(ValidationIssue::HostsAdjacent))
    );
}

#[test]
fn split_drone_net_is_rejected_only_in_strict_mode() {
    // Two drone islands joined only through the server: fine in ordinary
    // validation, rejected in strict mode.
    let mut g = GraphState::new();
    let config = Config {
        drone: vec![
            Drone { id: 1, connected_node_ids: vec![2, 20], pdr: 0 },
            Drone { id: 2, connected_node_ids: vec![1, 20], pdr: 0 },
            Drone { id: 3, connected_node_ids: vec![4, 20], pdr: 0 },
            Drone { id: 4, connected_node_ids: vec![3, 20], pdr: 0 },
        ],
        client: vec![],
        server: vec![Server { id: 20, connected_drone_ids: vec![1, 2, 3, 4] }],
    };
    g.build_graph(&config);
    assert!(validate_graph(&g, false).is_ok());
    assert_eq!(
        validate_graph(&g, true),
        Err(NetworkError::ValidationError(ValidationIssue::DroneNetSplit))
    );
}

#[test]
fn add_edge_then_remove_edge_restores_the_graph() {
    let mut g = triangle_graph();
    let before_adjacency: Vec<Vec<u8>> = (0..=255u8).map(|n| g.get_neighbors(n)).collect();
    assert!(g.add_edge(3, 20).is_ok());
    assert_eq!(g.get_neighbors(3), vec![1, 2, 20]);
    assert!(g.remove_edge(3, 20).is_ok());
    let after_adjacency: Vec<Vec<u8>> = (0..=255u8).map(|n| g.get_neighbors(n)).collect();
    assert_eq!(before_adjacency, after_adjacency);
}

#[test]
fn add_edge_rejects_self_loops_and_duplicates() {
    let mut g = triangle_graph();
    assert_eq!(g.add_edge(1, 1), Err(NetworkError::InvalidOperation));
    assert_eq!(g.add_edge(1, 2), Err(NetworkError::EdgeAlreadyExists(1, 2)));
    assert!(matches!(g.add_edge(1, 99), Err(NetworkError::NodeNotFound(_))));
}

#[test]
fn remove_edge_rejects_missing_edges() {
    let mut g = triangle_graph();
    assert_eq!(g.remove_edge(3, 20), Err(NetworkError::EdgeNotFound(3, 20)));
    assert_eq!(g.remove_edge(2, 2), Err(NetworkError::InvalidOperation));
}

#[test]
fn crash_drone_removes_node_and_incident_edges() {
    let mut g = triangle_graph();
    assert!(g.crash_drone(2).is_ok());
    assert!(g.get_node_type(2).is_none());
    assert_eq!(g.get_neighbors(2), Vec::<u8>::new());
    assert_eq!(g.get_neighbors(1), vec![3, 10, 20]);
    assert_eq!(g.get_neighbors(20), vec![1]);
    assert_eq!(g.crash_drone(10), Err(NetworkError::NodeIsNotDrone(10)));
}

#[test]
fn next_node_id_is_the_smallest_unused_counting_from_one() {
    let g = triangle_graph();
    assert_eq!(g.get_next_node_id(), Some(4));
    let mut g2 = g;
    assert!(g2.crash_drone(3).is_ok());
    assert_eq!(g2.get_next_node_id(), Some(3));
}

#[test]
fn set_pdr_updates_a_drone_only() {
    let mut g = triangle_graph();
    assert!(g.set_pdr(1, 55).is_ok());
    match g.get_node_type(1) {
        Some(drone_sim::topology::NodeMetadata::Drone(d)) => assert_eq!(d.get_pdr(), 55),
        _ => panic!("drone expected"),
    }
    assert_eq!(g.set_pdr(10, 5), Err(NetworkError::NodeIsNotDrone(10)));
}
