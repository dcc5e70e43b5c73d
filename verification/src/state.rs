//! The simulation state: the lifecycle status, the loaded configuration,
//! the live graph, the channel fabric, the metrics and the event log.
//!
//! The state invariant ties everything together: while the simulation runs,
//! the graph satisfies every structural invariant and the fabric holds
//! exactly one inbound queue and one command queue per node; while it does
//! not run, the runtime state is empty.

use vstd::prelude::*;

verus! {

use crate::config::{graph_matches_config, Config};
use crate::errors::{NetworkError, ValidationIssue};
use crate::metrics::Metrics;
use crate::node::{ControllerEvent, DroneCommand, DroneEvent, HostCommand, HostEvent};
use crate::packet::Packet;
use crate::topology::{GraphState, NodeType};
use crate::validation::validate_graph;
use crate::{NodeId, ID_SPACE};

/// The lifecycle of the simulation.
#[derive(Debug, Clone, Copy, PartialEq, Eq, Structural)]
pub enum SimulationStatus {
    Init,
    Stopped,
    Running,
}

/// The whole simulation state.
pub struct SimulationState {
    /// The loaded configuration; never mutated by the lifecycle.
    pub initial_config: Option<Config>,
    /// The current lifecycle status.
    pub status: SimulationStatus,
    /// Per node: the send and receive halves of its inbound packet queue.
    pub inter_node_channels: Vec<Option<(crossbeam_channel::Sender<Packet>, crossbeam_channel::Receiver<Packet>)>>,
    /// Per drone: the controller's command sender and event receiver.
    pub drones_controller_channels: Vec<Option<(crossbeam_channel::Sender<DroneCommand>, crossbeam_channel::Receiver<DroneEvent>)>>,
    /// Per client: the controller's command sender and event receiver.
    pub client_controller_channels: Vec<Option<(crossbeam_channel::Sender<HostCommand>, crossbeam_channel::Receiver<HostEvent>)>>,
    /// Per server: the controller's command sender and event receiver.
    pub server_controller_channels: Vec<Option<(crossbeam_channel::Sender<HostCommand>, crossbeam_channel::Receiver<HostEvent>)>>,
    /// Per drone: the node-side halves (command receiver, event sender),
    /// waiting to be handed to a spawned drone task.
    pub drone_node_endpoints: Vec<Option<(crossbeam_channel::Receiver<DroneCommand>, crossbeam_channel::Sender<DroneEvent>)>>,
    /// Per host: the node-side halves, waiting to be handed to a spawned
    /// host task.
    pub host_node_endpoints: Vec<Option<(crossbeam_channel::Receiver<HostCommand>, crossbeam_channel::Sender<HostEvent>)>>,
    /// The live graph.
    pub graph: GraphState,
    /// How often hosts run neighbor discovery, in seconds.
    pub discovery_interval_secs: Option<u64>,
    /// Whether incremental mutations keep the drone sub-graph connected.
    pub strict_mode: bool,
    /// The traffic metrics.
    pub metrics: Metrics,
    /// Every event received from the nodes, in arrival order.
    pub received_messages: Vec<ControllerEvent>,
}

impl SimulationState {
    /// Every dense table covers the id space.
    pub open spec fn wf(self) -> bool {
        &&& self.inter_node_channels@.len() == ID_SPACE
        &&& self.drones_controller_channels@.len() == ID_SPACE
        &&& self.client_controller_channels@.len() == ID_SPACE
        &&& self.server_controller_channels@.len() == ID_SPACE
        &&& self.drone_node_endpoints@.len() == ID_SPACE
        &&& self.host_node_endpoints@.len() == ID_SPACE
        &&& self.graph.wf()
        &&& self.metrics.wf()
    }

    pub open spec fn has_inter_channel(self, n: NodeId) -> bool {
        self.inter_node_channels@[n as int] is Some
    }

    pub open spec fn has_drone_channel(self, n: NodeId) -> bool {
        self.drones_controller_channels@[n as int] is Some
    }

    pub open spec fn has_client_channel(self, n: NodeId) -> bool {
        self.client_controller_channels@[n as int] is Some
    }

    pub open spec fn has_server_channel(self, n: NodeId) -> bool {
        self.server_controller_channels@[n as int] is Some
    }

    /// No channel of any kind exists.
    pub open spec fn fabric_empty(self) -> bool {
        &&& forall|n: NodeId| !(#[trigger] self.has_inter_channel(n))
        &&& forall|n: NodeId| !(#[trigger] self.has_drone_channel(n))
        &&& forall|n: NodeId| !(#[trigger] self.has_client_channel(n))
        &&& forall|n: NodeId| !(#[trigger] self.has_server_channel(n))
    }

    /// The runtime state is empty: no nodes, no channels, fresh metrics, no
    /// recorded events.
    pub open spec fn is_cleared(self) -> bool {
        &&& forall|n: NodeId| !(#[trigger] self.graph.has_node(n))
        &&& forall|n: NodeId| #[trigger] self.graph.nbrs(n) == Seq::<NodeId>::empty()
        &&& self.fabric_empty()
        &&& forall|s: NodeId, d: NodeId| #[trigger] self.metrics.heat_at(s, d) == 0
        &&& forall|n: NodeId| #[trigger] self.metrics.drone_at(n) is None
        &&& forall|n: NodeId| #[trigger] self.metrics.host_at(n) is None
        &&& self.received_messages@.len() == 0
    }

    /// The fabric mirrors the graph: every node has exactly one inbound
    /// queue and one command queue of its kind, and nothing else exists.
    pub open spec fn fabric_matches_graph(self) -> bool {
        &&& forall|n: NodeId|
            #[trigger] self.has_inter_channel(n) == self.graph.has_node(n)
        &&& forall|n: NodeId| #[trigger] self.has_drone_channel(n) == self.graph.is_drone(n)
        &&& forall|n: NodeId| #[trigger] self.has_client_channel(n) == self.graph.is_client(n)
        &&& forall|n: NodeId| #[trigger] self.has_server_channel(n) == self.graph.is_server(n)
    }

    /// The state invariant: a running simulation has a valid graph and a
    /// fabric that mirrors it; a stopped one has no runtime state at all.
    pub open spec fn inv(self) -> bool {
        &&& self.wf()
        &&& (self.status is Running ==> self.graph.valid(false))
        &&& (self.status is Running ==> self.fabric_matches_graph())
        &&& (!(self.status is Running) ==> self.is_cleared())
    }

    /// A fresh state: nothing loaded, nothing running.
    pub fn new() -> (r: Self)
        ensures
            r.inv(),
            r.status == SimulationStatus::Init,
            r.initial_config is None,
            r.strict_mode == false,
            r.discovery_interval_secs is None,
            r.is_cleared(),
    {
        let r = SimulationState {
            initial_config: None,
            status: SimulationStatus::Init,
            inter_node_channels: none_table(),
            drones_controller_channels: none_table(),
            client_controller_channels: none_table(),
            server_controller_channels: none_table(),
            drone_node_endpoints: none_table(),
            host_node_endpoints: none_table(),
            graph: GraphState::new(),
            discovery_interval_secs: None,
            strict_mode: false,
            metrics: Metrics::new(),
            received_messages: Vec::new(),
        };
        r
    }

    /// Drops every piece of runtime state; the configuration, the strict
    /// flag, the discovery interval and the status stay.
    pub fn clear_simulation(&mut self)
        requires
            old(self).wf(),
        ensures
            final(self).wf(),
            final(self).is_cleared(),
            final(self).initial_config == old(self).initial_config,
            final(self).status == old(self).status,
            final(self).strict_mode == old(self).strict_mode,
            final(self).discovery_interval_secs == old(self).discovery_interval_secs,
    {
        self.inter_node_channels = none_table();
        self.drones_controller_channels = none_table();
        self.client_controller_channels = none_table();
        self.server_controller_channels = none_table();
        self.drone_node_endpoints = none_table();
        self.host_node_endpoints = none_table();
        self.graph = GraphState::new();
        self.metrics = Metrics::new();
        self.received_messages = Vec::new();
    }

    /// Stores a configuration; nothing else changes.
    pub fn load_config(&mut self, config: Config)
        requires
            old(self).wf(),
        ensures
            final(self).wf(),
            final(self).initial_config == Some(config),
            final(self).status == old(self).status,
            final(self).strict_mode == old(self).strict_mode,
            final(self).discovery_interval_secs == old(self).discovery_interval_secs,
            final(self).graph == old(self).graph,
            final(self).metrics == old(self).metrics,
            final(self).received_messages == old(self).received_messages,
            final(self).inter_node_channels == old(self).inter_node_channels,
            final(self).drones_controller_channels == old(self).drones_controller_channels,
            final(self).client_controller_channels == old(self).client_controller_channels,
            final(self).server_controller_channels == old(self).server_controller_channels,
            old(self).inv() ==> final(self).inv(),
    {
        let ghost pre = *self;
        self.initial_config = Some(config);
        proof {
            if pre.inv() {
                lemma_inv_same_runtime(pre, *self);
            }
        }
    }

    // ------------------------------------------------------------------
    // Getters and setters
    // ------------------------------------------------------------------

    pub fn get_status(&self) -> (r: SimulationStatus)
        ensures
            r == self.status,
    {
        self.status
    }

    /// Overwrites the lifecycle status; the caller is responsible for
    /// keeping the state invariant.
    pub fn set_status(&mut self, status: SimulationStatus)
        ensures
            final(self).status == status,
            *final(self) == (SimulationState { status, ..*old(self) }),
    {
        self.status = status;
    }

    pub fn get_strict_mode(&self) -> (r: bool)
        ensures
            r == self.strict_mode,
    {
        self.strict_mode
    }

    pub fn set_strict_mode(&mut self, strict: bool)
        ensures
            *final(self) == (SimulationState { strict_mode: strict, ..*old(self) }),
            old(self).inv() ==> final(self).inv(),
    {
        let ghost pre = *self;
        self.strict_mode = strict;
        proof {
            if pre.inv() {
                lemma_inv_same_runtime(pre, *self);
            }
        }
    }

    pub fn get_discovery_interval(&self) -> (r: Option<u64>)
        ensures
            r == self.discovery_interval_secs,
    {
        self.discovery_interval_secs
    }

    pub fn set_discovery_interval(&mut self, interval_secs: Option<u64>)
        ensures
            *final(self) == (SimulationState {
                discovery_interval_secs: interval_secs,
                ..*old(self)
            }),
            old(self).inv() ==> final(self).inv(),
    {
        let ghost pre = *self;
        self.discovery_interval_secs = interval_secs;
        proof {
            if pre.inv() {
                lemma_inv_same_runtime(pre, *self);
            }
        }
    }

    pub fn get_config(&self) -> (r: &Option<Config>)
        ensures
            r == self.initial_config,
    {
        &self.initial_config
    }

    pub fn get_graph(&self) -> (r: &GraphState)
        ensures
            r == self.graph,
    {
        &self.graph
    }

    pub fn get_metrics(&self) -> (r: &Metrics)
        ensures
            r == self.metrics,
    {
        &self.metrics
    }

    pub fn get_received_messages(&self) -> (r: &Vec<ControllerEvent>)
        ensures
            r == self.received_messages,
    {
        &self.received_messages
    }

    pub fn get_inter_node_channels(&self) -> (r: &Vec<
        Option<(crossbeam_channel::Sender<Packet>, crossbeam_channel::Receiver<Packet>)>,
    >)
        ensures
            r == self.inter_node_channels,
    {
        &self.inter_node_channels
    }

    pub fn get_drone_controller_channels(&self) -> (r: &Vec<
        Option<(crossbeam_channel::Sender<DroneCommand>, crossbeam_channel::Receiver<DroneEvent>)>,
    >)
        ensures
            r == self.drones_controller_channels,
    {
        &self.drones_controller_channels
    }

    pub fn get_client_controller_channels(&self) -> (r: &Vec<
        Option<(crossbeam_channel::Sender<HostCommand>, crossbeam_channel::Receiver<HostEvent>)>,
    >)
        ensures
            r == self.client_controller_channels,
    {
        &self.client_controller_channels
    }

    pub fn get_server_controller_channels(&self) -> (r: &Vec<
        Option<(crossbeam_channel::Sender<HostCommand>, crossbeam_channel::Receiver<HostEvent>)>,
    >)
        ensures
            r == self.server_controller_channels,
    {
        &self.server_controller_channels
    }

    /// The kind of a node of the live graph, if it exists.
    pub fn get_node_type(&self, node_id: NodeId) -> (r: Option<NodeType>)
        requires
            self.wf(),
        ensures
            r == self.graph.kind_of(node_id),
    {
        match self.graph.get_node_type(node_id) {
            Some(meta) => Some(meta.kind()),
            None => None,
        }
    }

    /// The ids of every node of the given kind, in increasing order.
    pub fn nodes_of_kind(&self, kind: NodeType) -> (r: Vec<NodeId>)
        requires
            self.wf(),
        ensures
            forall|i: int|
                0 <= i < r@.len() ==> self.graph.kind_of(#[trigger] r@[i]) == Some(kind),
            forall|n: NodeId| self.graph.kind_of(n) == Some(kind) ==> r@.contains(n),
            forall|i: int, j: int| 0 <= i < j < r@.len() ==> r@[i] < r@[j],
    {
        let mut r: Vec<NodeId> = Vec::new();
        let mut i: usize = 0;
        while i < ID_SPACE
            invariant
                self.wf(),
                i <= ID_SPACE,
                forall|k: int|
                    0 <= k < r@.len() ==> self.graph.kind_of(#[trigger] r@[k]) == Some(kind),
                forall|k: int| 0 <= k < r@.len() ==> (#[trigger] r@[k]) < i,
                forall|n: NodeId| n < i && self.graph.kind_of(n) == Some(kind) ==> r@.contains(n),
                forall|k: int, j: int| 0 <= k < j < r@.len() ==> r@[k] < r@[j],
            decreases ID_SPACE - i,
        {
            let ghost prev = r@;
            let matches_kind = match self.get_node_type(i as NodeId) {
                Some(k) => k == kind,
                None => false,
            };
            if matches_kind {
                r.push(i as NodeId);
            }
            proof {
                assert forall|n: NodeId|
                    n < i + 1 && self.graph.kind_of(n) == Some(kind) implies r@.contains(n) by {
                    if n < i {
                        let w = choose|w: int| 0 <= w < prev.len() && prev[w] == n;
                        assert(r@[w] == n);
                    } else {
                        assert(r@[r@.len() - 1] == n);
                    }
                }
            }
            i = i + 1;
        }
        r
    }

    /// The ids of every drone of the live graph, in increasing order.
    pub fn get_drones(&self) -> (r: Vec<NodeId>)
        requires
            self.wf(),
        ensures
            forall|i: int| 0 <= i < r@.len() ==> self.graph.is_drone(#[trigger] r@[i]),
            forall|n: NodeId| self.graph.is_drone(n) ==> r@.contains(n),
    {
        self.nodes_of_kind(NodeType::Drone)
    }

    /// The ids of every client of the live graph, in increasing order.
    pub fn get_clients(&self) -> (r: Vec<NodeId>)
        requires
            self.wf(),
        ensures
            forall|i: int| 0 <= i < r@.len() ==> self.graph.is_client(#[trigger] r@[i]),
            forall|n: NodeId| self.graph.is_client(n) ==> r@.contains(n),
    {
        self.nodes_of_kind(NodeType::Client)
    }

    /// The ids of every server of the live graph, in increasing order.
    pub fn get_servers(&self) -> (r: Vec<NodeId>)
        requires
            self.wf(),
        ensures
            forall|i: int| 0 <= i < r@.len() ==> self.graph.is_server(#[trigger] r@[i]),
            forall|n: NodeId| self.graph.is_server(n) ==> r@.contains(n),
    {
        self.nodes_of_kind(NodeType::Server)
    }

    // ------------------------------------------------------------------
    // Lifecycle
    // ------------------------------------------------------------------

    /// Builds the graph from the loaded configuration, validates it in
    /// strict mode, creates the channel fabric and registers the metrics.
    /// Spawning the node tasks on the created endpoints is the embedder's
    /// part.
    pub fn start_simulation(&mut self) -> (r: Result<(), NetworkError>)
        requires
            old(self).inv(),
        ensures
            final(self).inv(),
            r is Err ==> *final(self) == *old(self),
            old(self).status is Running ==> r == Err::<(), NetworkError>(
                NetworkError::NetworkAlreadyRunning,
            ),
            !(old(self).status is Running) && old(self).initial_config is None ==> r == Err::<
                (),
                NetworkError,
            >(NetworkError::NoConfigLoaded),
            // success is owed: a stopped state with a loaded, well-formed
            // configuration whose described graph is valid in strict mode
            // must start (the fabric construction itself cannot fail)
            (!(old(self).status is Running) && old(self).initial_config is Some && old(self).initial_config.unwrap().unique_ids() && old(self).initial_config.unwrap().pdr_in_range() && (forall|g: GraphState|
                g.wf() && #[trigger] graph_matches_config(g, old(self).initial_config.unwrap())
                    ==> g.valid(true))) ==> r is Ok,
            r is Ok ==> {
                &&& !(old(self).status is Running)
                &&& old(self).initial_config matches Some(cfg) && cfg.unique_ids()
                    && cfg.pdr_in_range() && graph_matches_config(final(self).graph, cfg)
                &&& final(self).status is Running
                &&& final(self).graph.valid(true)
                &&& final(self).fabric_matches_graph()
                &&& forall|n: NodeId|
                    #[trigger] final(self).metrics.drone_at(n) is Some == final(self).graph.is_drone(n)
                &&& forall|n: NodeId|
                    #[trigger] final(self).metrics.host_at(n) is Some == final(self).graph.is_host(n)
                &&& final(self).initial_config == old(self).initial_config
                &&& final(self).strict_mode == old(self).strict_mode
                &&& final(self).discovery_interval_secs == old(self).discovery_interval_secs
            },
    {
        if matches!(self.status, SimulationStatus::Running) {
            return Err(NetworkError::NetworkAlreadyRunning);
        }
        if self.initial_config.is_none() {
            return Err(NetworkError::NoConfigLoaded);
        }
        let unique = match &self.initial_config {
            Some(config) => config.check_unique_ids(),
            None => false,
        };
        if !unique {
            return Err(NetworkError::ValidationError(ValidationIssue::DuplicateNodeId));
        }
        let pdr_ok = match &self.initial_config {
            Some(config) => config.check_pdr_in_range(),
            None => false,
        };
        if !pdr_ok {
            return Err(NetworkError::InvalidPdr(101));
        }
        let mut g = GraphState::new();
        match &self.initial_config {
            Some(config) => {
                g.build_graph(config);
            }
            None => {}
        }
        match validate_graph(&g, true) {
            Ok(()) => {}
            Err(e) => {
                proof {
                    let cfg = self.initial_config.unwrap();
                    assert(graph_matches_config(g, cfg));
                    // under the success-owed premise this exit is
                    // unreachable: the built graph would be valid
                    if forall|g2: GraphState|
                        g2.wf() && #[trigger] graph_matches_config(g2, cfg) ==> g2.valid(true) {
                        assert(g.valid(true));
                    }
                }
                return Err(e);
            }
        }
        self.graph = g;
        let ghost cfg = self.initial_config.unwrap();
        let ghost dr_ids = cfg.drone@.map_values(|d: crate::config::Drone| d.id);
        let ghost cl_ids = cfg.client@.map_values(|c: crate::config::Client| c.id);
        let ghost sv_ids = cfg.server@.map_values(|s: crate::config::Server| s.id);
        proof {
            assert forall|n: NodeId| #[trigger] self.has_inter_channel(n) == dr_ids.subrange(
                0,
                0,
            ).contains(n) by {
                assert(old(self).has_inter_channel(n) == self.has_inter_channel(n));
                assert(!old(self).has_inter_channel(n));
            }
            assert forall|n: NodeId| #[trigger] self.has_drone_channel(n) == dr_ids.subrange(
                0,
                0,
            ).contains(n) by {
                assert(old(self).has_drone_channel(n) == self.has_drone_channel(n));
                assert(!old(self).has_drone_channel(n));
            }
            assert forall|n: NodeId| #[trigger] self.metrics.drone_at(n) is Some
                == dr_ids.subrange(0, 0).contains(n) by {
                assert(old(self).metrics.drone_at(n) is None);
            }
            assert forall|n: NodeId| !(#[trigger] self.has_client_channel(n)) by {
                assert(!old(self).has_client_channel(n));
            }
            assert forall|n: NodeId| !(#[trigger] self.has_server_channel(n)) by {
                assert(!old(self).has_server_channel(n));
            }
            assert forall|n: NodeId| #[trigger] self.metrics.host_at(n) is None by {
                assert(old(self).metrics.host_at(n) is None);
            }
        }
        let mut i: usize = 0;
        let dlen = match &self.initial_config {
            Some(config) => config.drone.len(),
            None => 0,
        };
        while i < dlen
            invariant
                self.wf(),
                self.initial_config == Some(cfg),
                dlen == cfg.drone@.len(),
                i <= dlen,
                graph_matches_config(self.graph, cfg),
                cfg.unique_ids(),
                self.graph.valid(true),
                self.status == old(self).status,
                self.strict_mode == old(self).strict_mode,
                self.discovery_interval_secs == old(self).discovery_interval_secs,
                self.received_messages@.len() == 0,
                dr_ids == cfg.drone@.map_values(|d: crate::config::Drone| d.id),
                forall|n: NodeId| #[trigger] self.has_inter_channel(n) == dr_ids.subrange(
                    0,
                    i as int,
                ).contains(n),
                forall|n: NodeId| #[trigger] self.has_drone_channel(n) == dr_ids.subrange(
                    0,
                    i as int,
                ).contains(n),
                forall|n: NodeId| #[trigger] self.metrics.drone_at(n) is Some == dr_ids.subrange(
                    0,
                    i as int,
                ).contains(n),
                forall|n: NodeId| !(#[trigger] self.has_client_channel(n)),
                forall|n: NodeId| !(#[trigger] self.has_server_channel(n)),
                forall|n: NodeId| #[trigger] self.metrics.host_at(n) is None,
            decreases dlen - i,
        {
            let id = match &self.initial_config {
                Some(config) => config.drone[i].id,
                None => 0,
            };
            let ghost pre = *self;
            let (ps, pr) = crossbeam_channel::unbounded::<Packet>();
            let slot = &mut self.inter_node_channels[id as usize];
            *slot = Some((ps, pr));
            let (cmd_tx, cmd_rx) = crossbeam_channel::unbounded::<DroneCommand>();
            let (evt_tx, evt_rx) = crossbeam_channel::unbounded::<DroneEvent>();
            let cslot = &mut self.drones_controller_channels[id as usize];
            *cslot = Some((cmd_tx, evt_rx));
            let eslot = &mut self.drone_node_endpoints[id as usize];
            *eslot = Some((cmd_rx, evt_tx));
            self.metrics.insert_node(id, NodeType::Drone);
            proof {
                assert(dr_ids[i as int] == id);
                crate::config::lemma_subrange_push(dr_ids, i as int);
                assert forall|n: NodeId| #[trigger] self.has_inter_channel(n) == dr_ids.subrange(
                    0,
                    i as int + 1,
                ).contains(n) by {
                    crate::config::lemma_contains_push(dr_ids.subrange(0, i as int), id, n);
                    assert(pre.has_inter_channel(n) == dr_ids.subrange(0, i as int).contains(n));
                    if n != id {
                        assert(self.inter_node_channels@[n as int]
                            == pre.inter_node_channels@[n as int]);
                    }
                }
                assert forall|n: NodeId| #[trigger] self.has_drone_channel(n) == dr_ids.subrange(
                    0,
                    i as int + 1,
                ).contains(n) by {
                    crate::config::lemma_contains_push(dr_ids.subrange(0, i as int), id, n);
                    assert(pre.has_drone_channel(n) == dr_ids.subrange(0, i as int).contains(n));
                    if n != id {
                        assert(self.drones_controller_channels@[n as int]
                            == pre.drones_controller_channels@[n as int]);
                    }
                }
                assert forall|n: NodeId| #[trigger] self.metrics.drone_at(n) is Some
                    == dr_ids.subrange(0, i as int + 1).contains(n) by {
                    crate::config::lemma_contains_push(dr_ids.subrange(0, i as int), id, n);
                    assert(pre.metrics.drone_at(n) is Some == dr_ids.subrange(
                        0,
                        i as int,
                    ).contains(n));
                    if n != id {
                        assert(self.metrics.drone_at(n) == pre.metrics.drone_at(n));
                    }
                }
                assert forall|n: NodeId| !(#[trigger] self.has_client_channel(n)) by {
                    assert(!pre.has_client_channel(n));
                }
                assert forall|n: NodeId| !(#[trigger] self.has_server_channel(n)) by {
                    assert(!pre.has_server_channel(n));
                }
                assert forall|n: NodeId| #[trigger] self.metrics.host_at(n) is None by {
                    assert(pre.metrics.host_at(n) is None);
                }
            }
            i = i + 1;
        }
        let ghost mid1 = *self;
        proof {
            assert(dr_ids.subrange(0, dr_ids.len() as int) =~= dr_ids);
            assert forall|n: NodeId| #[trigger] self.has_inter_channel(n) == (dr_ids.contains(n)
                || cl_ids.subrange(0, 0).contains(n)) by {
                assert(self.has_inter_channel(n) == dr_ids.subrange(
                    0,
                    dr_ids.len() as int,
                ).contains(n));
            }
            assert forall|n: NodeId| #[trigger] self.has_drone_channel(n) == dr_ids.contains(
                n,
            ) by {
                assert(self.has_drone_channel(n) == dr_ids.subrange(
                    0,
                    dr_ids.len() as int,
                ).contains(n));
            }
            assert forall|n: NodeId| #[trigger] self.metrics.drone_at(n) is Some
                == dr_ids.contains(n) by {
                assert(self.metrics.drone_at(n) is Some == dr_ids.subrange(
                    0,
                    dr_ids.len() as int,
                ).contains(n));
            }
            assert forall|n: NodeId| #[trigger] self.has_client_channel(n) == cl_ids.subrange(
                0,
                0,
            ).contains(n) by {
                assert(!self.has_client_channel(n));
            }
            assert forall|n: NodeId| #[trigger] self.metrics.host_at(n) is Some
                == cl_ids.subrange(0, 0).contains(n) by {
                assert(self.metrics.host_at(n) is None);
            }
        }
        let clen = match &self.initial_config {
            Some(config) => config.client.len(),
            None => 0,
        };
        let mut i: usize = 0;
        while i < clen
            invariant
                self.wf(),
                self.initial_config == Some(cfg),
                clen == cfg.client@.len(),
                i <= clen,
                graph_matches_config(self.graph, cfg),
                cfg.unique_ids(),
                self.graph.valid(true),
                self.status == old(self).status,
                self.strict_mode == old(self).strict_mode,
                self.discovery_interval_secs == old(self).discovery_interval_secs,
                self.received_messages@.len() == 0,
                dr_ids == cfg.drone@.map_values(|d: crate::config::Drone| d.id),
                cl_ids == cfg.client@.map_values(|c: crate::config::Client| c.id),
                forall|n: NodeId| #[trigger] self.has_inter_channel(n) == (dr_ids.contains(n)
                    || cl_ids.subrange(0, i as int).contains(n)),
                forall|n: NodeId| #[trigger] self.has_drone_channel(n) == dr_ids.contains(n),
                forall|n: NodeId| #[trigger] self.metrics.drone_at(n) is Some == dr_ids.contains(
                    n,
                ),
                forall|n: NodeId| #[trigger] self.has_client_channel(n) == cl_ids.subrange(
                    0,
                    i as int,
                ).contains(n),
                forall|n: NodeId| #[trigger] self.metrics.host_at(n) is Some == cl_ids.subrange(
                    0,
                    i as int,
                ).contains(n),
                forall|n: NodeId| !(#[trigger] self.has_server_channel(n)),
            decreases clen - i,
        {
            let id = match &self.initial_config {
                Some(config) => config.client[i].id,
                None => 0,
            };
            let ghost pre = *self;
            let (ps, pr) = crossbeam_channel::unbounded::<Packet>();
            let slot = &mut self.inter_node_channels[id as usize];
            *slot = Some((ps, pr));
            let (cmd_tx, cmd_rx) = crossbeam_channel::unbounded::<HostCommand>();
            let (evt_tx, evt_rx) = crossbeam_channel::unbounded::<HostEvent>();
            let cslot = &mut self.client_controller_channels[id as usize];
            *cslot = Some((cmd_tx, evt_rx));
            let eslot = &mut self.host_node_endpoints[id as usize];
            *eslot = Some((cmd_rx, evt_tx));
            self.metrics.insert_node(id, NodeType::Client);
            proof {
                assert(cl_ids[i as int] == id);
                crate::config::lemma_subrange_push(cl_ids, i as int);
                assert forall|n: NodeId| #[trigger] self.has_inter_channel(n) == (dr_ids.contains(
                    n,
                ) || cl_ids.subrange(0, i as int + 1).contains(n)) by {
                    crate::config::lemma_contains_push(cl_ids.subrange(0, i as int), id, n);
                    assert(pre.has_inter_channel(n) == (dr_ids.contains(n) || cl_ids.subrange(
                        0,
                        i as int,
                    ).contains(n)));
                    if n != id {
                        assert(self.inter_node_channels@[n as int]
                            == pre.inter_node_channels@[n as int]);
                    }
                }
                assert forall|n: NodeId| #[trigger] self.has_drone_channel(n) == dr_ids.contains(
                    n,
                ) by {
                    assert(pre.has_drone_channel(n) == dr_ids.contains(n));
                    assert(self.drones_controller_channels@[n as int]
                        == pre.drones_controller_channels@[n as int]);
                }
                assert forall|n: NodeId| #[trigger] self.metrics.drone_at(n) is Some
                    == dr_ids.contains(n) by {
                    assert(pre.metrics.drone_at(n) is Some == dr_ids.contains(n));
                    assert(self.metrics.drone_at(n) == pre.metrics.drone_at(n));
                }
                assert forall|n: NodeId| #[trigger] self.has_client_channel(n) == cl_ids.subrange(
                    0,
                    i as int + 1,
                ).contains(n) by {
                    crate::config::lemma_contains_push(cl_ids.subrange(0, i as int), id, n);
                    assert(pre.has_client_channel(n) == cl_ids.subrange(0, i as int).contains(n));
                    if n != id {
                        assert(self.client_controller_channels@[n as int]
                            == pre.client_controller_channels@[n as int]);
                    }
                }
                assert forall|n: NodeId| #[trigger] self.metrics.host_at(n) is Some
                    == cl_ids.subrange(0, i as int + 1).contains(n) by {
                    crate::config::lemma_contains_push(cl_ids.subrange(0, i as int), id, n);
                    assert(pre.metrics.host_at(n) is Some == cl_ids.subrange(
                        0,
                        i as int,
                    ).contains(n));
                    if n != id {
                        assert(self.metrics.host_at(n) == pre.metrics.host_at(n));
                    }
                }
                assert forall|n: NodeId| !(#[trigger] self.has_server_channel(n)) by {
                    assert(!pre.has_server_channel(n));
                }
            }
            i = i + 1;
        }
        proof {
            assert(cl_ids.subrange(0, cl_ids.len() as int) =~= cl_ids);
            assert forall|n: NodeId| #[trigger] self.has_inter_channel(n) == (dr_ids.contains(n)
                || cl_ids.contains(n) || sv_ids.subrange(0, 0).contains(n)) by {
                assert(self.has_inter_channel(n) == (dr_ids.contains(n) || cl_ids.subrange(
                    0,
                    cl_ids.len() as int,
                ).contains(n)));
            }
            assert forall|n: NodeId| #[trigger] self.has_client_channel(n) == cl_ids.contains(
                n,
            ) by {
                assert(self.has_client_channel(n) == cl_ids.subrange(
                    0,
                    cl_ids.len() as int,
                ).contains(n));
            }
            assert forall|n: NodeId| #[trigger] self.has_server_channel(n) == sv_ids.subrange(
                0,
                0,
            ).contains(n) by {
                assert(!self.has_server_channel(n));
            }
            assert forall|n: NodeId| #[trigger] self.metrics.host_at(n) is Some == (
            cl_ids.contains(n) || sv_ids.subrange(0, 0).contains(n)) by {
                assert(self.metrics.host_at(n) is Some == cl_ids.subrange(
                    0,
                    cl_ids.len() as int,
                ).contains(n));
            }
        }
        let slen = match &self.initial_config {
            Some(config) => config.server.len(),
            None => 0,
        };
        let mut i: usize = 0;
        while i < slen
            invariant
                self.wf(),
                self.initial_config == Some(cfg),
                slen == cfg.server@.len(),
                i <= slen,
                graph_matches_config(self.graph, cfg),
                cfg.unique_ids(),
                self.graph.valid(true),
                self.status == old(self).status,
                self.strict_mode == old(self).strict_mode,
                self.discovery_interval_secs == old(self).discovery_interval_secs,
                self.received_messages@.len() == 0,
                dr_ids == cfg.drone@.map_values(|d: crate::config::Drone| d.id),
                cl_ids == cfg.client@.map_values(|c: crate::config::Client| c.id),
                sv_ids == cfg.server@.map_values(|s: crate::config::Server| s.id),
                forall|n: NodeId| #[trigger] self.has_inter_channel(n) == (dr_ids.contains(n)
                    || cl_ids.contains(n) || sv_ids.subrange(0, i as int).contains(n)),
                forall|n: NodeId| #[trigger] self.has_drone_channel(n) == dr_ids.contains(n),
                forall|n: NodeId| #[trigger] self.metrics.drone_at(n) is Some == dr_ids.contains(
                    n,
                ),
                forall|n: NodeId| #[trigger] self.has_client_channel(n) == cl_ids.contains(n),
                forall|n: NodeId| #[trigger] self.has_server_channel(n) == sv_ids.subrange(
                    0,
                    i as int,
                ).contains(n),
                forall|n: NodeId| #[trigger] self.metrics.host_at(n) is Some == (cl_ids.contains(
                    n,
                ) || sv_ids.subrange(0, i as int).contains(n)),
            decreases slen - i,
        {
            let id = match &self.initial_config {
                Some(config) => config.server[i].id,
                None => 0,
            };
            let ghost pre = *self;
            let (ps, pr) = crossbeam_channel::unbounded::<Packet>();
            let slot = &mut self.inter_node_channels[id as usize];
            *slot = Some((ps, pr));
            let (cmd_tx, cmd_rx) = crossbeam_channel::unbounded::<HostCommand>();
            let (evt_tx, evt_rx) = crossbeam_channel::unbounded::<HostEvent>();
            let cslot = &mut self.server_controller_channels[id as usize];
            *cslot = Some((cmd_tx, evt_rx));
            let eslot = &mut self.host_node_endpoints[id as usize];
            *eslot = Some((cmd_rx, evt_tx));
            self.metrics.insert_node(id, NodeType::Server);
            proof {
                assert(sv_ids[i as int] == id);
                crate::config::lemma_subrange_push(sv_ids, i as int);
                assert forall|n: NodeId| #[trigger] self.has_inter_channel(n) == (dr_ids.contains(
                    n,
                ) || cl_ids.contains(n) || sv_ids.subrange(0, i as int + 1).contains(n)) by {
                    crate::config::lemma_contains_push(sv_ids.subrange(0, i as int), id, n);
                    assert(pre.has_inter_channel(n) == (dr_ids.contains(n) || cl_ids.contains(n)
                        || sv_ids.subrange(0, i as int).contains(n)));
                    if n != id {
                        assert(self.inter_node_channels@[n as int]
                            == pre.inter_node_channels@[n as int]);
                    }
                }
                assert forall|n: NodeId| #[trigger] self.has_drone_channel(n) == dr_ids.contains(
                    n,
                ) by {
                    assert(pre.has_drone_channel(n) == dr_ids.contains(n));
                    assert(self.drones_controller_channels@[n as int]
                        == pre.drones_controller_channels@[n as int]);
                }
                assert forall|n: NodeId| #[trigger] self.metrics.drone_at(n) is Some
                    == dr_ids.contains(n) by {
                    assert(pre.metrics.drone_at(n) is Some == dr_ids.contains(n));
                    assert(self.metrics.drone_at(n) == pre.metrics.drone_at(n));
                }
                assert forall|n: NodeId| #[trigger] self.has_client_channel(n) == cl_ids.contains(
                    n,
                ) by {
                    assert(pre.has_client_channel(n) == cl_ids.contains(n));
                    assert(self.client_controller_channels@[n as int]
                        == pre.client_controller_channels@[n as int]);
                }
                assert forall|n: NodeId| #[trigger] self.has_server_channel(n) == sv_ids.subrange(
                    0,
                    i as int + 1,
                ).contains(n) by {
                    crate::config::lemma_contains_push(sv_ids.subrange(0, i as int), id, n);
                    assert(pre.has_server_channel(n) == sv_ids.subrange(0, i as int).contains(n));
                    if n != id {
                        assert(self.server_controller_channels@[n as int]
                            == pre.server_controller_channels@[n as int]);
                    }
                }
                assert forall|n: NodeId| #[trigger] self.metrics.host_at(n) is Some == (
                cl_ids.contains(n) || sv_ids.subrange(0, i as int + 1).contains(n)) by {
                    crate::config::lemma_contains_push(sv_ids.subrange(0, i as int), id, n);
                    assert(pre.metrics.host_at(n) is Some == (cl_ids.contains(n)
                        || sv_ids.subrange(0, i as int).contains(n)));
                    if n != id {
                        assert(self.metrics.host_at(n) == pre.metrics.host_at(n));
                    }
                }
            }
            i = i + 1;
        }
        let ghost before_run = *self;
        self.status = SimulationStatus::Running;
        proof {
            assert(dr_ids.subrange(0, dr_ids.len() as int) =~= dr_ids);
            assert(cl_ids.subrange(0, cl_ids.len() as int) =~= cl_ids);
            assert(sv_ids.subrange(0, sv_ids.len() as int) =~= sv_ids);
            assert forall|n: NodeId| #[trigger] self.has_inter_channel(n)
                == self.graph.has_node(n) by {
                assert(self.has_inter_channel(n) == before_run.has_inter_channel(n));
                assert(before_run.has_inter_channel(n) == (dr_ids.contains(n) || cl_ids.contains(
                    n,
                ) || sv_ids.subrange(0, sv_ids.len() as int).contains(n)));
                assert(self.graph.has_node(n) == cfg.all_ids().contains(n));
                lemma_all_ids_split(cfg, n);
            }
            assert forall|n: NodeId| #[trigger] self.has_drone_channel(n)
                == self.graph.is_drone(n) by {
                assert(self.has_drone_channel(n) == before_run.has_drone_channel(n));
                assert(before_run.has_drone_channel(n) == dr_ids.contains(n));
                lemma_kind_of_id_list(cfg, self.graph, n);
            }
            assert forall|n: NodeId| #[trigger] self.has_client_channel(n)
                == self.graph.is_client(n) by {
                assert(self.has_client_channel(n) == before_run.has_client_channel(n));
                assert(before_run.has_client_channel(n) == cl_ids.contains(n));
                lemma_kind_of_id_list(cfg, self.graph, n);
            }
            assert forall|n: NodeId| #[trigger] self.has_server_channel(n)
                == self.graph.is_server(n) by {
                assert(self.has_server_channel(n) == before_run.has_server_channel(n));
                assert(before_run.has_server_channel(n) == sv_ids.subrange(
                    0,
                    sv_ids.len() as int,
                ).contains(n));
                lemma_kind_of_id_list(cfg, self.graph, n);
            }
            assert forall|n: NodeId| #[trigger] self.metrics.drone_at(n) is Some
                == self.graph.is_drone(n) by {
                assert(before_run.metrics.drone_at(n) is Some == dr_ids.contains(n));
                lemma_kind_of_id_list(cfg, self.graph, n);
            }
            assert forall|n: NodeId| #[trigger] self.metrics.host_at(n) is Some
                == self.graph.is_host(n) by {
                assert(before_run.metrics.host_at(n) is Some == (cl_ids.contains(n)
                    || sv_ids.subrange(0, sv_ids.len() as int).contains(n)));
                lemma_kind_of_id_list(cfg, self.graph, n);
            }
        }
        Ok(())
    }

    /// Revokes every sender, terminates every node, and drops all runtime
    /// state.  Joining the node threads is the embedder's part.
    pub fn stop_simulation(&mut self) -> (r: Result<(), NetworkError>)
        requires
            old(self).inv(),
        ensures
            final(self).inv(),
            !(old(self).status is Running) ==> r is Ok && *final(self) == *old(self),
            r is Err ==> (r matches Err(NetworkError::CommandSendError(_)) && *final(self) == *old(self)),
            old(self).status is Running && r is Ok ==> {
                &&& final(self).is_cleared()
                &&& final(self).status == SimulationStatus::Stopped
                &&& final(self).initial_config == old(self).initial_config
                &&& final(self).strict_mode == old(self).strict_mode
                &&& final(self).discovery_interval_secs == old(self).discovery_interval_secs
            },
    {
        if !matches!(self.status, SimulationStatus::Running) {
            return Ok(());
        }
        let mut node: usize = 0;
        while node < ID_SPACE
            invariant
                self.inv(),
                self == old(self),
                old(self).status is Running,
                node <= ID_SPACE,
            decreases ID_SPACE - node,
        {
            let neighbors = self.graph.get_neighbors(node as NodeId);
            let mut t: usize = 0;
            while t < neighbors.len()
                invariant
                    self.inv(),
                    self == old(self),
                    old(self).status is Running,
                    node < ID_SPACE,
                    t <= neighbors@.len(),
                decreases neighbors@.len() - t,
            {
                let target = neighbors[t];
                match crate::controller::send_remove_sender_command(
                    self,
                    node as NodeId,
                    target,
                ) {
                    Ok(()) => {}
                    Err(NetworkError::NodeNotFound(_)) => {}
                    Err(_) => {
                        return Err(NetworkError::CommandSendError(node as NodeId));
                    }
                }
                t = t + 1;
            }
            node = node + 1;
        }
        let mut node: usize = 0;
        while node < ID_SPACE
            invariant
                self.inv(),
                self == old(self),
                old(self).status is Running,
                node <= ID_SPACE,
            decreases ID_SPACE - node,
        {
            match &self.drones_controller_channels[node] {
                Some((cmd_tx, _)) => {
                    if !crate::channels::channel_send(cmd_tx, DroneCommand::Crash) {
                        return Err(NetworkError::CommandSendError(node as NodeId));
                    }
                }
                None => {}
            }
            match &self.client_controller_channels[node] {
                Some((cmd_tx, _)) => {
                    if !crate::channels::channel_send(cmd_tx, HostCommand::Stop) {
                        return Err(NetworkError::CommandSendError(node as NodeId));
                    }
                }
                None => {}
            }
            match &self.server_controller_channels[node] {
                Some((cmd_tx, _)) => {
                    if !crate::channels::channel_send(cmd_tx, HostCommand::Stop) {
                        return Err(NetworkError::CommandSendError(node as NodeId));
                    }
                }
                None => {}
            }
            node = node + 1;
        }
        self.status = SimulationStatus::Stopped;
        self.clear_simulation();
        Ok(())
    }
}

/// A state is observably the same as another: equal settings and lifecycle,
/// the same topology, the same channel presence, and the same metrics.
pub open spec fn observably_same(a: SimulationState, b: SimulationState) -> bool {
    &&& a.status == b.status
    &&& a.strict_mode == b.strict_mode
    &&& a.discovery_interval_secs == b.discovery_interval_secs
    &&& a.initial_config == b.initial_config
    &&& forall|n: NodeId| #[trigger] a.graph.has_node(n) == b.graph.has_node(n)
    &&& forall|n: NodeId| #[trigger] a.graph.nbrs(n) == b.graph.nbrs(n)
    &&& forall|n: NodeId| #[trigger] a.has_inter_channel(n) == b.has_inter_channel(n)
    &&& forall|n: NodeId| #[trigger] a.has_drone_channel(n) == b.has_drone_channel(n)
    &&& forall|n: NodeId| #[trigger] a.has_client_channel(n) == b.has_client_channel(n)
    &&& forall|n: NodeId| #[trigger] a.has_server_channel(n) == b.has_server_channel(n)
    &&& forall|s: NodeId, d: NodeId| #[trigger] a.metrics.heat_at(s, d) == b.metrics.heat_at(s, d)
    &&& forall|n: NodeId| #[trigger] a.metrics.drone_at(n) is Some == b.metrics.drone_at(n) is Some
    &&& forall|n: NodeId| #[trigger] a.metrics.host_at(n) is Some == b.metrics.host_at(n) is Some
    &&& a.received_messages@.len() == b.received_messages@.len()
}

/// Law: stopping is idempotent across repeats.  Any two stopped states that
/// kept the same configuration, strict flag and discovery interval — for
/// example the state after `load_config(f); start(); stop()` and the state
/// after repeating `start(); stop()` any number of times — are observably
/// the same.
pub proof fn lemma_stop_is_idempotent(s1: SimulationState, s2: SimulationState)
    requires
        s1.is_cleared(),
        s2.is_cleared(),
        s1.status == SimulationStatus::Stopped,
        s2.status == SimulationStatus::Stopped,
        s1.initial_config == s2.initial_config,
        s1.strict_mode == s2.strict_mode,
        s1.discovery_interval_secs == s2.discovery_interval_secs,
    ensures
        observably_same(s1, s2),
{
}

/// Every id of the configuration is a drone, client or server id.
proof fn lemma_all_ids_split(cfg: Config, n: NodeId)
    ensures
        cfg.all_ids().contains(n) == (cfg.drone@.map_values(|d: crate::config::Drone| d.id)
            .contains(n) || cfg.client@.map_values(|c: crate::config::Client| c.id).contains(n)
            || cfg.server@.map_values(|s: crate::config::Server| s.id).contains(n)),
{
    let a = cfg.drone@.map_values(|d: crate::config::Drone| d.id);
    let b = cfg.client@.map_values(|c: crate::config::Client| c.id);
    let c = cfg.server@.map_values(|s: crate::config::Server| s.id);
    if cfg.all_ids().contains(n) {
        let k = choose|k: int| 0 <= k < cfg.all_ids().len() && cfg.all_ids()[k] == n;
        if k < a.len() {
            assert(a[k] == n);
        } else if k < a.len() + b.len() {
            assert(b[k - a.len()] == n);
        } else {
            assert(c[k - a.len() - b.len()] == n);
        }
    }
    if a.contains(n) {
        let k = choose|k: int| 0 <= k < a.len() && a[k] == n;
        assert(cfg.all_ids()[k] == n);
    }
    if b.contains(n) {
        let k = choose|k: int| 0 <= k < b.len() && b[k] == n;
        assert(cfg.all_ids()[a.len() + k] == n);
    }
    if c.contains(n) {
        let k = choose|k: int| 0 <= k < c.len() && c[k] == n;
        assert(cfg.all_ids()[a.len() + b.len() + k] == n);
    }
}

/// In a graph built from a configuration, membership in an entry list and
/// the node's kind coincide.
proof fn lemma_kind_of_id_list(cfg: Config, g: GraphState, n: NodeId)
    requires
        graph_matches_config(g, cfg),
    ensures
        cfg.drone@.map_values(|d: crate::config::Drone| d.id).contains(n) == g.is_drone(n),
        cfg.client@.map_values(|c: crate::config::Client| c.id).contains(n) == g.is_client(n),
        cfg.server@.map_values(|s: crate::config::Server| s.id).contains(n) == g.is_server(n),
{
    let a = cfg.drone@.map_values(|d: crate::config::Drone| d.id);
    let b = cfg.client@.map_values(|c: crate::config::Client| c.id);
    let c = cfg.server@.map_values(|s: crate::config::Server| s.id);
    if a.contains(n) {
        let k = choose|k: int| 0 <= k < a.len() && a[k] == n;
        assert(cfg.drone@[k].id == n);
        assert(g.is_drone(n));
    }
    if b.contains(n) {
        let k = choose|k: int| 0 <= k < b.len() && b[k] == n;
        assert(cfg.client@[k].id == n);
        assert(g.is_client(n));
    }
    if c.contains(n) {
        let k = choose|k: int| 0 <= k < c.len() && c[k] == n;
        assert(cfg.server@[k].id == n);
        assert(g.is_server(n));
    }
}

/// Two states with the same runtime fields and status satisfy the
/// invariant together.
proof fn lemma_inv_same_runtime(a: SimulationState, b: SimulationState)
    requires
        a.inv(),
        b.status == a.status,
        b.graph == a.graph,
        b.metrics == a.metrics,
        b.received_messages == a.received_messages,
        b.inter_node_channels == a.inter_node_channels,
        b.drones_controller_channels == a.drones_controller_channels,
        b.client_controller_channels == a.client_controller_channels,
        b.server_controller_channels == a.server_controller_channels,
        b.drone_node_endpoints == a.drone_node_endpoints,
        b.host_node_endpoints == a.host_node_endpoints,
    ensures
        b.inv(),
{
    assert forall|n: NodeId| #[trigger] b.has_inter_channel(n) == a.has_inter_channel(n) by {}
    assert forall|n: NodeId| #[trigger] b.has_drone_channel(n) == a.has_drone_channel(n) by {}
    assert forall|n: NodeId| #[trigger] b.has_client_channel(n) == a.has_client_channel(n) by {}
    assert forall|n: NodeId| #[trigger] b.has_server_channel(n) == a.has_server_channel(n) by {}
    if b.status is Running {
        assert forall|n: NodeId| #[trigger] b.has_inter_channel(n) == b.graph.has_node(n) by {
            assert(a.has_inter_channel(n) == a.graph.has_node(n));
        }
        assert forall|n: NodeId| #[trigger] b.has_drone_channel(n) == b.graph.is_drone(n) by {
            assert(a.has_drone_channel(n) == a.graph.is_drone(n));
        }
        assert forall|n: NodeId| #[trigger] b.has_client_channel(n) == b.graph.is_client(n) by {
            assert(a.has_client_channel(n) == a.graph.is_client(n));
        }
        assert forall|n: NodeId| #[trigger] b.has_server_channel(n) == b.graph.is_server(n) by {
            assert(a.has_server_channel(n) == a.graph.is_server(n));
        }
    } else {
        assert forall|n: NodeId| !(#[trigger] b.has_inter_channel(n)) by {
            assert(!a.has_inter_channel(n));
        }
        assert forall|n: NodeId| !(#[trigger] b.has_drone_channel(n)) by {
            assert(!a.has_drone_channel(n));
        }
        assert forall|n: NodeId| !(#[trigger] b.has_client_channel(n)) by {
            assert(!a.has_client_channel(n));
        }
        assert forall|n: NodeId| !(#[trigger] b.has_server_channel(n)) by {
            assert(!a.has_server_channel(n));
        }
    }
}

/// A dense table with every slot empty.
fn none_table<T>() -> (r: Vec<Option<T>>)
    ensures
        r@.len() == ID_SPACE,
        forall|k: int| 0 <= k < ID_SPACE ==> #[trigger] r@[k] is None,
{
    let mut r: Vec<Option<T>> = Vec::new();
    let mut i: usize = 0;
    while i < ID_SPACE
        invariant
            i <= ID_SPACE,
            r@.len() == i,
            forall|k: int| 0 <= k < i ==> #[trigger] r@[k] is None,
        decreases ID_SPACE - i,
    {
        r.push(None);
        i = i + 1;
    }
    r
}

} // verus!
