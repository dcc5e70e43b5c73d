//! The labelled network graph: nodes with a kind and attributes, undirected
//! edges, and the mutation operations behind the simulation controller.
//!
//! The graph is stored densely: one slot per possible [`NodeId`], holding the
//! node's metadata (if the node exists) and its neighbor list.  The structural
//! invariants live in [`crate::validation`]; the operations here state exactly
//! how they change the adjacency and metadata tables.

use vstd::prelude::*;

verus! {

use crate::errors::NetworkError;
use crate::{NodeId, ID_SPACE};

/// The kind of a node, without attributes.
#[derive(Debug, Clone, Copy, PartialEq, Eq, Structural)]
pub enum NodeType {
    Drone,
    Client,
    Server,
}

/// The group name of a drone, seen as a sequence of characters.
pub open spec fn opt_str_view(o: Option<String>) -> Option<Seq<char>> {
    match o {
        Some(s) => Some(s@),
        None => None,
    }
}

/// Attributes of a drone: the implementation group it was instantiated from,
/// and its packet drop rate in whole percent (`0..=100`).
#[derive(Debug, Clone)]
pub struct DroneMetadata {
    pub node_group: Option<String>,
    pub pdr: u8,
}

impl DroneMetadata {
    pub fn new(node_group: Option<String>, pdr: u8) -> (r: Self)
        requires
            pdr <= 100,
        ensures
            r.pdr == pdr,
            r.node_group == node_group,
    {
        DroneMetadata { node_group, pdr }
    }

    pub fn get_pdr(&self) -> (r: u8)
        ensures
            r == self.pdr,
    {
        self.pdr
    }

    pub fn get_group(&self) -> (r: Option<String>)
        ensures
            opt_str_view(r) == opt_str_view(self.node_group),
    {
        match &self.node_group {
            Some(g) => Some(g.clone()),
            None => None,
        }
    }
}

/// Metadata of a single node: its kind, plus drone attributes where the node
/// is a drone.
#[derive(Debug, Clone)]
pub enum NodeMetadata {
    Drone(DroneMetadata),
    Client,
    Server,
}

impl NodeMetadata {
    /// The bare kind of the node.
    pub open spec fn spec_kind(self) -> NodeType {
        match self {
            NodeMetadata::Drone(_) => NodeType::Drone,
            NodeMetadata::Client => NodeType::Client,
            NodeMetadata::Server => NodeType::Server,
        }
    }

    pub fn kind(&self) -> (r: NodeType)
        ensures
            r == self.spec_kind(),
    {
        match self {
            NodeMetadata::Drone(_) => NodeType::Drone,
            NodeMetadata::Client => NodeType::Client,
            NodeMetadata::Server => NodeType::Server,
        }
    }
}

/// The labelled graph: one metadata slot and one neighbor list per possible
/// node id.
#[derive(Debug)]
pub struct GraphState {
    pub adjacency: Vec<Vec<NodeId>>,
    pub node_info: Vec<Option<NodeMetadata>>,
}

impl GraphState {
    /// The adjacency table as a sequence of neighbor sequences.
    pub open spec fn adj(self) -> Seq<Seq<NodeId>> {
        Seq::new(self.adjacency@.len(), |i: int| self.adjacency@[i]@)
    }

    /// The metadata table.
    pub open spec fn info(self) -> Seq<Option<NodeMetadata>> {
        self.node_info@
    }

    /// Both dense tables cover the whole id space.
    pub open spec fn wf(self) -> bool {
        &&& self.adj().len() == ID_SPACE
        &&& self.info().len() == ID_SPACE
    }

    /// The kind of a node, or `None` where no node exists.
    pub open spec fn kind_of(self, n: NodeId) -> Option<NodeType> {
        match self.info()[n as int] {
            Some(m) => Some(m.spec_kind()),
            None => None,
        }
    }

    /// Whether the node exists.
    pub open spec fn has_node(self, n: NodeId) -> bool {
        self.info()[n as int] is Some
    }

    /// The neighbor list of a node (empty for ids with no neighbors).
    pub open spec fn nbrs(self, n: NodeId) -> Seq<NodeId> {
        self.adj()[n as int]
    }

    pub open spec fn is_drone(self, n: NodeId) -> bool {
        self.kind_of(n) == Some(NodeType::Drone)
    }

    pub open spec fn is_client(self, n: NodeId) -> bool {
        self.kind_of(n) == Some(NodeType::Client)
    }

    pub open spec fn is_server(self, n: NodeId) -> bool {
        self.kind_of(n) == Some(NodeType::Server)
    }

    /// Clients and servers together are the hosts of the network.
    pub open spec fn is_host(self, n: NodeId) -> bool {
        self.is_client(n) || self.is_server(n)
    }

    /// The drop rate (in percent) of a drone; zero elsewhere.
    pub open spec fn pdr_of(self, n: NodeId) -> u8 {
        match self.info()[n as int] {
            Some(NodeMetadata::Drone(d)) => d.pdr,
            _ => 0,
        }
    }

    /// The group of a drone, at view level; `None` elsewhere.
    pub open spec fn group_of(self, n: NodeId) -> Option<Seq<char>> {
        match self.info()[n as int] {
            Some(NodeMetadata::Drone(d)) => opt_str_view(d.node_group),
            _ => None,
        }
    }

    /// Every drone's drop rate stays in `0..=100` percent.
    pub open spec fn pdr_in_range(self) -> bool {
        forall|n: NodeId| self.is_drone(n) ==> #[trigger] self.pdr_of(n) <= 100
    }

    /// Two graphs describe the same topology: same adjacency, and the same
    /// nodes with the same kind, drop rate and group.
    pub open spec fn same_topology(self, other: GraphState) -> bool {
        &&& other.adj() == self.adj()
        &&& other.info().len() == self.info().len()
        &&& forall|n: NodeId| #[trigger] other.kind_of(n) == self.kind_of(n)
        &&& forall|n: NodeId| #[trigger] other.pdr_of(n) == self.pdr_of(n)
        &&& forall|n: NodeId| #[trigger] other.group_of(n) == self.group_of(n)
    }

    /// An empty graph: no nodes, no edges.
    pub fn new() -> (r: Self)
        ensures
            r.wf(),
            r.pdr_in_range(),
            forall|n: NodeId| !r.has_node(n),
            forall|n: NodeId| #[trigger] r.nbrs(n) == Seq::<NodeId>::empty(),
    {
        let mut adjacency: Vec<Vec<NodeId>> = Vec::new();
        let mut node_info: Vec<Option<NodeMetadata>> = Vec::new();
        let mut i: usize = 0;
        while i < ID_SPACE
            invariant
                i <= ID_SPACE,
                adjacency@.len() == i,
                node_info@.len() == i,
                forall|k: int| 0 <= k < i ==> (#[trigger] adjacency@[k])@.len() == 0,
                forall|k: int| 0 <= k < i ==> #[trigger] node_info@[k] is None,
            decreases ID_SPACE - i,
        {
            let empty_row: Vec<NodeId> = Vec::new();
            adjacency.push(empty_row);
            node_info.push(None);
            i = i + 1;
        }
        let r = GraphState { adjacency, node_info };
        proof {
            assert forall|n: NodeId| #[trigger] r.nbrs(n) == Seq::<NodeId>::empty() by {
                assert(r.nbrs(n) =~= Seq::<NodeId>::empty());
            }
        }
        r
    }

    /// A copy of the graph that describes the same topology; used to validate
    /// a proposed mutation before committing it.
    pub fn snapshot(&self) -> (r: GraphState)
        requires
            self.wf(),
        ensures
            r.wf(),
            self.same_topology(r),
    {
        let mut adjacency: Vec<Vec<NodeId>> = Vec::new();
        let mut node_info: Vec<Option<NodeMetadata>> = Vec::new();
        let mut i: usize = 0;
        while i < ID_SPACE
            invariant
                self.wf(),
                i <= ID_SPACE,
                adjacency@.len() == i,
                node_info@.len() == i,
                forall|k: int| 0 <= k < i ==> (#[trigger] adjacency@[k])@ == self.adj()[k],
                forall|k: int| 0 <= k < i ==> (#[trigger] node_info@[k]) is Some == self.info()[k] is Some,
                forall|k: int| 0 <= k < i ==> #[trigger] opt_kind(node_info@[k]) == opt_kind(
                    self.info()[k],
                ),
                forall|k: int| 0 <= k < i ==> #[trigger] opt_pdr(node_info@[k]) == opt_pdr(
                    self.info()[k],
                ),
                forall|k: int| 0 <= k < i ==> #[trigger] opt_group(node_info@[k]) == opt_group(
                    self.info()[k],
                ),
            decreases ID_SPACE - i,
        {
            let row = copy_ids(&self.adjacency[i]);
            adjacency.push(row);
            let slot: Option<NodeMetadata> = match &self.node_info[i] {
                Some(NodeMetadata::Drone(d)) => Some(
                    NodeMetadata::Drone(DroneMetadata { node_group: d.get_group(), pdr: d.pdr }),
                ),
                Some(NodeMetadata::Client) => Some(NodeMetadata::Client),
                Some(NodeMetadata::Server) => Some(NodeMetadata::Server),
                None => None,
            };
            node_info.push(slot);
            i = i + 1;
        }
        let r = GraphState { adjacency, node_info };
        proof {
            assert(r.adj() =~= self.adj());
            assert forall|n: NodeId| #[trigger] r.kind_of(n) == self.kind_of(n) by {
                assert(opt_kind(r.info()[n as int]) == opt_kind(self.info()[n as int]));
            }
            assert forall|n: NodeId| #[trigger] r.pdr_of(n) == self.pdr_of(n) by {
                assert(opt_pdr(r.info()[n as int]) == opt_pdr(self.info()[n as int]));
            }
            assert forall|n: NodeId| #[trigger] r.group_of(n) == self.group_of(n) by {
                assert(opt_group(r.info()[n as int]) == opt_group(self.info()[n as int]));
            }
        }
        r
    }

    /// The metadata slot of a node.
    pub fn get_node_type(&self, node_id: NodeId) -> (r: Option<NodeMetadata>)
        requires
            self.wf(),
        ensures
            r is Some <==> self.has_node(node_id),
            opt_kind(r) == self.kind_of(node_id),
            opt_pdr(r) == (if self.has_node(node_id) {
                Some(self.pdr_of(node_id))
            } else {
                None
            }),
            opt_group(r) == (if self.has_node(node_id) {
                Some(self.group_of(node_id))
            } else {
                None
            }),
    {
        match &self.node_info[node_id as usize] {
            Some(NodeMetadata::Drone(d)) => Some(
                NodeMetadata::Drone(DroneMetadata { node_group: d.get_group(), pdr: d.pdr }),
            ),
            Some(NodeMetadata::Client) => Some(NodeMetadata::Client),
            Some(NodeMetadata::Server) => Some(NodeMetadata::Server),
            None => None,
        }
    }

    /// The ids of all existing nodes, in increasing order.
    pub fn get_nodes(&self) -> (r: Vec<NodeId>)
        requires
            self.wf(),
        ensures
            forall|i: int| 0 <= i < r@.len() ==> self.has_node(#[trigger] r@[i]),
            forall|n: NodeId| self.has_node(n) ==> r@.contains(n),
            forall|i: int, j: int| 0 <= i < j < r@.len() ==> r@[i] < r@[j],
    {
        let mut r: Vec<NodeId> = Vec::new();
        let mut i: usize = 0;
        while i < ID_SPACE
            invariant
                self.wf(),
                i <= ID_SPACE,
                forall|k: int| 0 <= k < r@.len() ==> self.has_node(#[trigger] r@[k]),
                forall|k: int| 0 <= k < r@.len() ==> (#[trigger] r@[k]) < i,
                forall|n: NodeId| n < i && self.has_node(n) ==> r@.contains(n),
                forall|k: int, j: int| 0 <= k < j < r@.len() ==> r@[k] < r@[j],
            decreases ID_SPACE - i,
        {
            let ghost prev = r@;
            if self.node_info[i].is_some() {
                r.push(i as NodeId);
            }
            proof {
                assert forall|n: NodeId| n < i + 1 && self.has_node(n) implies r@.contains(n) by {
                    if n < i {
                        let w = choose|w: int| 0 <= w < prev.len() && prev[w] == n;
                        assert(r@[w] == n);
                    } else {
                        assert(r@[r@.len() - 1] == n);
                    }
                }
            }
            i = i + 1;
        }
        r
    }

    /// The neighbor list of a node (a copy; empty when the node has none).
    pub fn get_neighbors(&self, node_id: NodeId) -> (r: Vec<NodeId>)
        requires
            self.wf(),
        ensures
            r@ == self.nbrs(node_id),
    {
        let r = copy_ids(&self.adjacency[node_id as usize]);
        proof {
            assert(r@ =~= self.nbrs(node_id));
        }
        r
    }

    /// Assigns the implementation group of a drone; a no-op on any other id.
    pub fn set_drone_group(&mut self, node_id: NodeId, group: String)
        requires
            old(self).wf(),
        ensures
            final(self).wf(),
            final(self).adj() == old(self).adj(),
            forall|m: NodeId| #[trigger] final(self).kind_of(m) == old(self).kind_of(m),
            forall|m: NodeId| #[trigger] final(self).pdr_of(m) == old(self).pdr_of(m),
            forall|m: NodeId|
                m != node_id ==> #[trigger] final(self).group_of(m) == old(self).group_of(m),
            old(self).is_drone(node_id) ==> final(self).group_of(node_id) == Some(group@),
            !old(self).is_drone(node_id) ==> final(self).group_of(node_id) == old(
                self,
            ).group_of(node_id),
    {
        let slot = &mut self.node_info[node_id as usize];
        match slot {
            Some(NodeMetadata::Drone(d)) => {
                d.node_group = Some(group);
            }
            _ => {}
        }
    }

    /// The implementation group of a drone, if any.
    pub fn get_drone_group(&self, node_id: NodeId) -> (r: Option<String>)
        requires
            self.wf(),
        ensures
            opt_str_view(r) == self.group_of(node_id),
    {
        match &self.node_info[node_id as usize] {
            Some(NodeMetadata::Drone(d)) => d.get_group(),
            _ => None,
        }
    }
}

/// The kind recorded in a metadata slot.
pub open spec fn opt_kind(o: Option<NodeMetadata>) -> Option<NodeType> {
    match o {
        Some(m) => Some(m.spec_kind()),
        None => None,
    }
}

/// The drop rate recorded in a metadata slot (zero for hosts).
pub open spec fn opt_pdr(o: Option<NodeMetadata>) -> Option<u8> {
    match o {
        Some(NodeMetadata::Drone(d)) => Some(d.pdr),
        Some(_) => Some(0),
        None => None,
    }
}

/// The group recorded in a metadata slot, at view level.
pub open spec fn opt_group(o: Option<NodeMetadata>) -> Option<Option<Seq<char>>> {
    match o {
        Some(NodeMetadata::Drone(d)) => Some(opt_str_view(d.node_group)),
        Some(_) => Some(None),
        None => None,
    }
}

impl GraphState {
    /// Removes the drone from the graph together with every incident edge.
    pub fn crash_drone(&mut self, drone_id: NodeId) -> (r: Result<(), NetworkError>)
        requires
            old(self).wf(),
        ensures
            final(self).wf(),
            r is Ok <==> old(self).is_drone(drone_id),
            r matches Err(e) ==> e == NetworkError::NodeIsNotDrone(drone_id) && *final(self)
                == *old(self),
            r is Ok ==> {
                &&& final(self).info() == old(self).info().update(drone_id as int, None::<
                    NodeMetadata,
                >)
                &&& final(self).nbrs(drone_id) == Seq::<NodeId>::empty()
                &&& forall|x: NodeId|
                    x != drone_id ==> #[trigger] final(self).nbrs(x) == old(self).nbrs(x).filter(
                        ne_to(drone_id),
                    )
            },
    {
        let is_drone = match &self.node_info[drone_id as usize] {
            Some(NodeMetadata::Drone(_)) => true,
            _ => false,
        };
        if !is_drone {
            return Err(NetworkError::NodeIsNotDrone(drone_id));
        }
        let slot = &mut self.node_info[drone_id as usize];
        *slot = None;
        let ghost info0 = old(self).info();
        let mut k: usize = 0;
        while k < ID_SPACE
            invariant
                self.node_info@ == info0.update(drone_id as int, None::<NodeMetadata>),
                self.adjacency@.len() == ID_SPACE,
                old(self).adj().len() == ID_SPACE,
                k <= ID_SPACE,
                forall|x: int| 0 <= x < k ==> (#[trigger] self.adjacency@[x])@ == old(
                    self,
                ).adj()[x].filter(ne_to(drone_id)),
                forall|x: int| k <= x < ID_SPACE ==> (#[trigger] self.adjacency@[x])@ == old(
                    self,
                ).adj()[x],
            decreases ID_SPACE - k,
        {
            let row = remove_all(&self.adjacency[k], drone_id);
            let slot = &mut self.adjacency[k];
            *slot = row;
            k = k + 1;
        }
        let empty_row: Vec<NodeId> = Vec::new();
        let slot = &mut self.adjacency[drone_id as usize];
        *slot = empty_row;
        proof {
            assert(self.nbrs(drone_id) =~= Seq::<NodeId>::empty());
            assert forall|x: NodeId|
                x != drone_id implies #[trigger] self.nbrs(x) == old(self).nbrs(x).filter(
                ne_to(drone_id),
            ) by {
                assert(self.adjacency@[x as int]@ == old(self).adj()[x as int].filter(
                    ne_to(drone_id),
                ));
            }
        }
        Ok(())
    }

    /// Sets the drop rate (in percent) of a drone.
    pub fn set_pdr(&mut self, drone_id: NodeId, pdr: u8) -> (r: Result<(), NetworkError>)
        requires
            old(self).wf(),
            pdr <= 100,
        ensures
            final(self).wf(),
            r is Ok <==> old(self).is_drone(drone_id),
            r matches Err(e) ==> e == NetworkError::NodeIsNotDrone(drone_id) && *final(self)
                == *old(self),
            r is Ok ==> {
                &&& final(self).adj() == old(self).adj()
                &&& final(self).pdr_of(drone_id) == pdr
                &&& final(self).group_of(drone_id) == old(self).group_of(drone_id)
                &&& forall|m: NodeId| #[trigger] final(self).kind_of(m) == old(self).kind_of(m)
                &&& forall|m: NodeId|
                    m != drone_id ==> #[trigger] final(self).info()[m as int] == old(
                        self,
                    ).info()[m as int]
            },
    {
        let is_drone = match &self.node_info[drone_id as usize] {
            Some(NodeMetadata::Drone(_)) => true,
            _ => false,
        };
        if !is_drone {
            return Err(NetworkError::NodeIsNotDrone(drone_id));
        }
        let slot = &mut self.node_info[drone_id as usize];
        match slot {
            Some(NodeMetadata::Drone(d)) => {
                d.pdr = pdr;
            }
            _ => {}
        }
        Ok(())
    }

    /// Removes the undirected edge between two distinct existing nodes.
    pub fn remove_edge(&mut self, node1_id: NodeId, node2_id: NodeId) -> (r: Result<
        (),
        NetworkError,
    >)
        requires
            old(self).wf(),
        ensures
            final(self).wf(),
            r is Ok <==> {
                &&& node1_id != node2_id
                &&& old(self).has_node(node1_id)
                &&& old(self).has_node(node2_id)
                &&& old(self).nbrs(node1_id).contains(node2_id)
                &&& old(self).nbrs(node2_id).contains(node1_id)
            },
            r is Err ==> *final(self) == *old(self),
            node1_id == node2_id ==> r matches Err(NetworkError::InvalidOperation),
            node1_id != node2_id && !(old(self).has_node(node1_id) && old(self).has_node(node2_id))
                ==> r matches Err(NetworkError::NodeNotFound(_)),
            node1_id != node2_id && old(self).has_node(node1_id) && old(self).has_node(node2_id)
                && !(old(self).nbrs(node1_id).contains(node2_id) && old(self).nbrs(
                node2_id,
            ).contains(node1_id)) ==> r matches Err(NetworkError::EdgeNotFound(..)),
            r is Ok ==> {
                &&& final(self).info() == old(self).info()
                &&& final(self).nbrs(node1_id) == old(self).nbrs(node1_id).filter(
                    ne_to(node2_id),
                )
                &&& final(self).nbrs(node2_id) == old(self).nbrs(node2_id).filter(
                    ne_to(node1_id),
                )
                &&& forall|x: NodeId|
                    x != node1_id && x != node2_id ==> #[trigger] final(self).nbrs(x) == old(
                        self,
                    ).nbrs(x)
            },
    {
        if node1_id == node2_id {
            return Err(NetworkError::InvalidOperation);
        }
        if self.node_info[node1_id as usize].is_none() || self.node_info[node2_id as usize].is_none() {
            return Err(NetworkError::NodeNotFound(node1_id));
        }
        if !vec_contains(&self.adjacency[node1_id as usize], node2_id) || !vec_contains(
            &self.adjacency[node2_id as usize],
            node1_id,
        ) {
            return Err(NetworkError::EdgeNotFound(node1_id, node2_id));
        }
        let row1 = remove_all(&self.adjacency[node1_id as usize], node2_id);
        let slot1 = &mut self.adjacency[node1_id as usize];
        *slot1 = row1;
        let row2 = remove_all(&self.adjacency[node2_id as usize], node1_id);
        let slot2 = &mut self.adjacency[node2_id as usize];
        *slot2 = row2;
        proof {
            assert forall|x: NodeId|
                x != node1_id && x != node2_id implies #[trigger] self.nbrs(x) == old(self).nbrs(
                x,
            ) by {
                assert(self.adjacency@[x as int] == old(self).adjacency@[x as int]);
            }
        }
        Ok(())
    }

    /// Inserts the undirected edge between two distinct existing nodes.
    pub fn add_edge(&mut self, node1_id: NodeId, node2_id: NodeId) -> (r: Result<
        (),
        NetworkError,
    >)
        requires
            old(self).wf(),
        ensures
            final(self).wf(),
            r is Ok <==> {
                &&& node1_id != node2_id
                &&& old(self).has_node(node1_id)
                &&& old(self).has_node(node2_id)
                &&& !old(self).nbrs(node1_id).contains(node2_id)
                &&& !old(self).nbrs(node2_id).contains(node1_id)
            },
            r is Err ==> *final(self) == *old(self),
            node1_id == node2_id ==> r matches Err(NetworkError::InvalidOperation),
            node1_id != node2_id && !(old(self).has_node(node1_id) && old(self).has_node(node2_id))
                ==> r matches Err(NetworkError::NodeNotFound(_)),
            node1_id != node2_id && old(self).has_node(node1_id) && old(self).has_node(node2_id)
                && (old(self).nbrs(node1_id).contains(node2_id) || old(self).nbrs(
                node2_id,
            ).contains(node1_id)) ==> r matches Err(NetworkError::EdgeAlreadyExists(..)),
            r is Ok ==> {
                &&& final(self).info() == old(self).info()
                &&& final(self).nbrs(node1_id) == old(self).nbrs(node1_id).push(node2_id)
                &&& final(self).nbrs(node2_id) == old(self).nbrs(node2_id).push(node1_id)
                &&& forall|x: NodeId|
                    x != node1_id && x != node2_id ==> #[trigger] final(self).nbrs(x) == old(
                        self,
                    ).nbrs(x)
            },
    {
        if node1_id == node2_id {
            return Err(NetworkError::InvalidOperation);
        }
        if self.node_info[node1_id as usize].is_none() || self.node_info[node2_id as usize].is_none() {
            return Err(NetworkError::NodeNotFound(node1_id));
        }
        if vec_contains(&self.adjacency[node1_id as usize], node2_id) || vec_contains(
            &self.adjacency[node2_id as usize],
            node1_id,
        ) {
            return Err(NetworkError::EdgeAlreadyExists(node1_id, node2_id));
        }
        let slot1 = &mut self.adjacency[node1_id as usize];
        slot1.push(node2_id);
        let slot2 = &mut self.adjacency[node2_id as usize];
        slot2.push(node1_id);
        proof {
            assert(self.nbrs(node1_id) =~= old(self).nbrs(node1_id).push(node2_id));
            assert(self.nbrs(node2_id) =~= old(self).nbrs(node2_id).push(node1_id));
            assert forall|x: NodeId|
                x != node1_id && x != node2_id implies #[trigger] self.nbrs(x) == old(self).nbrs(
                x,
            ) by {
                assert(self.adjacency@[x as int] == old(self).adjacency@[x as int]);
            }
        }
        Ok(())
    }

    /// Inserts a new drone with the given id and neighbor list; edges are
    /// appended in both directions exactly as given, so a malformed neighbor
    /// list (duplicates, the node itself, unknown ids) yields a graph that
    /// validation will reject.
    pub fn add_drone(&mut self, node_id: NodeId, connected_node_ids: &Vec<NodeId>, pdr: u8) -> (r:
        Result<(), NetworkError>)
        requires
            old(self).wf(),
            pdr <= 100,
        ensures
            final(self).wf(),
            r is Ok <==> !old(self).has_node(node_id),
            r matches Err(e) ==> e == NetworkError::InvalidOperation && *final(self) == *old(self),
            r is Ok ==> {
                &&& forall|m: NodeId|
                    m != node_id ==> #[trigger] final(self).info()[m as int] == old(
                        self,
                    ).info()[m as int]
                &&& final(self).is_drone(node_id)
                &&& final(self).pdr_of(node_id) == pdr
                &&& final(self).group_of(node_id) == None::<Seq<char>>
                &&& final(self).nbrs(node_id) == old(self).nbrs(node_id) + connected_node_ids@
                    + rep_id(occurrences(connected_node_ids@, node_id), node_id)
                &&& forall|x: NodeId|
                    x != node_id ==> #[trigger] final(self).nbrs(x) == old(self).nbrs(x) + rep_id(
                        occurrences(connected_node_ids@, x),
                        node_id,
                    )
                &&& forall|x: NodeId|
                    x != node_id && !connected_node_ids@.contains(x)
                        ==> #[trigger] final(self).nbrs(x) == old(self).nbrs(x)
            },
    {
        if self.node_info[node_id as usize].is_some() {
            return Err(NetworkError::InvalidOperation);
        }
        let mut row = copy_ids(&self.adjacency[node_id as usize]);
        proof {
            assert(row@ =~= self.nbrs(node_id) + connected_node_ids@.subrange(0, 0));
        }
        let mut j: usize = 0;
        while j < connected_node_ids.len()
            invariant
                j <= connected_node_ids@.len(),
                row@ == self.nbrs(node_id) + connected_node_ids@.subrange(0, j as int),
                self.wf(),
            decreases connected_node_ids@.len() - j,
        {
            row.push(connected_node_ids[j]);
            proof {
                assert(connected_node_ids@.subrange(0, j as int + 1)
                    =~= connected_node_ids@.subrange(0, j as int).push(connected_node_ids@[j as int]));
                assert(row@ =~= self.nbrs(node_id) + connected_node_ids@.subrange(0, j as int + 1));
            }
            j = j + 1;
        }
        proof {
            assert(connected_node_ids@.subrange(0, connected_node_ids@.len() as int)
                =~= connected_node_ids@);
        }
        let slot = &mut self.adjacency[node_id as usize];
        *slot = row;
        let mut j: usize = 0;
        while j < connected_node_ids.len()
            invariant
                j <= connected_node_ids@.len(),
                old(self).wf(),
                self.adjacency@.len() == ID_SPACE,
                self.node_info@ == old(self).node_info@,
                forall|x: NodeId|
                    x != node_id ==> (#[trigger] self.adjacency@[x as int])@ == old(
                        self,
                    ).nbrs(x) + rep_id(
                        occurrences(connected_node_ids@.subrange(0, j as int), x),
                        node_id,
                    ),
                self.adjacency@[node_id as int]@ == old(self).nbrs(node_id) + connected_node_ids@
                    + rep_id(
                    occurrences(connected_node_ids@.subrange(0, j as int), node_id),
                    node_id,
                ),
            decreases connected_node_ids@.len() - j,
        {
            let nbr = connected_node_ids[j];
            let ghost prev = self.adjacency@;
            let slot = &mut self.adjacency[nbr as usize];
            slot.push(node_id);
            proof {
                lemma_occurrences_step(connected_node_ids@, j as int);
                let jj = j as int + 1;
                assert forall|x: NodeId|
                    x != node_id implies (#[trigger] self.adjacency@[x as int])@ == old(
                    self,
                ).nbrs(x) + rep_id(
                    occurrences(connected_node_ids@.subrange(0, jj), x),
                    node_id,
                ) by {
                    if x == nbr {
                        assert(self.adjacency@[x as int]@ =~= old(self).nbrs(x) + rep_id(
                            occurrences(connected_node_ids@.subrange(0, jj), x),
                            node_id,
                        ));
                    } else {
                        assert(self.adjacency@[x as int] == prev[x as int]);
                    }
                }
                if nbr == node_id {
                    assert(self.adjacency@[node_id as int]@ =~= old(self).nbrs(node_id)
                        + connected_node_ids@ + rep_id(
                        occurrences(connected_node_ids@.subrange(0, jj), node_id),
                        node_id,
                    ));
                } else {
                    assert(self.adjacency@[node_id as int] == prev[node_id as int]);
                }
            }
            j = j + 1;
        }
        let slot = &mut self.node_info[node_id as usize];
        *slot = Some(NodeMetadata::Drone(DroneMetadata { node_group: None, pdr }));
        proof {
            assert(connected_node_ids@.subrange(0, connected_node_ids@.len() as int)
                =~= connected_node_ids@);
            assert forall|x: NodeId|
                x != node_id && !connected_node_ids@.contains(x) implies #[trigger] self.nbrs(x)
                == old(self).nbrs(x) by {
                assert(occurrences(connected_node_ids@, x) == 0) by {
                    let pred = |y: NodeId| y == x;
                    let f = connected_node_ids@.filter(pred);
                    if f.len() > 0 {
                        connected_node_ids@.lemma_filter_pred(pred, 0);
                        assert(f[0] == x);
                        assert(f.contains(f[0]));
                        connected_node_ids@.lemma_filter_contains_rev(pred, f[0]);
                        assert(connected_node_ids@.contains(x));
                    }
                }
                assert(self.nbrs(x) =~= old(self).nbrs(x) + rep_id(0, node_id));
                assert(old(self).nbrs(x) + rep_id(0, node_id) =~= old(self).nbrs(x));
            }
        }
        Ok(())
    }

    /// The smallest id, counting from one, that no node uses yet; `None`
    /// when every id is taken.
    pub fn get_next_node_id(&self) -> (r: Option<NodeId>)
        requires
            self.wf(),
        ensures
            r matches Some(id) ==> id >= 1 && !self.has_node(id) && forall|k: NodeId|
                1 <= k < id ==> self.has_node(k),
            r is None ==> forall|k: NodeId| k >= 1 ==> self.has_node(k),
    {
        let mut i: usize = 1;
        while i < ID_SPACE
            invariant
                self.wf(),
                1 <= i <= ID_SPACE,
                forall|k: NodeId| 1 <= k < i ==> self.has_node(k),
            decreases ID_SPACE - i,
        {
            if self.node_info[i].is_none() {
                return Some(i as NodeId);
            }
            i = i + 1;
        }
        None
    }
}

/// The predicate keeping every id other than `x`; named once so that every
/// contract speaks of the same function value.
pub open spec fn ne_to(x: NodeId) -> spec_fn(NodeId) -> bool {
    |z: NodeId| z != x
}

/// How often an id occurs in a neighbor list.
pub open spec fn occurrences(s: Seq<NodeId>, x: NodeId) -> nat {
    s.filter(|y: NodeId| y == x).len()
}

/// The id repeated `n` times.
pub open spec fn rep_id(n: nat, id: NodeId) -> Seq<NodeId> {
    Seq::new(n, |i: int| id)
}

/// Splitting off the last element distributes over `occurrences`.
pub proof fn lemma_occurrences_step(s: Seq<NodeId>, j: int)
    requires
        0 <= j < s.len(),
    ensures
        forall|x: NodeId| #[trigger] occurrences(s.subrange(0, j + 1), x) == occurrences(
            s.subrange(0, j),
            x,
        ) + (if s[j] == x {
            1int
        } else {
            0int
        }),
{
    assert forall|x: NodeId| #[trigger] occurrences(s.subrange(0, j + 1), x) == occurrences(
        s.subrange(0, j),
        x,
    ) + (if s[j] == x {
        1int
    } else {
        0int
    }) by {
        let pred = |y: NodeId| y == x;
        assert(s.subrange(0, j + 1) =~= s.subrange(0, j).push(s[j]));
        lemma_filter_push(s.subrange(0, j), s[j], pred);
    }
}

/// `filter` over a pushed element keeps or drops exactly that element.
pub proof fn lemma_filter_push(s: Seq<NodeId>, e: NodeId, pred: spec_fn(NodeId) -> bool)
    ensures
        pred(e) ==> s.push(e).filter(pred) == s.filter(pred).push(e),
        !pred(e) ==> s.push(e).filter(pred) == s.filter(pred),
{
    reveal(Seq::filter);
    assert(s.push(e).drop_last() =~= s);
    assert(s.push(e).last() == e);
}

/// A list without the id filters to itself.
pub proof fn lemma_filter_absent(s: Seq<NodeId>, x: NodeId)
    requires
        !s.contains(x),
    ensures
        s.filter(ne_to(x)) == s,
    decreases s.len(),
{
    reveal(Seq::filter);
    if s.len() > 0 {
        assert(!s.drop_last().contains(x)) by {
            if s.drop_last().contains(x) {
                let w = choose|w: int| 0 <= w < s.drop_last().len() && s.drop_last()[w] == x;
                assert(s[w] == x);
            }
        }
        lemma_filter_absent(s.drop_last(), x);
        assert(s[s.len() - 1] != x);
        assert(s.drop_last().push(s.last()) =~= s);
    } else {
        assert(s.filter(ne_to(x)) =~= s);
    }
}

/// Adding an edge and then removing it leaves the graph exactly as it was:
/// the neighbor lists, every node and every attribute are restored.
pub proof fn lemma_edge_round_trip(
    g0: GraphState,
    g1: GraphState,
    g2: GraphState,
    a: NodeId,
    b: NodeId,
)
    requires
        g0.wf(),
        a != b,
        !g0.nbrs(a).contains(b),
        !g0.nbrs(b).contains(a),
        // `g1` is `g0` after a successful `add_edge(a, b)`
        g1.wf(),
        g1.info() == g0.info(),
        g1.nbrs(a) == g0.nbrs(a).push(b),
        g1.nbrs(b) == g0.nbrs(b).push(a),
        forall|x: NodeId| x != a && x != b ==> #[trigger] g1.nbrs(x) == g0.nbrs(x),
        // `g2` is `g1` after a successful `remove_edge(a, b)`
        g2.wf(),
        g2.info() == g1.info(),
        g2.nbrs(a) == g1.nbrs(a).filter(ne_to(b)),
        g2.nbrs(b) == g1.nbrs(b).filter(ne_to(a)),
        forall|x: NodeId| x != a && x != b ==> #[trigger] g2.nbrs(x) == g1.nbrs(x),
    ensures
        g2.adj() == g0.adj(),
        g2.info() == g0.info(),
{
    lemma_filter_push(g0.nbrs(a), b, ne_to(b));
    lemma_filter_absent(g0.nbrs(a), b);
    lemma_filter_push(g0.nbrs(b), a, ne_to(a));
    lemma_filter_absent(g0.nbrs(b), a);
    assert(g2.nbrs(a) == g0.nbrs(a));
    assert(g2.nbrs(b) == g0.nbrs(b));
    assert forall|i: int| 0 <= i < ID_SPACE implies g2.adj()[i] == g0.adj()[i] by {
        let x = i as NodeId;
        if x != a && x != b {
            assert(g2.nbrs(x) == g1.nbrs(x));
            assert(g1.nbrs(x) == g0.nbrs(x));
        }
        assert(g2.adj()[i] == g2.nbrs(x));
        assert(g0.adj()[i] == g0.nbrs(x));
    }
    assert(g2.adj() =~= g0.adj());
}

/// The views of a snapshot agree with the graph it was taken from, stated
/// with triggers on the snapshot's side.
pub proof fn lemma_same_topology_views(g: GraphState, s: GraphState)
    requires
        g.same_topology(s),
        g.wf(),
    ensures
        forall|n: NodeId| #[trigger] s.kind_of(n) == g.kind_of(n),
        forall|n: NodeId| #[trigger] s.nbrs(n) == g.nbrs(n),
        forall|n: NodeId| #[trigger] s.pdr_of(n) == g.pdr_of(n),
{
    assert forall|n: NodeId| #[trigger] s.nbrs(n) == g.nbrs(n) by {
        assert(s.adj()[n as int] == g.adj()[n as int]);
    }
}

/// Whether a list of ids mentions the given id.
pub fn vec_contains(v: &Vec<NodeId>, x: NodeId) -> (r: bool)
    ensures
        r == v@.contains(x),
{
    let mut i: usize = 0;
    while i < v.len()
        invariant
            i <= v@.len(),
            forall|k: int| 0 <= k < i ==> v@[k] != x,
        decreases v@.len() - i,
    {
        if v[i] == x {
            return true;
        }
        i = i + 1;
    }
    false
}

/// A copy of the list with every occurrence of the id removed.
pub fn remove_all(v: &Vec<NodeId>, x: NodeId) -> (r: Vec<NodeId>)
    ensures
        r@ == v@.filter(ne_to(x)),
{
    let mut r: Vec<NodeId> = Vec::new();
    let mut i: usize = 0;
    while i < v.len()
        invariant
            i <= v@.len(),
            r@ == v@.subrange(0, i as int).filter(ne_to(x)),
        decreases v@.len() - i,
    {
        proof {
            assert(v@.subrange(0, i + 1) =~= v@.subrange(0, i as int).push(v@[i as int]));
            lemma_filter_push(v@.subrange(0, i as int), v@[i as int], ne_to(x));
        }
        if v[i] != x {
            r.push(v[i]);
        }
        i = i + 1;
    }
    proof {
        assert(v@.subrange(0, v@.len() as int) =~= v@);
    }
    r
}

/// Inserting an element adds exactly one occurrence of its value.
pub proof fn lemma_occurrences_insert(s: Seq<NodeId>, p: int, e: NodeId)
    requires
        0 <= p <= s.len(),
    ensures
        forall|x: NodeId| #[trigger] occurrences(s.insert(p, e), x) == occurrences(s, x) + (
        if e == x {
            1int
        } else {
            0int
        }),
{
    assert forall|x: NodeId| #[trigger] occurrences(s.insert(p, e), x) == occurrences(s, x) + (
    if e == x {
        1int
    } else {
        0int
    }) by {
        let pred = |y: NodeId| y == x;
        let a = s.subrange(0, p);
        let b = s.subrange(p, s.len() as int);
        assert(s.insert(p, e) =~= a + (seq![e] + b));
        assert(s =~= a + b);
        Seq::<NodeId>::filter_distributes_over_add(a, seq![e] + b, pred);
        Seq::<NodeId>::filter_distributes_over_add(seq![e], b, pred);
        Seq::<NodeId>::filter_distributes_over_add(a, b, pred);
        lemma_filter_push(Seq::<NodeId>::empty(), e, pred);
        assert(Seq::<NodeId>::empty().push(e) =~= seq![e]);
        reveal(Seq::filter);
        assert(Seq::<NodeId>::empty().filter(pred) =~= Seq::<NodeId>::empty());
    }
}

/// Sorts a list of ids ascending; the result holds exactly the same ids,
/// each as often as before.
pub fn sort_ids(v: &Vec<NodeId>) -> (r: Vec<NodeId>)
    ensures
        r@.len() == v@.len(),
        forall|i: int, j: int| 0 <= i < j < r@.len() ==> r@[i] <= r@[j],
        forall|x: NodeId| #[trigger] occurrences(r@, x) == occurrences(v@, x),
{
    let mut r: Vec<NodeId> = Vec::new();
    proof {
        assert forall|x: NodeId| #[trigger] occurrences(r@, x) == occurrences(
            v@.subrange(0, 0),
            x,
        ) by {
            reveal(Seq::filter);
            assert(r@.filter(|y: NodeId| y == x) =~= Seq::<NodeId>::empty());
            assert(v@.subrange(0, 0).filter(|y: NodeId| y == x) =~= Seq::<NodeId>::empty());
        }
    }
    let mut i: usize = 0;
    while i < v.len()
        invariant
            i <= v@.len(),
            r@.len() == i,
            forall|a: int, b: int| 0 <= a < b < r@.len() ==> r@[a] <= r@[b],
            forall|x: NodeId| #[trigger] occurrences(r@, x) == occurrences(
                v@.subrange(0, i as int),
                x,
            ),
        decreases v@.len() - i,
    {
        let e = v[i];
        let mut p: usize = 0;
        while p < r.len() && r[p] <= e
            invariant
                p <= r@.len(),
                forall|k: int| 0 <= k < p ==> r@[k] <= e,
            decreases r@.len() - p,
        {
            p = p + 1;
        }
        let ghost before = r@;
        r.insert(p, e);
        proof {
            assert(r@ == before.insert(p as int, e));
            lemma_occurrences_insert(before, p as int, e);
            lemma_occurrences_step(v@, i as int);
            assert forall|a: int, b: int|
                0 <= a < b < r@.len() implies r@[a] <= r@[b] by {
                assert(r@ =~= before.subrange(0, p as int) + seq![e] + before.subrange(
                    p as int,
                    before.len() as int,
                ));
                if a < p && b == p {
                    assert(r@[a] == before[a]);
                } else if a < p && b > p {
                    assert(r@[a] == before[a] && r@[b] == before[b - 1]);
                    assert(before[a] <= e);
                    if p < before.len() {
                        assert(e < before[p as int]);
                        assert(before[p as int] <= before[b - 1]);
                    }
                } else if a == p && b > p {
                    assert(r@[b] == before[b - 1]);
                    assert(e < before[p as int]);
                    assert(before[p as int] <= before[b - 1]);
                } else if a < p && b < p {
                    assert(r@[a] == before[a] && r@[b] == before[b]);
                } else if a > p && b > p {
                    assert(r@[a] == before[a - 1] && r@[b] == before[b - 1]);
                }
            }
            assert forall|x: NodeId| #[trigger] occurrences(r@, x) == occurrences(
                v@.subrange(0, i as int + 1),
                x,
            ) by {
                assert(occurrences(before, x) == occurrences(v@.subrange(0, i as int), x));
            }
        }
        i = i + 1;
    }
    proof {
        assert(v@.subrange(0, v@.len() as int) =~= v@);
    }
    r
}

/// Copies a list of node ids.
pub fn copy_ids(v: &Vec<NodeId>) -> (r: Vec<NodeId>)
    ensures
        r@ == v@,
{
    let mut r: Vec<NodeId> = Vec::new();
    let mut i: usize = 0;
    while i < v.len()
        invariant
            i <= v@.len(),
            r@ == v@.subrange(0, i as int),
        decreases v@.len() - i,
    {
        r.push(v[i]);
        i = i + 1;
    }
    proof {
        assert(r@ =~= v@);
    }
    r
}

} // verus!
