//! The error taxonomy shared by every fallible operation of the simulator.

use vstd::prelude::*;

verus! {

use crate::NodeId;

/// Every failure the simulator can report.
///
/// Validation failures are always reported without mutating state; channel
/// failures are fatal to the command that triggered them but not to the
/// simulation itself.
#[derive(Debug, Clone, PartialEq, Eq)]
pub enum NetworkError {
    /// The configuration file could not be read.
    ConfigFileReadError(String),
    /// The configuration file could not be parsed.
    ConfigParseError(String),
    /// The simulation is already running.
    NetworkAlreadyRunning,
    /// The simulation is not running.
    NetworkNotRunning,
    /// No configuration has been loaded yet.
    NoConfigLoaded,
    /// The selected node does not exist.
    NodeNotFound(NodeId),
    /// The selected edge does not exist.
    EdgeNotFound(NodeId, NodeId),
    /// The selected edge already exists.
    EdgeAlreadyExists(NodeId, NodeId),
    /// The selected node is not a drone.
    NodeIsNotDrone(NodeId),
    /// The packet drop rate is outside `0..=100`.
    InvalidPdr(u8),
    /// A packet could not be pushed onto an inbound queue.
    SendError(NodeId),
    /// No communication channel exists for the node.
    ChannelNotFound(NodeId),
    /// The proposed graph breaks a structural invariant.
    ValidationError(ValidationIssue),
    /// A command could not be delivered to a node.
    CommandSendError(NodeId),
    /// The requested node type is not recognised.
    InvalidNodeType,
    /// The operation is not permitted in the current state.
    InvalidOperation,
    /// A node thread did not terminate in time.
    ThreadJoinError(NodeId),
    /// A filesystem path could not be resolved.
    PathError(String),
    /// Any other failure.
    Other(String),
}

/// The structural invariant that a rejected graph breaks.
#[derive(Debug, Clone, Copy, PartialEq, Eq, Structural)]
pub enum ValidationIssue {
    /// The graph has no nodes at all.
    EmptyGraph,
    /// Some node cannot be reached from the rest of the graph.
    NotConnected,
    /// An edge is recorded in one direction only.
    NotBidirectional,
    /// A neighbor list mentions the same node twice.
    DuplicateNeighbor,
    /// A node lists itself as a neighbor.
    SelfLoop,
    /// A neighbor list mentions a node that does not exist.
    UnknownNeighbor,
    /// A client does not have between one and two neighbors.
    ClientDegree,
    /// A server has fewer than two neighbors.
    ServerDegree,
    /// A client or server is directly adjacent to another client or server.
    HostsAdjacent,
    /// Two configuration entries reuse the same node id.
    DuplicateNodeId,
    /// The graph has no drone to anchor the drone sub-graph.
    NoDrones,
    /// The sub-graph induced by the drones alone is not connected.
    DroneNetSplit,
}

impl NetworkError {
    /// A short human-readable description of the error kind.
    pub fn kind_name(&self) -> &'static str {
        match self {
            NetworkError::ConfigFileReadError(_) => "config file read error",
            NetworkError::ConfigParseError(_) => "config parse error",
            NetworkError::NetworkAlreadyRunning => "network already running",
            NetworkError::NetworkNotRunning => "network not running",
            NetworkError::NoConfigLoaded => "no configuration loaded",
            NetworkError::NodeNotFound(_) => "node not found",
            NetworkError::EdgeNotFound(_, _) => "edge not found",
            NetworkError::EdgeAlreadyExists(_, _) => "edge already exists",
            NetworkError::NodeIsNotDrone(_) => "node is not a drone",
            NetworkError::InvalidPdr(_) => "invalid packet drop rate",
            NetworkError::SendError(_) => "packet send error",
            NetworkError::ChannelNotFound(_) => "channel not found",
            NetworkError::ValidationError(_) => "validation error",
            NetworkError::CommandSendError(_) => "command send error",
            NetworkError::InvalidNodeType => "invalid node type",
            NetworkError::InvalidOperation => "invalid operation",
            NetworkError::ThreadJoinError(_) => "thread join error",
            NetworkError::PathError(_) => "path error",
            NetworkError::Other(_) => "other error",
        }
    }
}

} // verus!
