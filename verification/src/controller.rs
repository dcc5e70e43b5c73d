//! The controller command surface: live topology mutation (crash a drone,
//! add and remove edges, add a drone, change a drop rate), the channel
//! commands behind it, and operator packet injection.
//!
//! Every topology-mutating command validates a proposed copy of the graph
//! and commits it only on success, so the state invariant holds after every
//! command and a failed command leaves the graph unchanged.

use vstd::prelude::*;

verus! {

use crate::channels::{channel_send, clone_sender, random_u64};
use crate::errors::NetworkError;
use crate::node::{DroneCommand, HostCommand};
use crate::packet::{
    Ack, Fragment, FloodRequest, FloodResponse, Nack, NackType, Packet, PacketType,
    SourceRoutingHeader,
};
use crate::state::SimulationState;
use crate::topology::{ne_to, opt_str_view, GraphState, NodeMetadata, NodeType};
use crate::validation::{lemma_valid_same_views, same_graph_views, validate_graph};
use crate::{NodeId, ID_SPACE};

/// Whether a command to `source` can be routed: the node exists and the
/// command queue of its kind is present.
pub open spec fn cmd_route_ok(state: SimulationState, source: NodeId) -> bool {
    ||| (state.graph.is_drone(source) && state.has_drone_channel(source))
    ||| (state.graph.is_client(source) && state.has_client_channel(source))
    ||| (state.graph.is_server(source) && state.has_server_channel(source))
}

/// Sends `RemoveSender(target)` to `source` on the command queue of its
/// kind.  The state itself is untouched.
pub fn send_remove_sender_command(
    state: &SimulationState,
    source: NodeId,
    target: NodeId,
) -> (r: Result<(), NetworkError>)
    requires
        state.wf(),
    ensures
        !state.graph.has_node(source) <==> r == Err::<(), NetworkError>(
            NetworkError::NodeNotFound(source),
        ),
        cmd_route_ok(*state, source) ==> (r is Ok || r == Err::<(), NetworkError>(
            NetworkError::CommandSendError(source),
        )),
        state.graph.has_node(source) && !cmd_route_ok(*state, source) ==> r == Err::<
            (),
            NetworkError,
        >(NetworkError::ChannelNotFound(source)),
{
    match &state.graph.node_info[source as usize] {
        Some(NodeMetadata::Drone(_)) => {
            match &state.drones_controller_channels[source as usize] {
                Some((cmd_tx, _)) => {
                    if channel_send(cmd_tx, DroneCommand::RemoveSender(target)) {
                        Ok(())
                    } else {
                        Err(NetworkError::CommandSendError(source))
                    }
                }
                None => Err(NetworkError::ChannelNotFound(source)),
            }
        }
        Some(NodeMetadata::Client) => {
            match &state.client_controller_channels[source as usize] {
                Some((cmd_tx, _)) => {
                    if channel_send(cmd_tx, HostCommand::RemoveSender(target)) {
                        Ok(())
                    } else {
                        Err(NetworkError::CommandSendError(source))
                    }
                }
                None => Err(NetworkError::ChannelNotFound(source)),
            }
        }
        Some(NodeMetadata::Server) => {
            match &state.server_controller_channels[source as usize] {
                Some((cmd_tx, _)) => {
                    if channel_send(cmd_tx, HostCommand::RemoveSender(target)) {
                        Ok(())
                    } else {
                        Err(NetworkError::CommandSendError(source))
                    }
                }
                None => Err(NetworkError::ChannelNotFound(source)),
            }
        }
        None => Err(NetworkError::NodeNotFound(source)),
    }
}

/// Sends `AddSender(target, endpoint)` to `source`, where the endpoint is a
/// clone of the sender into `target`'s inbound queue.
pub fn send_add_sender_command(
    state: &SimulationState,
    source: NodeId,
    target: NodeId,
) -> (r: Result<(), NetworkError>)
    requires
        state.wf(),
    ensures
        !state.has_inter_channel(target) ==> r == Err::<(), NetworkError>(
            NetworkError::ChannelNotFound(target),
        ),
        state.has_inter_channel(target) && !state.graph.has_node(source) ==> r == Err::<
            (),
            NetworkError,
        >(NetworkError::NodeNotFound(source)),
        state.has_inter_channel(target) && cmd_route_ok(*state, source) ==> (r is Ok || r
            == Err::<(), NetworkError>(NetworkError::CommandSendError(source))),
        state.has_inter_channel(target) && state.graph.has_node(source) && !cmd_route_ok(
            *state,
            source,
        ) ==> r == Err::<(), NetworkError>(NetworkError::ChannelNotFound(source)),
{
    let endpoint = match &state.inter_node_channels[target as usize] {
        Some((tx, _)) => clone_sender(tx),
        None => {
            return Err(NetworkError::ChannelNotFound(target));
        }
    };
    match &state.graph.node_info[source as usize] {
        Some(NodeMetadata::Drone(_)) => {
            match &state.drones_controller_channels[source as usize] {
                Some((cmd_tx, _)) => {
                    if channel_send(cmd_tx, DroneCommand::AddSender(target, endpoint)) {
                        Ok(())
                    } else {
                        Err(NetworkError::CommandSendError(source))
                    }
                }
                None => Err(NetworkError::ChannelNotFound(source)),
            }
        }
        Some(NodeMetadata::Client) => {
            match &state.client_controller_channels[source as usize] {
                Some((cmd_tx, _)) => {
                    if channel_send(cmd_tx, HostCommand::AddSender(target, endpoint)) {
                        Ok(())
                    } else {
                        Err(NetworkError::CommandSendError(source))
                    }
                }
                None => Err(NetworkError::ChannelNotFound(source)),
            }
        }
        Some(NodeMetadata::Server) => {
            match &state.server_controller_channels[source as usize] {
                Some((cmd_tx, _)) => {
                    if channel_send(cmd_tx, HostCommand::AddSender(target, endpoint)) {
                        Ok(())
                    } else {
                        Err(NetworkError::CommandSendError(source))
                    }
                }
                None => Err(NetworkError::ChannelNotFound(source)),
            }
        }
        None => Err(NetworkError::NodeNotFound(source)),
    }
}

/// Sends `Crash` to a drone's command queue.
pub fn send_crash_command(state: &SimulationState, drone_id: NodeId) -> (r: Result<
    (),
    NetworkError,
>)
    requires
        state.wf(),
    ensures
        !state.has_drone_channel(drone_id) <==> r == Err::<(), NetworkError>(
            NetworkError::ChannelNotFound(drone_id),
        ),
        state.has_drone_channel(drone_id) ==> (r is Ok || r == Err::<(), NetworkError>(
            NetworkError::CommandSendError(drone_id),
        )),
{
    match &state.drones_controller_channels[drone_id as usize] {
        Some((cmd_tx, _)) => {
            if channel_send(cmd_tx, DroneCommand::Crash) {
                Ok(())
            } else {
                Err(NetworkError::CommandSendError(drone_id))
            }
        }
        None => Err(NetworkError::ChannelNotFound(drone_id)),
    }
}

/// Sends `SetPacketDropRate` (in whole percent) to a drone's command queue.
pub fn send_set_pdr_command(state: &SimulationState, drone_id: NodeId, pdr: u8) -> (r: Result<
    (),
    NetworkError,
>)
    requires
        state.wf(),
        pdr <= 100,
    ensures
        !state.has_drone_channel(drone_id) <==> r == Err::<(), NetworkError>(
            NetworkError::ChannelNotFound(drone_id),
        ),
        state.has_drone_channel(drone_id) ==> (r is Ok || r == Err::<(), NetworkError>(
            NetworkError::CommandSendError(drone_id),
        )),
{
    match &state.drones_controller_channels[drone_id as usize] {
        Some((cmd_tx, _)) => {
            if channel_send(cmd_tx, DroneCommand::SetPacketDropRate(pdr)) {
                Ok(())
            } else {
                Err(NetworkError::CommandSendError(drone_id))
            }
        }
        None => Err(NetworkError::ChannelNotFound(drone_id)),
    }
}

/// How the views of a graph change when a drone is crashed.
pub open spec fn crash_view_rel(g: GraphState, g2: GraphState, drone_id: NodeId) -> bool {
    &&& g2.kind_of(drone_id) is None
    &&& forall|n: NodeId| n != drone_id ==> #[trigger] g2.kind_of(n) == g.kind_of(n)
    &&& g2.nbrs(drone_id) == Seq::<NodeId>::empty()
    &&& forall|x: NodeId|
        x != drone_id ==> #[trigger] g2.nbrs(x) == g.nbrs(x).filter(ne_to(drone_id))
}

/// Whether crashing the drone leaves a valid graph.
pub open spec fn valid_after_crash(g: GraphState, drone_id: NodeId, strict: bool) -> bool {
    forall|g2: GraphState|
        g2.wf() && #[trigger] crash_view_rel(g, g2, drone_id) ==> g2.valid(strict)
}

/// Crashes a drone: validates the graph without it, revokes the paired
/// senders on every incident edge, sends `Crash`, and only then commits the
/// new graph and drops the drone's fabric entries.
pub fn crash_drone(state: &mut SimulationState, drone_id: NodeId) -> (r: Result<
    (),
    NetworkError,
>)
    requires
        old(state).inv(),
    ensures
        final(state).inv(),
        r is Err ==> *final(state) == *old(state),
        !old(state).graph.is_drone(drone_id) ==> r == Err::<(), NetworkError>(
            NetworkError::NodeIsNotDrone(drone_id),
        ),
        r matches Err(NetworkError::ValidationError(_)) ==> !valid_after_crash(
            old(state).graph,
            drone_id,
            old(state).strict_mode,
        ),
        old(state).graph.is_drone(drone_id) && !valid_after_crash(
            old(state).graph,
            drone_id,
            old(state).strict_mode,
        ) ==> r matches Err(NetworkError::ValidationError(_)),
        old(state).graph.is_drone(drone_id) && valid_after_crash(
            old(state).graph,
            drone_id,
            old(state).strict_mode,
        ) ==> (r is Ok || r matches Err(NetworkError::CommandSendError(_))),
        r is Ok ==> {
            &&& crash_view_rel(old(state).graph, final(state).graph, drone_id)
            &&& final(state).graph.valid(old(state).strict_mode)
            &&& !final(state).has_inter_channel(drone_id)
            &&& !final(state).has_drone_channel(drone_id)
            &&& forall|n: NodeId|
                n != drone_id ==> #[trigger] final(state).has_inter_channel(n) == old(
                    state,
                ).has_inter_channel(n)
            &&& final(state).status == old(state).status
            &&& final(state).strict_mode == old(state).strict_mode
            &&& final(state).initial_config == old(state).initial_config
        },
{
    let mut proposed = state.graph.snapshot();
    proof {
        crate::topology::lemma_same_topology_views(state.graph, proposed);
    }
    let ghost snap0 = proposed;
    match proposed.crash_drone(drone_id) {
        Ok(()) => {}
        Err(_) => {
            proof {
                assert(snap0.kind_of(drone_id) == state.graph.kind_of(drone_id));
            }
            return Err(NetworkError::NodeIsNotDrone(drone_id));
        }
    }
    proof {
        assert(snap0.kind_of(drone_id) == state.graph.kind_of(drone_id));
        assert(state.graph.is_drone(drone_id));
        assert(crash_view_rel(state.graph, proposed, drone_id)) by {
            assert(proposed.kind_of(drone_id) is None);
            assert(proposed.nbrs(drone_id) == Seq::<NodeId>::empty());
            assert forall|n: NodeId|
                n != drone_id implies #[trigger] proposed.kind_of(n) == state.graph.kind_of(
                n,
            ) by {
                assert(proposed.info()[n as int] == snap0.info()[n as int]);
                assert(snap0.kind_of(n) == state.graph.kind_of(n));
            }
            assert forall|x: NodeId|
                x != drone_id implies #[trigger] proposed.nbrs(x) == state.graph.nbrs(x).filter(
                ne_to(drone_id),
            ) by {
                assert(proposed.nbrs(x) == snap0.nbrs(x).filter(ne_to(drone_id)));
                assert(snap0.nbrs(x) == state.graph.nbrs(x));
            }
        }
    }
    match validate_graph(&proposed, state.strict_mode) {
        Ok(()) => {
            proof {
                assert forall|g2: GraphState|
                    g2.wf() && #[trigger] crash_view_rel(state.graph, g2, drone_id)
                        implies g2.valid(state.strict_mode) by {
                    assert(same_graph_views(proposed, g2)) by {
                        assert forall|n: NodeId|
                            #[trigger] proposed.kind_of(n) == g2.kind_of(n) by {
                            if n != drone_id {
                                assert(proposed.kind_of(n) == state.graph.kind_of(n));
                                assert(g2.kind_of(n) == state.graph.kind_of(n));
                            }
                        }
                        assert forall|n: NodeId| #[trigger] proposed.nbrs(n) == g2.nbrs(n) by {
                            if n != drone_id {
                                assert(proposed.nbrs(n) == state.graph.nbrs(n).filter(
                                    ne_to(drone_id),
                                ));
                                assert(g2.nbrs(n) == state.graph.nbrs(n).filter(
                                    ne_to(drone_id),
                                ));
                            }
                        }
                    }
                    lemma_valid_same_views(proposed, g2, state.strict_mode);
                }
                assert(valid_after_crash(state.graph, drone_id, state.strict_mode));
            }
        }
        Err(e) => {
            proof {
                assert(!valid_after_crash(state.graph, drone_id, state.strict_mode)) by {
                    assert(crash_view_rel(state.graph, proposed, drone_id));
                    assert(!proposed.valid(state.strict_mode));
                }
            }
            return Err(e);
        }
    }
    let neighbors = state.graph.get_neighbors(drone_id);
    let mut t: usize = 0;
    while t < neighbors.len()
        invariant
            state.inv(),
            state == old(state),
            old(state).graph.is_drone(drone_id),
            valid_after_crash(old(state).graph, drone_id, old(state).strict_mode),
            t <= neighbors@.len(),
        decreases neighbors@.len() - t,
    {
        let neighbor = neighbors[t];
        match send_remove_sender_command(state, drone_id, neighbor) {
            Ok(()) => {}
            Err(_) => {
                return Err(NetworkError::CommandSendError(drone_id));
            }
        }
        match send_remove_sender_command(state, neighbor, drone_id) {
            Ok(()) => {}
            Err(_) => {
                return Err(NetworkError::CommandSendError(neighbor));
            }
        }
        t = t + 1;
    }
    match send_crash_command(state, drone_id) {
        Ok(()) => {}
        Err(_) => {
            return Err(NetworkError::CommandSendError(drone_id));
        }
    }
    let ghost pre = *state;
    let slot = &mut state.inter_node_channels[drone_id as usize];
    *slot = None;
    let cslot = &mut state.drones_controller_channels[drone_id as usize];
    *cslot = None;
    let eslot = &mut state.drone_node_endpoints[drone_id as usize];
    *eslot = None;
    state.graph = proposed;
    proof {
        assert forall|n: NodeId|
            n != drone_id implies #[trigger] state.has_inter_channel(n) == pre.has_inter_channel(
            n,
        ) by {
            assert(state.inter_node_channels@[n as int] == pre.inter_node_channels@[n as int]);
        }
        assert(state.inv()) by {
            assert forall|n: NodeId|
                #[trigger] state.has_inter_channel(n) == state.graph.has_node(n) by {
                if n != drone_id {
                    assert(state.has_inter_channel(n) == pre.has_inter_channel(n));
                    assert(state.graph.kind_of(n) == pre.graph.kind_of(n));
                    assert(pre.has_inter_channel(n) == pre.graph.has_node(n));
                } else {
                    assert(!state.has_inter_channel(n));
                    assert(state.graph.kind_of(n) is None);
                }
            }
            assert forall|n: NodeId|
                #[trigger] state.has_drone_channel(n) == state.graph.is_drone(n) by {
                if n != drone_id {
                    assert(state.drones_controller_channels@[n as int]
                        == pre.drones_controller_channels@[n as int]);
                    assert(state.graph.kind_of(n) == pre.graph.kind_of(n));
                    assert(pre.has_drone_channel(n) == pre.graph.is_drone(n));
                } else {
                    assert(!state.has_drone_channel(n));
                    assert(state.graph.kind_of(n) is None);
                }
            }
            assert forall|n: NodeId|
                #[trigger] state.has_client_channel(n) == state.graph.is_client(n) by {
                assert(state.client_controller_channels@[n as int]
                    == pre.client_controller_channels@[n as int]);
                assert(pre.has_client_channel(n) == pre.graph.is_client(n));
                if n != drone_id {
                    assert(state.graph.kind_of(n) == pre.graph.kind_of(n));
                } else {
                    assert(state.graph.kind_of(n) is None);
                    assert(!pre.graph.is_client(n));
                }
            }
            assert forall|n: NodeId|
                #[trigger] state.has_server_channel(n) == state.graph.is_server(n) by {
                assert(state.server_controller_channels@[n as int]
                    == pre.server_controller_channels@[n as int]);
                assert(pre.has_server_channel(n) == pre.graph.is_server(n));
                if n != drone_id {
                    assert(state.graph.kind_of(n) == pre.graph.kind_of(n));
                } else {
                    assert(state.graph.kind_of(n) is None);
                    assert(!pre.graph.is_server(n));
                }
            }
        }
    }
    Ok(())
}

/// Changes a drone's drop rate, in whole percent; rejects any value above
/// one hundred.
pub fn set_pdr(state: &mut SimulationState, drone_id: NodeId, pdr: u8) -> (r: Result<
    (),
    NetworkError,
>)
    requires
        old(state).inv(),
    ensures
        final(state).inv(),
        r is Err ==> *final(state) == *old(state),
        pdr > 100 <==> r == Err::<(), NetworkError>(NetworkError::InvalidPdr(pdr)),
        pdr <= 100 && old(state).graph.is_drone(drone_id) && old(state).has_drone_channel(drone_id)
            ==> (r is Ok || r matches Err(NetworkError::CommandSendError(_))),
        pdr <= 100 && !old(state).has_drone_channel(drone_id) ==> r == Err::<(), NetworkError>(
            NetworkError::ChannelNotFound(drone_id),
        ),
        pdr <= 100 && !old(state).graph.is_drone(drone_id) ==> r is Err,
        r is Ok ==> {
            &&& pdr <= 100
            &&& old(state).graph.is_drone(drone_id)
            &&& final(state).graph.pdr_of(drone_id) == pdr
            &&& final(state).graph.adj() == old(state).graph.adj()
            &&& forall|n: NodeId|
                #[trigger] final(state).graph.kind_of(n) == old(state).graph.kind_of(n)
            &&& forall|n: NodeId|
                n != drone_id ==> #[trigger] final(state).graph.pdr_of(n) == old(
                    state,
                ).graph.pdr_of(n)
            &&& final(state).inter_node_channels == old(state).inter_node_channels
            &&& final(state).status == old(state).status
        },
{
    if pdr > 100 {
        return Err(NetworkError::InvalidPdr(pdr));
    }
    match send_set_pdr_command(state, drone_id, pdr) {
        Ok(()) => {}
        Err(e) => {
            return Err(e);
        }
    }
    let ghost pre = *state;
    match state.graph.set_pdr(drone_id, pdr) {
        Ok(()) => {}
        Err(e) => {
            return Err(e);
        }
    }
    proof {
        assert(state.inv()) by {
            assert(same_graph_views(pre.graph, state.graph)) by {
                assert forall|n: NodeId| #[trigger] pre.graph.nbrs(n) == state.graph.nbrs(n) by {
                    assert(state.graph.adj() == pre.graph.adj());
                }
            }
            if pre.status is Running {
                lemma_valid_same_views(pre.graph, state.graph, false);
                assert forall|n: NodeId|
                    #[trigger] state.has_inter_channel(n) == state.graph.has_node(n) by {
                    assert(state.graph.kind_of(n) == pre.graph.kind_of(n));
                    assert(pre.has_inter_channel(n) == pre.graph.has_node(n));
                    assert(state.has_inter_channel(n) == pre.has_inter_channel(n));
                }
                assert forall|n: NodeId|
                    #[trigger] state.has_drone_channel(n) == state.graph.is_drone(n) by {
                    assert(state.graph.kind_of(n) == pre.graph.kind_of(n));
                    assert(pre.has_drone_channel(n) == pre.graph.is_drone(n));
                    assert(state.has_drone_channel(n) == pre.has_drone_channel(n));
                }
                assert forall|n: NodeId|
                    #[trigger] state.has_client_channel(n) == state.graph.is_client(n) by {
                    assert(state.graph.kind_of(n) == pre.graph.kind_of(n));
                    assert(pre.has_client_channel(n) == pre.graph.is_client(n));
                    assert(state.has_client_channel(n) == pre.has_client_channel(n));
                }
                assert forall|n: NodeId|
                    #[trigger] state.has_server_channel(n) == state.graph.is_server(n) by {
                    assert(state.graph.kind_of(n) == pre.graph.kind_of(n));
                    assert(pre.has_server_channel(n) == pre.graph.is_server(n));
                    assert(state.has_server_channel(n) == pre.has_server_channel(n));
                }
            } else {
                assert(pre.has_drone_channel(drone_id));
                assert(false);
            }
        }
    }
    Ok(())
}

/// How the views of a graph change when an undirected edge is added.
pub open spec fn add_edge_view_rel(
    g: GraphState,
    g2: GraphState,
    a: NodeId,
    b: NodeId,
) -> bool {
    &&& forall|n: NodeId| #[trigger] g2.kind_of(n) == g.kind_of(n)
    &&& g2.nbrs(a) == g.nbrs(a).push(b)
    &&& g2.nbrs(b) == g.nbrs(b).push(a)
    &&& forall|x: NodeId| x != a && x != b ==> #[trigger] g2.nbrs(x) == g.nbrs(x)
}

/// Whether adding the edge leaves a valid graph.
pub open spec fn valid_after_add_edge(g: GraphState, a: NodeId, b: NodeId, strict: bool) -> bool {
    forall|g2: GraphState|
        g2.wf() && #[trigger] add_edge_view_rel(g, g2, a, b) ==> g2.valid(strict)
}

/// Adds an undirected edge between two existing nodes: validates the
/// proposed graph, issues the paired `AddSender` commands, and commits.
pub fn add_edge(state: &mut SimulationState, node1_id: NodeId, node2_id: NodeId) -> (r: Result<
    (),
    NetworkError,
>)
    requires
        old(state).inv(),
    ensures
        final(state).inv(),
        r is Err ==> *final(state) == *old(state),
        node1_id == node2_id ==> r == Err::<(), NetworkError>(NetworkError::InvalidOperation),
        node1_id != node2_id && !(old(state).graph.has_node(node1_id) && old(
            state,
        ).graph.has_node(node2_id)) ==> r matches Err(NetworkError::NodeNotFound(_)),
        node1_id != node2_id && old(state).graph.has_node(node1_id) && old(state).graph.has_node(
            node2_id,
        ) && (old(state).graph.nbrs(node1_id).contains(node2_id) || old(state).graph.nbrs(
            node2_id,
        ).contains(node1_id)) ==> r matches Err(NetworkError::EdgeAlreadyExists(..)),
        r matches Err(NetworkError::ValidationError(_)) ==> !valid_after_add_edge(
            old(state).graph,
            node1_id,
            node2_id,
            old(state).strict_mode,
        ),
        node1_id != node2_id && old(state).graph.has_node(node1_id) && old(state).graph.has_node(
            node2_id,
        ) && !old(state).graph.nbrs(node1_id).contains(node2_id) && !old(state).graph.nbrs(
            node2_id,
        ).contains(node1_id) && !valid_after_add_edge(
            old(state).graph,
            node1_id,
            node2_id,
            old(state).strict_mode,
        ) ==> r matches Err(NetworkError::ValidationError(_)),
        r is Ok ==> {
            &&& add_edge_view_rel(old(state).graph, final(state).graph, node1_id, node2_id)
            &&& !old(state).graph.nbrs(node1_id).contains(node2_id)
            &&& final(state).graph.valid(old(state).strict_mode)
            &&& forall|n: NodeId|
                #[trigger] final(state).graph.pdr_of(n) == old(state).graph.pdr_of(n)
            &&& final(state).inter_node_channels == old(state).inter_node_channels
            &&& final(state).drones_controller_channels == old(state).drones_controller_channels
            &&& final(state).status == old(state).status
            &&& final(state).strict_mode == old(state).strict_mode
        },
{
    if node1_id == node2_id {
        return Err(NetworkError::InvalidOperation);
    }
    let mut proposed = state.graph.snapshot();
    proof {
        crate::topology::lemma_same_topology_views(state.graph, proposed);
    }
    let ghost snap0 = proposed;
    match proposed.add_edge(node1_id, node2_id) {
        Ok(()) => {}
        Err(e) => {
            proof {
                assert(snap0.kind_of(node1_id) == state.graph.kind_of(node1_id));
                assert(snap0.kind_of(node2_id) == state.graph.kind_of(node2_id));
                assert(snap0.nbrs(node1_id) == state.graph.nbrs(node1_id));
                assert(snap0.nbrs(node2_id) == state.graph.nbrs(node2_id));
            }
            return Err(e);
        }
    }
    proof {
        assert(add_edge_view_rel(state.graph, proposed, node1_id, node2_id)) by {
            assert forall|n: NodeId|
                #[trigger] proposed.kind_of(n) == state.graph.kind_of(n) by {
                assert(proposed.info()[n as int] == snap0.info()[n as int]);
                assert(snap0.kind_of(n) == state.graph.kind_of(n));
            }
            assert(snap0.nbrs(node1_id) == state.graph.nbrs(node1_id));
            assert(snap0.nbrs(node2_id) == state.graph.nbrs(node2_id));
            assert forall|x: NodeId|
                x != node1_id && x != node2_id implies #[trigger] proposed.nbrs(x)
                    == state.graph.nbrs(x) by {
                assert(proposed.nbrs(x) == snap0.nbrs(x));
                assert(snap0.nbrs(x) == state.graph.nbrs(x));
            }
        }
            assert forall|n: NodeId|
                #[trigger] proposed.pdr_of(n) == state.graph.pdr_of(n) by {
                assert(proposed.info()[n as int] == snap0.info()[n as int]);
                assert(snap0.pdr_of(n) == state.graph.pdr_of(n));
            }
        assert(snap0.kind_of(node1_id) == state.graph.kind_of(node1_id));
        assert(snap0.kind_of(node2_id) == state.graph.kind_of(node2_id));
        assert(state.graph.has_node(node1_id));
        assert(state.graph.has_node(node2_id));
        assert(snap0.nbrs(node1_id) == state.graph.nbrs(node1_id));
        assert(snap0.nbrs(node2_id) == state.graph.nbrs(node2_id));
        assert(!state.graph.nbrs(node1_id).contains(node2_id));
        assert(!state.graph.nbrs(node2_id).contains(node1_id));
    }
    match validate_graph(&proposed, state.strict_mode) {
        Ok(()) => {
            proof {
                assert forall|g2: GraphState|
                    g2.wf() && #[trigger] add_edge_view_rel(state.graph, g2, node1_id, node2_id)
                        implies g2.valid(state.strict_mode) by {
                    assert(same_graph_views(proposed, g2)) by {
                        assert forall|n: NodeId|
                            #[trigger] proposed.kind_of(n) == g2.kind_of(n) by {
                            assert(proposed.kind_of(n) == state.graph.kind_of(n));
                            assert(g2.kind_of(n) == state.graph.kind_of(n));
                        }
                        assert forall|n: NodeId| #[trigger] proposed.nbrs(n) == g2.nbrs(n) by {
                            if n != node1_id && n != node2_id {
                                assert(proposed.nbrs(n) == state.graph.nbrs(n));
                                assert(g2.nbrs(n) == state.graph.nbrs(n));
                            }
                        }
                    }
                    lemma_valid_same_views(proposed, g2, state.strict_mode);
                }
                assert(valid_after_add_edge(state.graph, node1_id, node2_id, state.strict_mode));
            }
        }
        Err(e) => {
            proof {
                assert(!valid_after_add_edge(
                    state.graph,
                    node1_id,
                    node2_id,
                    state.strict_mode,
                )) by {
                    assert(add_edge_view_rel(state.graph, proposed, node1_id, node2_id));
                    assert(!proposed.valid(state.strict_mode));
                }
            }
            return Err(e);
        }
    }
    match send_add_sender_command(state, node1_id, node2_id) {
        Ok(()) => {}
        Err(_) => {
            return Err(NetworkError::CommandSendError(node1_id));
        }
    }
    match send_add_sender_command(state, node2_id, node1_id) {
        Ok(()) => {}
        Err(_) => {
            return Err(NetworkError::CommandSendError(node2_id));
        }
    }
    let ghost pre = *state;
    state.graph = proposed;
    proof {
        assert(pre.graph.has_node(node1_id));
        assert(pre.status is Running);
        lemma_commit_same_kinds(pre, *state);
    }
    Ok(())
}

/// How the views of a graph change when an undirected edge is removed.
pub open spec fn remove_edge_view_rel(
    g: GraphState,
    g2: GraphState,
    a: NodeId,
    b: NodeId,
) -> bool {
    &&& forall|n: NodeId| #[trigger] g2.kind_of(n) == g.kind_of(n)
    &&& g2.nbrs(a) == g.nbrs(a).filter(ne_to(b))
    &&& g2.nbrs(b) == g.nbrs(b).filter(ne_to(a))
    &&& forall|x: NodeId| x != a && x != b ==> #[trigger] g2.nbrs(x) == g.nbrs(x)
}

/// Whether removing the edge leaves a valid graph.
pub open spec fn valid_after_remove_edge(
    g: GraphState,
    a: NodeId,
    b: NodeId,
    strict: bool,
) -> bool {
    forall|g2: GraphState|
        g2.wf() && #[trigger] remove_edge_view_rel(g, g2, a, b) ==> g2.valid(strict)
}

/// Removes an undirected edge: validates the proposed graph, issues the
/// paired `RemoveSender` commands, and commits.
pub fn remove_edge(state: &mut SimulationState, node1_id: NodeId, node2_id: NodeId) -> (r: Result<
    (),
    NetworkError,
>)
    requires
        old(state).inv(),
    ensures
        final(state).inv(),
        r is Err ==> *final(state) == *old(state),
        node1_id == node2_id ==> r == Err::<(), NetworkError>(NetworkError::InvalidOperation),
        node1_id != node2_id && !(old(state).graph.has_node(node1_id) && old(
            state,
        ).graph.has_node(node2_id)) ==> r matches Err(NetworkError::NodeNotFound(_)),
        node1_id != node2_id && old(state).graph.has_node(node1_id) && old(state).graph.has_node(
            node2_id,
        ) && !(old(state).graph.nbrs(node1_id).contains(node2_id) && old(state).graph.nbrs(
            node2_id,
        ).contains(node1_id)) ==> r matches Err(NetworkError::EdgeNotFound(..)),
        r matches Err(NetworkError::ValidationError(_)) ==> !valid_after_remove_edge(
            old(state).graph,
            node1_id,
            node2_id,
            old(state).strict_mode,
        ),
        node1_id != node2_id && old(state).graph.has_node(node1_id) && old(state).graph.has_node(
            node2_id,
        ) && old(state).graph.nbrs(node1_id).contains(node2_id) && old(state).graph.nbrs(
            node2_id,
        ).contains(node1_id) && !valid_after_remove_edge(
            old(state).graph,
            node1_id,
            node2_id,
            old(state).strict_mode,
        ) ==> r matches Err(NetworkError::ValidationError(_)),
        r is Ok ==> {
            &&& remove_edge_view_rel(old(state).graph, final(state).graph, node1_id, node2_id)
            &&& old(state).graph.nbrs(node1_id).contains(node2_id)
            &&& final(state).graph.valid(old(state).strict_mode)
            &&& forall|n: NodeId|
                #[trigger] final(state).graph.pdr_of(n) == old(state).graph.pdr_of(n)
            &&& final(state).inter_node_channels == old(state).inter_node_channels
            &&& final(state).status == old(state).status
        },
{
    if node1_id == node2_id {
        return Err(NetworkError::InvalidOperation);
    }
    let mut proposed = state.graph.snapshot();
    proof {
        crate::topology::lemma_same_topology_views(state.graph, proposed);
    }
    let ghost snap0 = proposed;
    match proposed.remove_edge(node1_id, node2_id) {
        Ok(()) => {}
        Err(e) => {
            proof {
                assert(snap0.kind_of(node1_id) == state.graph.kind_of(node1_id));
                assert(snap0.kind_of(node2_id) == state.graph.kind_of(node2_id));
                assert(snap0.nbrs(node1_id) == state.graph.nbrs(node1_id));
                assert(snap0.nbrs(node2_id) == state.graph.nbrs(node2_id));
            }
            return Err(e);
        }
    }
    proof {
        assert(remove_edge_view_rel(state.graph, proposed, node1_id, node2_id)) by {
            assert forall|n: NodeId|
                #[trigger] proposed.kind_of(n) == state.graph.kind_of(n) by {
                assert(proposed.info()[n as int] == snap0.info()[n as int]);
                assert(snap0.kind_of(n) == state.graph.kind_of(n));
            }
            assert(snap0.nbrs(node1_id) == state.graph.nbrs(node1_id));
            assert(snap0.nbrs(node2_id) == state.graph.nbrs(node2_id));
            assert forall|x: NodeId|
                x != node1_id && x != node2_id implies #[trigger] proposed.nbrs(x)
                    == state.graph.nbrs(x) by {
                assert(proposed.nbrs(x) == snap0.nbrs(x));
                assert(snap0.nbrs(x) == state.graph.nbrs(x));
            }
        }
            assert forall|n: NodeId|
                #[trigger] proposed.pdr_of(n) == state.graph.pdr_of(n) by {
                assert(proposed.info()[n as int] == snap0.info()[n as int]);
                assert(snap0.pdr_of(n) == state.graph.pdr_of(n));
            }
        assert(snap0.kind_of(node1_id) == state.graph.kind_of(node1_id));
        assert(snap0.kind_of(node2_id) == state.graph.kind_of(node2_id));
        assert(state.graph.has_node(node1_id));
        assert(state.graph.has_node(node2_id));
        assert(snap0.nbrs(node1_id) == state.graph.nbrs(node1_id));
        assert(snap0.nbrs(node2_id) == state.graph.nbrs(node2_id));
        assert(state.graph.nbrs(node1_id).contains(node2_id));
        assert(state.graph.nbrs(node2_id).contains(node1_id));
    }
    match validate_graph(&proposed, state.strict_mode) {
        Ok(()) => {
            proof {
                assert forall|g2: GraphState|
                    g2.wf() && #[trigger] remove_edge_view_rel(
                        state.graph,
                        g2,
                        node1_id,
                        node2_id,
                    ) implies g2.valid(state.strict_mode) by {
                    assert(same_graph_views(proposed, g2)) by {
                        assert forall|n: NodeId|
                            #[trigger] proposed.kind_of(n) == g2.kind_of(n) by {
                            assert(proposed.kind_of(n) == state.graph.kind_of(n));
                            assert(g2.kind_of(n) == state.graph.kind_of(n));
                        }
                        assert forall|n: NodeId| #[trigger] proposed.nbrs(n) == g2.nbrs(n) by {
                            if n != node1_id && n != node2_id {
                                assert(proposed.nbrs(n) == state.graph.nbrs(n));
                                assert(g2.nbrs(n) == state.graph.nbrs(n));
                            }
                        }
                    }
                    lemma_valid_same_views(proposed, g2, state.strict_mode);
                }
                assert(valid_after_remove_edge(
                    state.graph,
                    node1_id,
                    node2_id,
                    state.strict_mode,
                ));
            }
        }
        Err(e) => {
            proof {
                assert(!valid_after_remove_edge(
                    state.graph,
                    node1_id,
                    node2_id,
                    state.strict_mode,
                )) by {
                    assert(remove_edge_view_rel(state.graph, proposed, node1_id, node2_id));
                    assert(!proposed.valid(state.strict_mode));
                }
            }
            return Err(e);
        }
    }
    match send_remove_sender_command(state, node1_id, node2_id) {
        Ok(()) => {}
        Err(_) => {
            return Err(NetworkError::CommandSendError(node1_id));
        }
    }
    match send_remove_sender_command(state, node2_id, node1_id) {
        Ok(()) => {}
        Err(_) => {
            return Err(NetworkError::CommandSendError(node2_id));
        }
    }
    let ghost pre = *state;
    state.graph = proposed;
    proof {
        assert(pre.graph.has_node(node1_id));
        assert(pre.status is Running);
        lemma_commit_same_kinds(pre, *state);
    }
    Ok(())
}

/// `id` is the smallest free id of the graph, counting from one.
pub open spec fn is_next_free_id(g: GraphState, id: NodeId) -> bool {
    &&& id >= 1
    &&& !g.has_node(id)
    &&& forall|k: NodeId| 1 <= k < id ==> g.has_node(k)
}

/// The smallest free id is unique.
pub proof fn lemma_next_free_id_unique(g: GraphState, a: NodeId, b: NodeId)
    requires
        is_next_free_id(g, a),
        is_next_free_id(g, b),
    ensures
        a == b,
{
    if a < b {
        assert(g.has_node(a));
    }
    if b < a {
        assert(g.has_node(b));
    }
}

/// The partial fabric of a freshly committed drone: everything mirrors the
/// graph except the new drone's own entries, which are still missing.
pub open spec fn fabric_missing_only(state: SimulationState, drone_id: NodeId) -> bool {
    &&& forall|n: NodeId|
        n != drone_id ==> #[trigger] state.has_inter_channel(n) == state.graph.has_node(n)
    &&& forall|n: NodeId|
        n != drone_id ==> #[trigger] state.has_drone_channel(n) == state.graph.is_drone(n)
    &&& forall|n: NodeId| #[trigger] state.has_client_channel(n) == state.graph.is_client(n)
    &&& forall|n: NodeId| #[trigger] state.has_server_channel(n) == state.graph.is_server(n)
    &&& !state.has_inter_channel(drone_id)
    &&& !state.has_drone_channel(drone_id)
}

/// Creates the fabric entries and metrics of a newly committed drone,
/// assigns it a group picked at random from the given implementation
/// families, and issues the paired `AddSender` commands towards its
/// neighbors.  Spawning the drone task is the embedder's part.
pub fn create_new_drone(
    state: &mut SimulationState,
    drone_id: NodeId,
    connected_node_ids: &Vec<NodeId>,
    pdr: u8,
    groups: &Vec<String>,
) -> (r: Result<NodeId, NetworkError>)
    requires
        old(state).wf(),
        old(state).status is Running,
        old(state).graph.valid(false),
        old(state).graph.is_drone(drone_id),
        fabric_missing_only(*old(state), drone_id),
    ensures
        final(state).inv(),
        final(state).has_inter_channel(drone_id),
        final(state).has_drone_channel(drone_id),
        final(state).metrics.drone_at(drone_id) is Some,
        final(state).status == old(state).status,
        final(state).strict_mode == old(state).strict_mode,
        final(state).initial_config == old(state).initial_config,
        forall|n: NodeId|
            #[trigger] final(state).graph.kind_of(n) == old(state).graph.kind_of(n),
        forall|n: NodeId| #[trigger] final(state).graph.nbrs(n) == old(state).graph.nbrs(n),
        forall|n: NodeId| #[trigger] final(state).graph.pdr_of(n) == old(state).graph.pdr_of(n),
        groups@.len() > 0 ==> exists|k: int|
            0 <= k < groups@.len() && #[trigger] final(state).graph.group_of(drone_id) == Some(
                groups@[k]@,
            ),
        groups@.len() == 0 ==> final(state).graph.group_of(drone_id) == old(
            state,
        ).graph.group_of(drone_id),
        r matches Ok(id) ==> id == drone_id,
        r is Err ==> (r matches Err(NetworkError::CommandSendError(_)) || r matches Err(
            NetworkError::ChannelNotFound(_),
        )),
{
    let (ps, pr) = crossbeam_channel::unbounded::<Packet>();
    let slot = &mut state.inter_node_channels[drone_id as usize];
    *slot = Some((ps, pr));
    let (cmd_tx, cmd_rx) = crossbeam_channel::unbounded::<DroneCommand>();
    let (evt_tx, evt_rx) = crossbeam_channel::unbounded::<crate::node::DroneEvent>();
    let cslot = &mut state.drones_controller_channels[drone_id as usize];
    *cslot = Some((cmd_tx, evt_rx));
    let eslot = &mut state.drone_node_endpoints[drone_id as usize];
    *eslot = Some((cmd_rx, evt_tx));
    state.metrics.insert_node(drone_id, NodeType::Drone);
    let ghost mid = *state;
    if groups.len() > 0 {
        let idx: usize = (random_u64() % (groups.len() as u64)) as usize;
        let group = groups[idx].clone();
        state.graph.set_drone_group(drone_id, group);
        proof {
            assert(state.graph.group_of(drone_id) == Some(groups@[idx as int]@));
        }
    }
    proof {
        assert forall|n: NodeId|
            #[trigger] state.graph.kind_of(n) == old(state).graph.kind_of(n) by {}
        assert forall|n: NodeId|
            #[trigger] state.graph.nbrs(n) == old(state).graph.nbrs(n) by {
            assert(state.graph.adj() == mid.graph.adj());
            assert(state.graph.adj()[n as int] == mid.graph.adj()[n as int]);
        }
        crate::validation::lemma_valid_same_views(old(state).graph, state.graph, false);
        assert(state.inv()) by {
            assert forall|n: NodeId|
                #[trigger] state.has_inter_channel(n) == state.graph.has_node(n) by {
                if n != drone_id {
                    assert(state.inter_node_channels@[n as int] == old(
                        state,
                    ).inter_node_channels@[n as int]);
                    assert(old(state).has_inter_channel(n) == old(state).graph.has_node(n));
                    assert(state.graph.kind_of(n) == old(state).graph.kind_of(n));
                } else {
                    assert(state.has_inter_channel(n));
                    assert(state.graph.kind_of(n) == old(state).graph.kind_of(n));
                }
            }
            assert forall|n: NodeId|
                #[trigger] state.has_drone_channel(n) == state.graph.is_drone(n) by {
                if n != drone_id {
                    assert(state.drones_controller_channels@[n as int] == old(
                        state,
                    ).drones_controller_channels@[n as int]);
                    assert(old(state).has_drone_channel(n) == old(state).graph.is_drone(n));
                    assert(state.graph.kind_of(n) == old(state).graph.kind_of(n));
                } else {
                    assert(state.has_drone_channel(n));
                    assert(state.graph.kind_of(n) == old(state).graph.kind_of(n));
                }
            }
            assert forall|n: NodeId|
                #[trigger] state.has_client_channel(n) == state.graph.is_client(n) by {
                assert(state.client_controller_channels@[n as int] == old(
                    state,
                ).client_controller_channels@[n as int]);
                assert(old(state).has_client_channel(n) == old(state).graph.is_client(n));
                assert(state.graph.kind_of(n) == old(state).graph.kind_of(n));
            }
            assert forall|n: NodeId|
                #[trigger] state.has_server_channel(n) == state.graph.is_server(n) by {
                assert(state.server_controller_channels@[n as int] == old(
                    state,
                ).server_controller_channels@[n as int]);
                assert(old(state).has_server_channel(n) == old(state).graph.is_server(n));
                assert(state.graph.kind_of(n) == old(state).graph.kind_of(n));
            }
        }
    }
    let mut t: usize = 0;
    while t < connected_node_ids.len()
        invariant
            state.inv(),
            state.has_inter_channel(drone_id),
            state.has_drone_channel(drone_id),
            state.metrics.drone_at(drone_id) is Some,
            state.status == old(state).status,
            state.strict_mode == old(state).strict_mode,
            state.initial_config == old(state).initial_config,
            forall|n: NodeId|
                #[trigger] state.graph.kind_of(n) == old(state).graph.kind_of(n),
            forall|n: NodeId| #[trigger] state.graph.nbrs(n) == old(state).graph.nbrs(n),
            forall|n: NodeId| #[trigger] state.graph.pdr_of(n) == old(state).graph.pdr_of(n),
            groups@.len() > 0 ==> exists|k: int|
                0 <= k < groups@.len() && #[trigger] state.graph.group_of(drone_id) == Some(
                    groups@[k]@,
                ),
            groups@.len() == 0 ==> state.graph.group_of(drone_id) == old(
                state,
            ).graph.group_of(drone_id),
            t <= connected_node_ids@.len(),
        decreases connected_node_ids@.len() - t,
    {
        let neighbor = connected_node_ids[t];
        match send_add_sender_command(state, drone_id, neighbor) {
            Ok(()) => {}
            Err(NetworkError::ChannelNotFound(c)) => {
                return Err(NetworkError::ChannelNotFound(c));
            }
            Err(_) => {
                return Err(NetworkError::CommandSendError(drone_id));
            }
        }
        match send_add_sender_command(state, neighbor, drone_id) {
            Ok(()) => {}
            Err(NetworkError::ChannelNotFound(c)) => {
                return Err(NetworkError::ChannelNotFound(c));
            }
            Err(_) => {
                return Err(NetworkError::CommandSendError(neighbor));
            }
        }
        t = t + 1;
    }
    Ok(drone_id)
}

/// How the views of a graph change when a drone with the given neighbor
/// list is added under a fresh id.
pub open spec fn add_drone_view_rel(
    g: GraphState,
    g2: GraphState,
    id: NodeId,
    ids: Seq<NodeId>,
) -> bool {
    &&& g2.is_drone(id)
    &&& forall|n: NodeId| n != id ==> #[trigger] g2.kind_of(n) == g.kind_of(n)
    &&& g2.nbrs(id) == g.nbrs(id) + ids + crate::topology::rep_id(
        crate::topology::occurrences(ids, id),
        id,
    )
    &&& forall|x: NodeId|
        x != id ==> #[trigger] g2.nbrs(x) == g.nbrs(x) + crate::topology::rep_id(
            crate::topology::occurrences(ids, x),
            id,
        )
}

/// Whether adding a drone with the given neighbor list under the given id
/// leaves a valid graph.
pub open spec fn valid_after_add_drone(
    g: GraphState,
    id: NodeId,
    ids: Seq<NodeId>,
    strict: bool,
) -> bool {
    forall|g2: GraphState|
        g2.wf() && #[trigger] add_drone_view_rel(g, g2, id, ids) ==> g2.valid(strict)
}

/// Adds a drone under the smallest free id: validates the proposed graph,
/// commits it, creates the new drone's fabric entries and issues the paired
/// `AddSender` commands.
pub fn add_drone(
    state: &mut SimulationState,
    connected_node_ids: Vec<NodeId>,
    pdr: u8,
    groups: &Vec<String>,
) -> (r: Result<NodeId, NetworkError>)
    requires
        old(state).inv(),
    ensures
        final(state).inv(),
        !(old(state).status is Running) <==> r == Err::<NodeId, NetworkError>(
            NetworkError::NetworkNotRunning,
        ),
        old(state).status is Running ==> (pdr > 100 <==> r == Err::<NodeId, NetworkError>(
            NetworkError::InvalidPdr(pdr),
        )),
        r matches Err(NetworkError::ValidationError(_)) ==> *final(state) == *old(state),
        r == Err::<NodeId, NetworkError>(NetworkError::InvalidPdr(pdr)) ==> *final(state) == *old(
            state,
        ),
        r == Err::<NodeId, NetworkError>(NetworkError::NetworkNotRunning) ==> *final(state)
            == *old(state),
        (old(state).status is Running && pdr <= 100 && (exists|id: NodeId|
            #[trigger] is_next_free_id(old(state).graph, id) && !valid_after_add_drone(
                old(state).graph,
                id,
                connected_node_ids@,
                old(state).strict_mode,
            ))) ==> r matches Err(NetworkError::ValidationError(_)),
        r matches Ok(id) ==> {
            &&& is_next_free_id(old(state).graph, id)
            &&& add_drone_view_rel(old(state).graph, final(state).graph, id, connected_node_ids@)
            &&& final(state).graph.valid(old(state).strict_mode)
            &&& final(state).graph.pdr_of(id) == pdr
            &&& final(state).has_inter_channel(id)
            &&& final(state).has_drone_channel(id)
            &&& final(state).metrics.drone_at(id) is Some
            &&& final(state).status == old(state).status
            &&& final(state).strict_mode == old(state).strict_mode
        },
{
    if !matches!(state.status, crate::state::SimulationStatus::Running) {
        return Err(NetworkError::NetworkNotRunning);
    }
    if pdr > 100 {
        return Err(NetworkError::InvalidPdr(pdr));
    }
    let mut proposed = state.graph.snapshot();
    proof {
        crate::topology::lemma_same_topology_views(state.graph, proposed);
    }
    let node_id = match proposed.get_next_node_id() {
        Some(id) => id,
        None => {
            proof {
                assert forall|id: NodeId| !(#[trigger] is_next_free_id(state.graph, id)) by {
                    if id >= 1 {
                        assert(proposed.has_node(id));
                        assert(proposed.kind_of(id) == state.graph.kind_of(id));
                    }
                }
            }
            return Err(NetworkError::InvalidOperation);
        }
    };
    proof {
        assert(is_next_free_id(state.graph, node_id)) by {
            assert(proposed.kind_of(node_id) == state.graph.kind_of(node_id));
            assert forall|k: NodeId| 1 <= k < node_id implies state.graph.has_node(k) by {
                assert(proposed.has_node(k));
                assert(proposed.kind_of(k) == state.graph.kind_of(k));
            }
        }
    }
    let ghost snap0 = proposed;
    match proposed.add_drone(node_id, &connected_node_ids, pdr) {
        Ok(()) => {}
        Err(_) => {
            // the chosen id is free, so the insertion cannot be refused
            proof {
                assert(false);
            }
            return Err(NetworkError::InvalidOperation);
        }
    }
    proof {
        assert(add_drone_view_rel(state.graph, proposed, node_id, connected_node_ids@)) by {
            assert forall|n: NodeId|
                n != node_id implies #[trigger] proposed.kind_of(n) == state.graph.kind_of(n) by {
                assert(proposed.info()[n as int] == snap0.info()[n as int]);
                assert(snap0.kind_of(n) == state.graph.kind_of(n));
            }
            assert(snap0.nbrs(node_id) == state.graph.nbrs(node_id));
            assert forall|x: NodeId|
                x != node_id implies #[trigger] proposed.nbrs(x) == state.graph.nbrs(x)
                    + crate::topology::rep_id(
                    crate::topology::occurrences(connected_node_ids@, x),
                    node_id,
                ) by {
                assert(proposed.nbrs(x) == snap0.nbrs(x) + crate::topology::rep_id(
                    crate::topology::occurrences(connected_node_ids@, x),
                    node_id,
                ));
                assert(snap0.nbrs(x) == state.graph.nbrs(x));
            }
        }
        assert(proposed.pdr_of(node_id) == pdr);
        assert forall|n: NodeId|
            n != node_id implies #[trigger] proposed.pdr_of(n) == state.graph.pdr_of(n) by {
            assert(proposed.info()[n as int] == snap0.info()[n as int]);
            assert(snap0.pdr_of(n) == state.graph.pdr_of(n));
        }
    }
    match validate_graph(&proposed, state.strict_mode) {
        Ok(()) => {
            proof {
                assert forall|g2: GraphState|
                    g2.wf() && #[trigger] add_drone_view_rel(
                        state.graph,
                        g2,
                        node_id,
                        connected_node_ids@,
                    ) implies g2.valid(state.strict_mode) by {
                    assert(same_graph_views(proposed, g2)) by {
                        assert forall|n: NodeId|
                            #[trigger] proposed.kind_of(n) == g2.kind_of(n) by {
                            if n != node_id {
                                assert(proposed.kind_of(n) == state.graph.kind_of(n));
                                assert(g2.kind_of(n) == state.graph.kind_of(n));
                            } else {
                                assert(proposed.is_drone(node_id));
                                assert(g2.is_drone(node_id));
                            }
                        }
                        assert forall|n: NodeId| #[trigger] proposed.nbrs(n) == g2.nbrs(n) by {
                            if n != node_id {
                                assert(proposed.nbrs(n) == state.graph.nbrs(n)
                                    + crate::topology::rep_id(
                                    crate::topology::occurrences(connected_node_ids@, n),
                                    node_id,
                                ));
                                assert(g2.nbrs(n) == state.graph.nbrs(n)
                                    + crate::topology::rep_id(
                                    crate::topology::occurrences(connected_node_ids@, n),
                                    node_id,
                                ));
                            }
                        }
                    }
                    lemma_valid_same_views(proposed, g2, state.strict_mode);
                }
                assert(valid_after_add_drone(
                    state.graph,
                    node_id,
                    connected_node_ids@,
                    state.strict_mode,
                ));
                assert(is_next_free_id(old(state).graph, node_id));
                assert forall|id: NodeId|
                    #[trigger] is_next_free_id(old(state).graph, id) implies valid_after_add_drone(
                    old(state).graph,
                    id,
                    connected_node_ids@,
                    old(state).strict_mode,
                ) by {
                    lemma_next_free_id_unique(old(state).graph, id, node_id);
                }
            }
        }
        Err(e) => {
            return Err(e);
        }
    }
    let ghost pre = *state;
    state.graph = proposed;
    let ghost committed = *state;
    // create the fabric entries of the new drone and wire its neighbors
    {
        proof {
            assert(fabric_missing_only(*state, node_id)) by {
                assert forall|n: NodeId|
                    n != node_id implies #[trigger] state.has_inter_channel(n)
                        == state.graph.has_node(n) by {
                    assert(pre.has_inter_channel(n) == pre.graph.has_node(n));
                    assert(state.graph.kind_of(n) == pre.graph.kind_of(n));
                }
                assert forall|n: NodeId|
                    n != node_id implies #[trigger] state.has_drone_channel(n)
                        == state.graph.is_drone(n) by {
                    assert(pre.has_drone_channel(n) == pre.graph.is_drone(n));
                    assert(state.graph.kind_of(n) == pre.graph.kind_of(n));
                }
                assert forall|n: NodeId|
                    #[trigger] state.has_client_channel(n) == state.graph.is_client(n) by {
                    assert(pre.has_client_channel(n) == pre.graph.is_client(n));
                    if n != node_id {
                        assert(state.graph.kind_of(n) == pre.graph.kind_of(n));
                    } else {
                        assert(!pre.has_client_channel(n));
                        assert(state.graph.is_drone(n));
                    }
                }
                assert forall|n: NodeId|
                    #[trigger] state.has_server_channel(n) == state.graph.is_server(n) by {
                    assert(pre.has_server_channel(n) == pre.graph.is_server(n));
                    if n != node_id {
                        assert(state.graph.kind_of(n) == pre.graph.kind_of(n));
                    } else {
                        assert(!pre.has_server_channel(n));
                        assert(state.graph.is_drone(n));
                    }
                }
                assert(!pre.has_inter_channel(node_id));
                assert(!pre.has_drone_channel(node_id));
            }
        }
        match create_new_drone(state, node_id, &connected_node_ids, pdr, groups) {
            Ok(_) => {}
            Err(e) => {
                return Err(e);
            }
        }
        proof {
            assert(same_graph_views(committed.graph, state.graph)) by {
                assert forall|n: NodeId|
                    #[trigger] committed.graph.kind_of(n) == state.graph.kind_of(n) by {
                    assert(state.graph.kind_of(n) == committed.graph.kind_of(n));
                }
                assert forall|n: NodeId|
                    #[trigger] committed.graph.nbrs(n) == state.graph.nbrs(n) by {
                    assert(state.graph.nbrs(n) == committed.graph.nbrs(n));
                }
            }
            lemma_valid_same_views(committed.graph, state.graph, pre.strict_mode);
            assert(add_drone_view_rel(pre.graph, state.graph, node_id, connected_node_ids@)) by {
                assert(state.graph.kind_of(node_id) == committed.graph.kind_of(node_id));
                assert forall|n: NodeId|
                    n != node_id implies #[trigger] state.graph.kind_of(n) == pre.graph.kind_of(
                    n,
                ) by {
                    assert(state.graph.kind_of(n) == committed.graph.kind_of(n));
                }
                assert(state.graph.nbrs(node_id) == committed.graph.nbrs(node_id));
                assert forall|x: NodeId|
                    x != node_id implies #[trigger] state.graph.nbrs(x) == pre.graph.nbrs(x)
                        + crate::topology::rep_id(
                        crate::topology::occurrences(connected_node_ids@, x),
                        node_id,
                    ) by {
                    assert(state.graph.nbrs(x) == committed.graph.nbrs(x));
                }
            }
            assert(state.graph.pdr_of(node_id) == committed.graph.pdr_of(node_id));
        }
        Ok(node_id)
    }
}

/// Law: crashing a drone and then adding one yields a topology where the
/// crashed drone is absent and the new drone takes the smallest unused id,
/// counting from one.  The one exception is the freed id itself: when it is
/// the smallest unused id, the new drone reuses it.
pub proof fn lemma_crash_then_add(
    g0: GraphState,
    g1: GraphState,
    g2: GraphState,
    d: NodeId,
    id: NodeId,
    ids: Seq<NodeId>,
)
    requires
        // `g1` is `g0` after a successful `crash_drone(d)`
        crash_view_rel(g0, g1, d),
        // the id a successful `add_drone` picks on `g1`
        is_next_free_id(g1, id),
        // `g2` is `g1` after that `add_drone`
        add_drone_view_rel(g1, g2, id, ids),
    ensures
        id >= 1,
        !g1.has_node(id),
        forall|k: NodeId| 1 <= k < id ==> g1.has_node(k),
        g2.is_drone(id),
        id != d ==> !g2.has_node(d),
{
    if id != d {
        assert(g2.kind_of(d) == g1.kind_of(d));
        assert(g1.kind_of(d) is None);
    }
}

/// The route a packet injected on behalf of `sender_id` actually takes:
/// when the sender does not open the hop list, it is prepended and the hop
/// index starts past it.
pub open spec fn spec_injected_route(sender_id: NodeId, hops: Seq<NodeId>) -> (Seq<NodeId>, int) {
    if hops.len() > 0 && hops[0] == sender_id {
        (hops, 0)
    } else {
        (seq![sender_id] + hops, 1)
    }
}

/// What packet injection returns, given the fabric: the sender must have an
/// inbound queue, the hop index must name a hop, and that hop must have an
/// inbound queue; only the final queue push itself can still fail.
pub open spec fn injection_outcome(
    state: SimulationState,
    sender_id: NodeId,
    hops: Seq<NodeId>,
    r: Result<(), NetworkError>,
) -> bool {
    let route = spec_injected_route(sender_id, hops);
    &&& (!state.has_inter_channel(sender_id) ==> r == Err::<(), NetworkError>(
        NetworkError::NodeNotFound(sender_id),
    ))
    &&& (state.has_inter_channel(sender_id) && route.1 >= route.0.len() ==> r == Err::<
        (),
        NetworkError,
    >(NetworkError::InvalidOperation))
    &&& (state.has_inter_channel(sender_id) && route.1 < route.0.len()
        && !state.has_inter_channel(route.0[route.1]) ==> r == Err::<(), NetworkError>(
        NetworkError::ChannelNotFound(route.0[route.1]),
    ))
    &&& (state.has_inter_channel(sender_id) && route.1 < route.0.len()
        && state.has_inter_channel(route.0[route.1]) ==> (r is Ok || r == Err::<
        (),
        NetworkError,
    >(NetworkError::SendError(route.0[route.1]))))
}

/// Ensures the sender opens the hop list: a route whose first hop is not
/// the sender gets the sender prepended and the hop index advanced by one.
pub fn prepare_route(sender_id: NodeId, hops: Vec<NodeId>) -> (r: (Vec<NodeId>, usize))
    ensures
        r.0@ == spec_injected_route(sender_id, hops@).0,
        r.1 == spec_injected_route(sender_id, hops@).1,
        hops@.len() > 0 && hops@[0] == sender_id ==> r.0@ == hops@ && r.1 == 0,
        !(hops@.len() > 0 && hops@[0] == sender_id) ==> r.0@ == seq![sender_id] + hops@ && r.1
            == 1,
{
    if hops.len() > 0 && hops[0] == sender_id {
        (hops, 0)
    } else {
        let ghost hops0 = hops@;
        let mut route = hops;
        route.insert(0, sender_id);
        proof {
            assert(route@ =~= seq![sender_id] + hops0);
        }
        (route, 1)
    }
}

/// Synthesizes a packet for the prepared route and pushes it into the
/// inbound queue of the hop the index names.
pub fn do_send_packet(
    state: &SimulationState,
    sender_id: NodeId,
    session_id: u64,
    pack_type: PacketType,
    hops: Vec<NodeId>,
) -> (r: Result<(), NetworkError>)
    requires
        state.wf(),
    ensures
        injection_outcome(*state, sender_id, hops@, r),
{
    if self_has_no_channel(state, sender_id) {
        return Err(NetworkError::NodeNotFound(sender_id));
    }
    let (route, hop_index) = prepare_route(sender_id, hops);
    if hop_index >= route.len() {
        return Err(NetworkError::InvalidOperation);
    }
    let next_node = route[hop_index];
    let packet = Packet {
        routing_header: SourceRoutingHeader::new(route, hop_index),
        session_id,
        pack_type,
    };
    match &state.inter_node_channels[next_node as usize] {
        Some((tx, _)) => {
            if channel_send(tx, packet) {
                Ok(())
            } else {
                Err(NetworkError::SendError(next_node))
            }
        }
        None => Err(NetworkError::ChannelNotFound(next_node)),
    }
}

/// Whether a node lacks an inbound queue.
fn self_has_no_channel(state: &SimulationState, n: NodeId) -> (r: bool)
    requires
        state.wf(),
    ensures
        r == !state.has_inter_channel(n),
{
    state.inter_node_channels[n as usize].is_none()
}

/// The kind a node reports in discovery traces: its true kind from the
/// topology, with client standing in for an unknown sender.
pub open spec fn spec_kind_or_client(g: GraphState, n: NodeId) -> NodeType {
    match g.kind_of(n) {
        Some(k) => k,
        None => NodeType::Client,
    }
}

/// Synthesizes the discovery request injected on behalf of a node: the
/// trace opens with the sender and its true kind from the topology.
pub fn make_flood_request(state: &SimulationState, sender_id: NodeId) -> (r: FloodRequest)
    requires
        state.wf(),
    ensures
        r.flood_id == 0,
        r.initiator_id == sender_id,
        r.path_trace@ == seq![(sender_id, spec_kind_or_client(state.graph, sender_id))],
{
    let kind = match &state.graph.node_info[sender_id as usize] {
        Some(m) => m.kind(),
        None => NodeType::Client,
    };
    let mut path_trace: Vec<(NodeId, NodeType)> = Vec::new();
    path_trace.push((sender_id, kind));
    proof {
        assert(path_trace@ =~= seq![(sender_id, spec_kind_or_client(state.graph, sender_id))]);
    }
    FloodRequest { flood_id: 0, initiator_id: sender_id, path_trace }
}

/// Whether a packet class name is equal to the given literal.
fn str_is(s: &String, lit: &str) -> (r: bool)
    ensures
        r == (s@ == lit@),
{
    *s == lit.to_owned()
}

/// The effective negative-acknowledgement kind name: a missing kind means a
/// plain drop.
pub open spec fn nack_kind_view(o: Option<String>) -> Seq<char> {
    match o {
        Some(s) => s@,
        None => "Dropped"@,
    }
}

/// Synthesizes a packet of the named class on behalf of a node and injects
/// it into the network, prepending the sender to the hop list when it does
/// not already open it.
pub fn send_packet(
    state: &SimulationState,
    sender_id: NodeId,
    session_id: u64,
    packet_type: String,
    hops: Vec<NodeId>,
    fragment_index: Option<u64>,
    total_fragments: Option<u64>,
    data: Option<Vec<u8>>,
    nack_type: Option<String>,
    error_node: Option<NodeId>,
) -> (r: Result<(), NetworkError>)
    requires
        state.wf(),
    ensures
        packet_type@ == "MsgFragment"@ && fragment_index is None ==> r == Err::<
            (),
            NetworkError,
        >(NetworkError::InvalidOperation),
        (packet_type@ == "Ack"@ || packet_type@ == "Nack"@) && fragment_index is None ==> r
            == Err::<(), NetworkError>(NetworkError::InvalidOperation),
        packet_type@ == "Nack"@ && fragment_index is Some && (nack_kind_view(nack_type)
            == "ErrorInRouting"@ || nack_kind_view(nack_type) == "UnexpectedRecipient"@)
            && error_node is None ==> r == Err::<(), NetworkError>(NetworkError::InvalidOperation),
        packet_type@ == "MsgFragment"@ && fragment_index is Some ==> injection_outcome(
            *state,
            sender_id,
            hops@,
            r,
        ),
        packet_type@ == "Ack"@ && fragment_index is Some ==> injection_outcome(
            *state,
            sender_id,
            hops@,
            r,
        ),
        packet_type@ == "Nack"@ && fragment_index is Some && !((nack_kind_view(nack_type)
            == "ErrorInRouting"@ || nack_kind_view(nack_type) == "UnexpectedRecipient"@)
            && error_node is None) ==> injection_outcome(*state, sender_id, hops@, r),
        packet_type@ == "FloodRequest"@ || packet_type@ == "FloodResponse"@
            ==> injection_outcome(*state, sender_id, hops@, r),
        !(packet_type@ == "MsgFragment"@ || packet_type@ == "Ack"@ || packet_type@ == "Nack"@
            || packet_type@ == "FloodRequest"@ || packet_type@ == "FloodResponse"@) ==> r
            matches Err(NetworkError::Other(_)),
{
    proof {
        reveal_strlit("MsgFragment");
        reveal_strlit("Ack");
        reveal_strlit("Nack");
        reveal_strlit("FloodRequest");
        reveal_strlit("FloodResponse");
        reveal_strlit("Dropped");
        reveal_strlit("ErrorInRouting");
        reveal_strlit("UnexpectedRecipient");
        reveal_strlit("DestinationIsDrone");
        assert("MsgFragment"@.len() == 11 && "Ack"@.len() == 3 && "Nack"@.len() == 4
            && "FloodRequest"@.len() == 12 && "FloodResponse"@.len() == 13);
        assert("Dropped"@.len() == 7 && "ErrorInRouting"@.len() == 14
            && "UnexpectedRecipient"@.len() == 19 && "DestinationIsDrone"@.len() == 18);
        assert("MsgFragment"@ != "FloodRequest"@ && "MsgFragment"@ != "FloodResponse"@);
        assert("Ack"@ != "FloodRequest"@ && "Ack"@ != "FloodResponse"@);
        assert("Nack"@ != "FloodRequest"@ && "Nack"@ != "FloodResponse"@);
        assert("FloodRequest"@ != "FloodResponse"@);
        assert("MsgFragment"@ != "Ack"@ && "MsgFragment"@ != "Nack"@ && "Ack"@ != "Nack"@);
    }
    if str_is(&packet_type, "MsgFragment") {
        let fi = match fragment_index {
            Some(fi) => fi,
            None => {
                return Err(NetworkError::InvalidOperation);
            }
        };
        let tot = match total_fragments {
            Some(t) => t,
            None => 1,
        };
        let empty: Vec<u8> = Vec::new();
        let fragment = match &data {
            Some(d) => Fragment::from_data(fi, tot, d),
            None => Fragment::from_data(fi, tot, &empty),
        };
        do_send_packet(state, sender_id, session_id, PacketType::MsgFragment(fragment), hops)
    } else if str_is(&packet_type, "Ack") {
        let fi = match fragment_index {
            Some(fi) => fi,
            None => {
                return Err(NetworkError::InvalidOperation);
            }
        };
        do_send_packet(
            state,
            sender_id,
            session_id,
            PacketType::Ack(Ack { fragment_index: fi }),
            hops,
        )
    } else if str_is(&packet_type, "Nack") {
        let fi = match fragment_index {
            Some(fi) => fi,
            None => {
                return Err(NetworkError::InvalidOperation);
            }
        };
        let is_error_in_routing = match &nack_type {
            Some(nt) => str_is(nt, "ErrorInRouting"),
            None => false,
        };
        let is_unexpected = match &nack_type {
            Some(nt) => str_is(nt, "UnexpectedRecipient"),
            None => false,
        };
        let is_dest_drone = match &nack_type {
            Some(nt) => str_is(nt, "DestinationIsDrone"),
            None => false,
        };
        let nack_kind = if is_error_in_routing {
            match error_node {
                Some(e) => NackType::ErrorInRouting(e),
                None => {
                    return Err(NetworkError::InvalidOperation);
                }
            }
        } else if is_unexpected {
            match error_node {
                Some(e) => NackType::UnexpectedRecipient(e),
                None => {
                    return Err(NetworkError::InvalidOperation);
                }
            }
        } else if is_dest_drone {
            NackType::DestinationIsDrone
        } else {
            NackType::Dropped
        };
        do_send_packet(
            state,
            sender_id,
            session_id,
            PacketType::Nack(Nack { fragment_index: fi, nack_type: nack_kind }),
            hops,
        )
    } else if str_is(&packet_type, "FloodRequest") {
        let flood_request = make_flood_request(state, sender_id);
        do_send_packet(
            state,
            sender_id,
            session_id,
            PacketType::FloodRequest(flood_request),
            hops,
        )
    } else if str_is(&packet_type, "FloodResponse") {
        let flood_response = FloodResponse { flood_id: 0, path_trace: Vec::new() };
        do_send_packet(
            state,
            sender_id,
            session_id,
            PacketType::FloodResponse(flood_response),
            hops,
        )
    } else {
        Err(NetworkError::Other("unrecognized packet type".to_owned()))
    }
}

/// After committing a proposed graph whose kinds match the old graph and
/// which is valid, the state invariant holds again.
proof fn lemma_commit_same_kinds(pre: SimulationState, post: SimulationState)
    requires
        pre.inv(),
        pre.status is Running,
        post.wf(),
        post.status == pre.status,
        post.graph.valid(false),
        post.inter_node_channels == pre.inter_node_channels,
        post.drones_controller_channels == pre.drones_controller_channels,
        post.client_controller_channels == pre.client_controller_channels,
        post.server_controller_channels == pre.server_controller_channels,
        forall|n: NodeId| #[trigger] post.graph.kind_of(n) == pre.graph.kind_of(n),
    ensures
        post.inv(),
{
    assert forall|n: NodeId| #[trigger] post.has_inter_channel(n) == post.graph.has_node(n) by {
        assert(post.has_inter_channel(n) == pre.has_inter_channel(n));
        assert(post.graph.kind_of(n) == pre.graph.kind_of(n));
    }
    assert forall|n: NodeId| #[trigger] post.has_drone_channel(n) == post.graph.is_drone(n) by {
        assert(post.has_drone_channel(n) == pre.has_drone_channel(n));
        assert(post.graph.kind_of(n) == pre.graph.kind_of(n));
    }
    assert forall|n: NodeId| #[trigger] post.has_client_channel(n) == post.graph.is_client(n) by {
        assert(post.has_client_channel(n) == pre.has_client_channel(n));
        assert(post.graph.kind_of(n) == pre.graph.kind_of(n));
    }
    assert forall|n: NodeId| #[trigger] post.has_server_channel(n) == post.graph.is_server(n) by {
        assert(post.has_server_channel(n) == pre.has_server_channel(n));
        assert(post.graph.kind_of(n) == pre.graph.kind_of(n));
    }
}

} // verus!
