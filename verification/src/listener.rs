//! The event listener: drains the per-node event queues, records every
//! event, projects it onto the metrics, and delivers controller-shortcut
//! packets straight to their destination.
//!
//! The embedder runs the draining loop on its own thread and supplies the
//! timestamps; everything each event does to the state is specified here.

use vstd::prelude::*;

verus! {

use crate::channels::{channel_send, channel_try_recv};
use crate::metrics::{
    rel_host_record_packet, rel_packet_dropped, rel_record_packet, sat64, spec_label_of,
    spec_label_of_header,
};
use crate::node::{ControllerEvent, DroneEvent, HostEvent};
use crate::packet::Packet;
use crate::state::SimulationState;
use crate::{NodeId, ID_SPACE};

/// The class of a recorded event.
#[derive(Debug, Clone, Copy, PartialEq, Eq, Structural)]
pub enum EventType {
    PacketSent,
    PacketDropped,
    ControllerShortcut,
    HostMessageSent,
}

/// One recorded event of the log, tagged with its monotonically growing id.
#[derive(Debug)]
pub struct Message {
    pub id: usize,
    pub event_type: EventType,
    pub node: NodeId,
    pub node_type: String,
    pub packet: String,
}

/// The class of a recorded event.
pub open spec fn spec_event_type(e: ControllerEvent) -> EventType {
    match e {
        ControllerEvent::Drone { event: DroneEvent::PacketSent(_), .. } => EventType::PacketSent,
        ControllerEvent::Drone { event: DroneEvent::PacketDropped(_), .. } =>
            EventType::PacketDropped,
        ControllerEvent::Drone { event: DroneEvent::ControllerShortcut(_), .. } =>
            EventType::ControllerShortcut,
        ControllerEvent::Host { event: HostEvent::PacketSent(_), .. } => EventType::PacketSent,
        ControllerEvent::Host { event: HostEvent::HostMessageSent(..), .. } =>
            EventType::HostMessageSent,
        ControllerEvent::Host { event: HostEvent::ControllerShortcut(_), .. } =>
            EventType::ControllerShortcut,
    }
}

/// The node a recorded event came from.
pub open spec fn spec_event_node(e: ControllerEvent) -> NodeId {
    match e {
        ControllerEvent::Drone { node_id, .. } => node_id,
        ControllerEvent::Host { node_id, .. } => node_id,
    }
}

/// Relies on the standard `Debug` formatting to render an event for the
/// operator log; the text is informational only.
#[verifier::external_body]
fn describe_event(e: &ControllerEvent) -> String {
    format!("{:?}", e)
}

/// Drains at most one pending event from every per-node event queue, in id
/// order.  Every collected event is tagged with a node that has an event
/// queue of the matching kind.
pub fn collect_events(state: &SimulationState) -> (r: Vec<ControllerEvent>)
    requires
        state.wf(),
    ensures
        forall|k: int|
            0 <= k < r@.len() ==> (match #[trigger] r@[k] {
                ControllerEvent::Drone { node_id, .. } => state.has_drone_channel(node_id),
                ControllerEvent::Host { node_id, .. } => state.has_client_channel(node_id)
                    || state.has_server_channel(node_id),
            }),
{
    let mut r: Vec<ControllerEvent> = Vec::new();
    let mut node: usize = 0;
    while node < ID_SPACE
        invariant
            state.wf(),
            node <= ID_SPACE,
            forall|k: int|
                0 <= k < r@.len() ==> (match #[trigger] r@[k] {
                    ControllerEvent::Drone { node_id, .. } => state.has_drone_channel(node_id),
                    ControllerEvent::Host { node_id, .. } => state.has_client_channel(node_id)
                        || state.has_server_channel(node_id),
                }),
        decreases ID_SPACE - node,
    {
        match &state.drones_controller_channels[node] {
            Some((_, evt_rx)) => {
                match channel_try_recv(evt_rx) {
                    Some(event) => {
                        r.push(ControllerEvent::Drone { node_id: node as NodeId, event });
                    }
                    None => {}
                }
            }
            None => {}
        }
        match &state.client_controller_channels[node] {
            Some((_, evt_rx)) => {
                match channel_try_recv(evt_rx) {
                    Some(event) => {
                        r.push(ControllerEvent::Host { node_id: node as NodeId, event });
                    }
                    None => {}
                }
            }
            None => {}
        }
        match &state.server_controller_channels[node] {
            Some((_, evt_rx)) => {
                match channel_try_recv(evt_rx) {
                    Some(event) => {
                        r.push(ControllerEvent::Host { node_id: node as NodeId, event });
                    }
                    None => {}
                }
            }
            None => {}
        }
        node = node + 1;
    }
    r
}

/// Delivers a controller-shortcut packet straight into the inbound queue of
/// its final destination; a packet without a destination, or whose
/// destination has no queue, is discarded.
pub fn send_packet_to_destination(state: &SimulationState, packet: Packet) -> (delivered: bool)
    requires
        state.wf(),
    ensures
        packet.routing_header.spec_destination() is None ==> !delivered,
        (packet.routing_header.spec_destination() matches Some(d) && !state.has_inter_channel(d))
            ==> !delivered,
{
    let dest = match packet.routing_header.destination() {
        Some(d) => d,
        None => {
            return false;
        }
    };
    match &state.inter_node_channels[dest as usize] {
        Some((tx, _)) => channel_send(tx, packet),
        None => false,
    }
}

/// Projects one drone event onto the metrics; a shortcut of a non-droppable
/// packet is also delivered to its destination.
pub fn handle_drone_event(
    state: &mut SimulationState,
    node_id: NodeId,
    event: &DroneEvent,
    timestamp: u64,
)
    requires
        old(state).wf(),
    ensures
        final(state).wf(),
        final(state).graph == old(state).graph,
        final(state).status == old(state).status,
        final(state).received_messages == old(state).received_messages,
        final(state).inter_node_channels == old(state).inter_node_channels,
        final(state).drones_controller_channels == old(state).drones_controller_channels,
        final(state).client_controller_channels == old(state).client_controller_channels,
        final(state).server_controller_channels == old(state).server_controller_channels,
        final(state).initial_config == old(state).initial_config,
        final(state).strict_mode == old(state).strict_mode,
        final(state).discovery_interval_secs == old(state).discovery_interval_secs,
        (match *event {
            DroneEvent::PacketSent(p) => old(state).metrics.drone_at(node_id) is Some ==> (final(state).metrics.drone_at(node_id) matches Some(n) && rel_record_packet(
                old(state).metrics.drone_at(node_id).unwrap(),
                n,
                spec_label_of(p.pack_type),
                timestamp,
            )),
            DroneEvent::PacketDropped(_) => old(state).metrics.drone_at(node_id) is Some ==> (final(state).metrics.drone_at(node_id) matches Some(n) && rel_packet_dropped(
                old(state).metrics.drone_at(node_id).unwrap(),
                n,
                timestamp,
            )),
            DroneEvent::ControllerShortcut(p) => {
                &&& (p.spec_is_shortcuttable() && old(state).metrics.drone_at(node_id) is Some
                    ==> (final(state).metrics.drone_at(node_id) matches Some(n) && n.shortcuts
                    == sat64(old(state).metrics.drone_at(node_id).unwrap().shortcuts + 1)))
                &&& (!p.spec_is_shortcuttable() ==> final(state).metrics == old(state).metrics)
            }
        }),
{
    match event {
        DroneEvent::PacketSent(packet) => {
            state.metrics.update_drone_packet_sent(node_id, packet, timestamp);
        }
        DroneEvent::PacketDropped(packet) => {
            state.metrics.update_drone_packet_dropped(node_id, packet, timestamp);
        }
        DroneEvent::ControllerShortcut(packet) => {
            if packet.is_shortcuttable() {
                state.metrics.update_drone_packet_sent(node_id, packet, timestamp);
                state.metrics.record_drone_shortcut(node_id);
                let copy = packet.duplicate();
                let _ = send_packet_to_destination(state, copy);
            }
        }
    }
}

/// Projects one host event onto the metrics; a shortcut of a non-droppable
/// packet is also delivered to its destination.
pub fn handle_host_event(
    state: &mut SimulationState,
    node_id: NodeId,
    event: &HostEvent,
    timestamp: u64,
)
    requires
        old(state).wf(),
    ensures
        final(state).wf(),
        final(state).graph == old(state).graph,
        final(state).status == old(state).status,
        final(state).received_messages == old(state).received_messages,
        final(state).inter_node_channels == old(state).inter_node_channels,
        final(state).drones_controller_channels == old(state).drones_controller_channels,
        final(state).client_controller_channels == old(state).client_controller_channels,
        final(state).server_controller_channels == old(state).server_controller_channels,
        final(state).initial_config == old(state).initial_config,
        final(state).strict_mode == old(state).strict_mode,
        final(state).discovery_interval_secs == old(state).discovery_interval_secs,
        (match *event {
            HostEvent::HostMessageSent(_, _, latency) => old(state).metrics.host_at(node_id)
                is Some ==> (final(state).metrics.host_at(node_id) matches Some(n) && n.latencies@
                == old(state).metrics.host_at(node_id).unwrap().latencies@.push(latency)),
            HostEvent::PacketSent(h) => old(state).metrics.host_at(node_id) is Some
                && h.routing_header.spec_destination() is Some ==> (final(state).metrics.host_at(
                node_id,
            ) matches Some(n) && rel_host_record_packet(
                old(state).metrics.host_at(node_id).unwrap(),
                n,
                h.routing_header.spec_destination().unwrap(),
                spec_label_of_header(h.pack_type),
                timestamp,
            )),
            HostEvent::ControllerShortcut(p) => {
                &&& (p.spec_is_shortcuttable() && old(state).metrics.host_at(node_id) is Some
                    ==> (final(state).metrics.host_at(node_id) matches Some(n) && n.shortcuts
                    == sat64(old(state).metrics.host_at(node_id).unwrap().shortcuts + 1)))
                &&& (!p.spec_is_shortcuttable() ==> final(state).metrics == old(state).metrics)
            }
        }),
{
    match event {
        HostEvent::HostMessageSent(destination, _message, latency) => {
            state.metrics.update_host_message_sent(node_id, *destination, *latency);
        }
        HostEvent::PacketSent(packet_header) => {
            state.metrics.update_host_packet_sent(node_id, packet_header, timestamp);
        }
        HostEvent::ControllerShortcut(packet) => {
            if packet.is_shortcuttable() {
                state.metrics.record_host_shortcut(node_id);
                let copy = packet.duplicate();
                let _ = send_packet_to_destination(state, copy);
            }
        }
    }
}

/// Records one event in the log and projects it onto the metrics.
pub fn process_event(state: &mut SimulationState, event: ControllerEvent, timestamp: u64)
    requires
        old(state).wf(),
    ensures
        final(state).wf(),
        final(state).received_messages@.len() == old(state).received_messages@.len() + 1,
        final(state).received_messages@.last() == event,
        forall|k: int|
            0 <= k < old(state).received_messages@.len() ==> #[trigger] final(state).received_messages@[k] == old(state).received_messages@[k],
        final(state).graph == old(state).graph,
        final(state).status == old(state).status,
        final(state).inter_node_channels == old(state).inter_node_channels,
        final(state).initial_config == old(state).initial_config,
        (match event {
            ControllerEvent::Drone { node_id, event: DroneEvent::PacketDropped(_) } => old(state).metrics.drone_at(node_id) is Some ==> (final(state).metrics.drone_at(node_id)
                matches Some(n) && rel_packet_dropped(
                old(state).metrics.drone_at(node_id).unwrap(),
                n,
                timestamp,
            )),
            ControllerEvent::Drone { node_id, event: DroneEvent::PacketSent(p) } => old(state).metrics.drone_at(node_id) is Some ==> (final(state).metrics.drone_at(node_id)
                matches Some(n) && rel_record_packet(
                old(state).metrics.drone_at(node_id).unwrap(),
                n,
                spec_label_of(p.pack_type),
                timestamp,
            )),
            _ => true,
        }),
{
    match &event {
        ControllerEvent::Drone { node_id, event: drone_event } => {
            handle_drone_event(state, *node_id, drone_event, timestamp);
        }
        ControllerEvent::Host { node_id, event: host_event } => {
            handle_host_event(state, *node_id, host_event, timestamp);
        }
    }
    state.received_messages.push(event);
}

/// The start of the log window `get_new_messages` returns.
pub open spec fn spec_window_start(total: int, last_id: int, max_messages: int) -> int {
    let tail = if total - max_messages > 0 {
        total - max_messages
    } else {
        0
    };
    if tail > last_id {
        tail
    } else {
        last_id
    }
}

/// Returns the tail of the event log: every recorded event from the later
/// of `last_id` and `len - max_messages` on, each tagged with its id (its
/// index in the log).
pub fn get_new_messages(state: &SimulationState, last_id: usize, max_messages: usize) -> (r: Vec<
    Message,
>)
    requires
        state.wf(),
    ensures
        ({
            let total = state.received_messages@.len() as int;
            let start = spec_window_start(total, last_id as int, max_messages as int);
            &&& (start >= total ==> r@.len() == 0)
            &&& (start < total ==> r@.len() == total - start)
            &&& forall|k: int|
                0 <= k < r@.len() ==> (#[trigger] r@[k]).id == start + k
            &&& forall|k: int|
                0 <= k < r@.len() ==> (#[trigger] r@[k]).event_type == spec_event_type(
                    state.received_messages@[start + k],
                )
            &&& forall|k: int|
                0 <= k < r@.len() ==> (#[trigger] r@[k]).node == spec_event_node(
                    state.received_messages@[start + k],
                )
        }),
{
    let total = state.received_messages.len();
    let tail = if total > max_messages {
        total - max_messages
    } else {
        0
    };
    let start = if tail > last_id {
        tail
    } else {
        last_id
    };
    let mut r: Vec<Message> = Vec::new();
    if start >= total {
        return r;
    }
    let mut k: usize = start;
    while k < total
        invariant
            state.wf(),
            total == state.received_messages@.len(),
            start <= k <= total,
            r@.len() == k - start,
            forall|j: int| 0 <= j < r@.len() ==> (#[trigger] r@[j]).id == start + j,
            forall|j: int|
                0 <= j < r@.len() ==> (#[trigger] r@[j]).event_type == spec_event_type(
                    state.received_messages@[start + j],
                ),
            forall|j: int|
                0 <= j < r@.len() ==> (#[trigger] r@[j]).node == spec_event_node(
                    state.received_messages@[start + j],
                ),
        decreases total - k,
    {
        let entry = &state.received_messages[k];
        let (event_type, node, node_type) = match entry {
            ControllerEvent::Drone { node_id, event: DroneEvent::PacketSent(_) } => (
                EventType::PacketSent,
                *node_id,
                "Drone",
            ),
            ControllerEvent::Drone { node_id, event: DroneEvent::PacketDropped(_) } => (
                EventType::PacketDropped,
                *node_id,
                "Drone",
            ),
            ControllerEvent::Drone { node_id, event: DroneEvent::ControllerShortcut(_) } => (
                EventType::ControllerShortcut,
                *node_id,
                "Drone",
            ),
            ControllerEvent::Host { node_id, event: HostEvent::PacketSent(_) } => (
                EventType::PacketSent,
                *node_id,
                "Host",
            ),
            ControllerEvent::Host { node_id, event: HostEvent::HostMessageSent(..) } => (
                EventType::HostMessageSent,
                *node_id,
                "Host",
            ),
            ControllerEvent::Host { node_id, event: HostEvent::ControllerShortcut(_) } => (
                EventType::ControllerShortcut,
                *node_id,
                "Host",
            ),
        };
        let message = Message {
            id: k,
            event_type,
            node,
            node_type: node_type.to_owned(),
            packet: describe_event(entry),
        };
        r.push(message);
        k = k + 1;
    }
    r
}

} // verus!
