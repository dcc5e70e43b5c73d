//! The per-node runtime contract: the commands a node obeys, the events it
//! emits, the capability a pluggable drone implementation provides, and the
//! node-side table of neighbor senders.

use vstd::prelude::*;

verus! {

use crate::packet::{Packet, PacketHeader};
use crate::{NodeId, ID_SPACE};

/// A command the controller sends to a drone.
pub enum DroneCommand {
    /// Terminate the drone's task.
    Crash,
    /// Change the drone's drop rate, in whole percent.
    SetPacketDropRate(u8),
    /// Hand the drone a sender into the inbound queue of a neighbor.
    AddSender(NodeId, crossbeam_channel::Sender<Packet>),
    /// Revoke the sender towards a neighbor.
    RemoveSender(NodeId),
}

/// A command the controller sends to a client or server.
pub enum HostCommand {
    /// Terminate the host's task.
    Stop,
    /// Hand the host a sender into the inbound queue of a neighbor.
    AddSender(NodeId, crossbeam_channel::Sender<Packet>),
    /// Revoke the sender towards a neighbor.
    RemoveSender(NodeId),
}

/// An event a drone emits towards the controller.
#[derive(Debug)]
pub enum DroneEvent {
    PacketSent(Packet),
    PacketDropped(Packet),
    /// A non-droppable packet whose next hop vanished; the controller
    /// delivers it straight to its destination.
    ControllerShortcut(Packet),
}

/// An event a host emits towards the controller.
#[derive(Debug)]
pub enum HostEvent {
    PacketSent(PacketHeader),
    /// A logical message was acknowledged end to end; the fields are the
    /// destination, a descriptor of the message, and the round-trip latency
    /// in milliseconds.
    HostMessageSent(NodeId, String, u64),
    ControllerShortcut(Packet),
}

/// An event of any node, tagged with the node that emitted it; this is what
/// the event listener records and projects onto the metrics.
#[derive(Debug)]
pub enum ControllerEvent {
    Drone { node_id: NodeId, event: DroneEvent },
    Host { node_id: NodeId, event: HostEvent },
}

/// The capability a pluggable drone implementation provides: it runs as one
/// task until it receives `Crash`, and names its implementation family.
pub trait DroneRunnable {
    /// Runs the drone until it terminates.
    fn run(&mut self);

    /// The name of the drone's implementation family.
    fn drone_type(&self) -> &'static str;
}

/// The node-side table of neighbor senders: which neighbors a node can
/// currently reach, one slot per possible id.
pub struct NodeNeighbors {
    pub senders: Vec<Option<crossbeam_channel::Sender<Packet>>>,
}

impl NodeNeighbors {
    /// The table covers the whole id space.
    pub open spec fn wf(self) -> bool {
        self.senders@.len() == ID_SPACE
    }

    /// Whether the node currently holds a sender towards `n`.
    pub open spec fn knows(self, n: NodeId) -> bool {
        self.senders@[n as int] is Some
    }

    /// The sender towards `n`, if any.
    pub open spec fn sender_of(self, n: NodeId) -> Option<
        crossbeam_channel::Sender<Packet>,
    > {
        self.senders@[n as int]
    }

    /// A table with no reachable neighbor.
    pub fn new() -> (r: Self)
        ensures
            r.wf(),
            forall|n: NodeId| !r.knows(n),
    {
        let mut senders: Vec<Option<crossbeam_channel::Sender<Packet>>> = Vec::new();
        let mut i: usize = 0;
        while i < ID_SPACE
            invariant
                i <= ID_SPACE,
                senders@.len() == i,
                forall|k: int| 0 <= k < i ==> #[trigger] senders@[k] is None,
            decreases ID_SPACE - i,
        {
            senders.push(None);
            i = i + 1;
        }
        NodeNeighbors { senders }
    }

    /// Obeys `AddSender(n, endpoint)`: stores the endpoint under `n`.
    pub fn add_sender(&mut self, n: NodeId, endpoint: crossbeam_channel::Sender<Packet>)
        requires
            old(self).wf(),
        ensures
            final(self).wf(),
            final(self).senders@ == old(self).senders@.update(n as int, Some(endpoint)),
            final(self).knows(n),
            forall|m: NodeId| m != n ==> #[trigger] final(self).sender_of(m) == old(
                self,
            ).sender_of(m),
    {
        let slot = &mut self.senders[n as usize];
        *slot = Some(endpoint);
        proof {
            assert forall|m: NodeId| m != n implies #[trigger] self.sender_of(m) == old(
                self,
            ).sender_of(m) by {
                assert(self.senders@[m as int] == old(self).senders@[m as int]);
            }
        }
    }

    /// Obeys `RemoveSender(n)`: forgets the endpoint towards `n`.
    pub fn remove_sender(&mut self, n: NodeId)
        requires
            old(self).wf(),
        ensures
            final(self).wf(),
            final(self).senders@ == old(self).senders@.update(n as int, None::<
                crossbeam_channel::Sender<Packet>,
            >),
            !final(self).knows(n),
            forall|m: NodeId| m != n ==> #[trigger] final(self).sender_of(m) == old(
                self,
            ).sender_of(m),
    {
        let slot = &mut self.senders[n as usize];
        *slot = None;
        proof {
            assert forall|m: NodeId| m != n implies #[trigger] self.sender_of(m) == old(
                self,
            ).sender_of(m) by {
                assert(self.senders@[m as int] == old(self).senders@[m as int]);
            }
        }
    }
}

/// Law: repeating `AddSender` with the same pairing changes nothing — the
/// runtime table after two identical `AddSender` commands equals the table
/// after one.
pub proof fn lemma_add_sender_idempotent(
    t0: NodeNeighbors,
    t1: NodeNeighbors,
    t2: NodeNeighbors,
    n: NodeId,
    endpoint: crossbeam_channel::Sender<Packet>,
)
    requires
        t0.wf(),
        // `t1` is `t0` after `AddSender(n, endpoint)`
        t1.senders@ == t0.senders@.update(n as int, Some(endpoint)),
        // `t2` is `t1` after the same `AddSender(n, endpoint)` again
        t2.senders@ == t1.senders@.update(n as int, Some(endpoint)),
    ensures
        t2.senders@ == t1.senders@,
{
    assert(t2.senders@ =~= t1.senders@);
}

} // verus!
