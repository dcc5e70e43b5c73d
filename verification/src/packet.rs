//! The packet model: source-routing headers and the five packet kinds that
//! travel between nodes.

use vstd::prelude::*;

verus! {

use crate::topology::NodeType;
use crate::NodeId;

/// Fixed size of a fragment's data block, in bytes.
pub const FRAGMENT_SIZE: usize = 128;

/// The source route of a packet: the full list of hops and the index of the
/// node currently holding the packet.
#[derive(Debug)]
pub struct SourceRoutingHeader {
    pub hops: Vec<NodeId>,
    pub hop_index: usize,
}

impl SourceRoutingHeader {
    /// The hop the packet currently sits at, when the index is in range.
    pub open spec fn spec_current_hop(self) -> Option<NodeId> {
        if self.hop_index < self.hops@.len() {
            Some(self.hops@[self.hop_index as int])
        } else {
            None
        }
    }

    /// The final hop of the route, when the route is nonempty.
    pub open spec fn spec_destination(self) -> Option<NodeId> {
        if self.hops@.len() > 0 {
            Some(self.hops@.last())
        } else {
            None
        }
    }

    /// The first hop of the route, when the route is nonempty.
    pub open spec fn spec_source(self) -> Option<NodeId> {
        if self.hops@.len() > 0 {
            Some(self.hops@.first())
        } else {
            None
        }
    }

    /// Whether the packet sits at the final hop of its route.
    pub open spec fn spec_is_last_hop(self) -> bool {
        self.hops@.len() > 0 && self.hop_index == self.hops@.len() - 1
    }

    /// Two headers carry the same route and position.
    pub open spec fn eqv(self, other: SourceRoutingHeader) -> bool {
        self.hops@ == other.hops@ && self.hop_index == other.hop_index
    }

    pub fn new(hops: Vec<NodeId>, hop_index: usize) -> (r: Self)
        ensures
            r.hops@ == hops@,
            r.hop_index == hop_index,
    {
        SourceRoutingHeader { hops, hop_index }
    }

    pub fn current_hop(&self) -> (r: Option<NodeId>)
        ensures
            r == self.spec_current_hop(),
    {
        if self.hop_index < self.hops.len() {
            Some(self.hops[self.hop_index])
        } else {
            None
        }
    }

    pub fn destination(&self) -> (r: Option<NodeId>)
        ensures
            r == self.spec_destination(),
    {
        if self.hops.len() > 0 {
            Some(self.hops[self.hops.len() - 1])
        } else {
            None
        }
    }

    pub fn source(&self) -> (r: Option<NodeId>)
        ensures
            r == self.spec_source(),
    {
        if self.hops.len() > 0 {
            Some(self.hops[0])
        } else {
            None
        }
    }

    pub fn is_last_hop(&self) -> (r: bool)
        ensures
            r == self.spec_is_last_hop(),
    {
        self.hops.len() > 0 && self.hop_index == self.hops.len() - 1
    }

    /// A copy of the header.
    pub fn duplicate(&self) -> (r: Self)
        ensures
            r.eqv(*self),
    {
        SourceRoutingHeader {
            hops: crate::topology::copy_ids(&self.hops),
            hop_index: self.hop_index,
        }
    }
}

/// A fragment of application data: a block of [`FRAGMENT_SIZE`] bytes of
/// which the first `length` are meaningful.
#[derive(Debug)]
pub struct Fragment {
    pub fragment_index: u64,
    pub total_n_fragments: u64,
    pub length: u8,
    pub data: Vec<u8>,
}

impl Fragment {
    /// The data block always spans exactly [`FRAGMENT_SIZE`] bytes and the
    /// meaningful length fits inside it.
    pub open spec fn wf(self) -> bool {
        self.data@.len() == FRAGMENT_SIZE && self.length <= FRAGMENT_SIZE
    }

    pub open spec fn eqv(self, other: Fragment) -> bool {
        &&& self.fragment_index == other.fragment_index
        &&& self.total_n_fragments == other.total_n_fragments
        &&& self.length == other.length
        &&& self.data@ == other.data@
    }

    /// Builds a fragment from raw bytes: up to [`FRAGMENT_SIZE`] bytes are
    /// copied and the rest of the block is zero.
    pub fn from_data(fragment_index: u64, total_n_fragments: u64, raw: &Vec<u8>) -> (r: Self)
        ensures
            r.wf(),
            r.fragment_index == fragment_index,
            r.total_n_fragments == total_n_fragments,
            r.length == (if raw@.len() <= FRAGMENT_SIZE {
                raw@.len() as u8
            } else {
                FRAGMENT_SIZE as u8
            }),
            forall|i: int|
                0 <= i < r.length ==> #[trigger] r.data@[i] == raw@[i],
            forall|i: int| r.length <= i < FRAGMENT_SIZE ==> #[trigger] r.data@[i] == 0,
    {
        let length: usize = if raw.len() <= FRAGMENT_SIZE {
            raw.len()
        } else {
            FRAGMENT_SIZE
        };
        let mut data: Vec<u8> = Vec::new();
        let mut i: usize = 0;
        while i < length
            invariant
                length <= FRAGMENT_SIZE,
                length <= raw@.len(),
                i <= length,
                data@.len() == i,
                forall|k: int| 0 <= k < i ==> #[trigger] data@[k] == raw@[k],
            decreases length - i,
        {
            data.push(raw[i]);
            i = i + 1;
        }
        while i < FRAGMENT_SIZE
            invariant
                length <= i <= FRAGMENT_SIZE,
                data@.len() == i,
                forall|k: int| 0 <= k < length ==> #[trigger] data@[k] == raw@[k],
                forall|k: int| length <= k < i ==> #[trigger] data@[k] == 0,
            decreases FRAGMENT_SIZE - i,
        {
            data.push(0);
            i = i + 1;
        }
        Fragment { fragment_index, total_n_fragments, length: length as u8, data }
    }

    /// A copy of the fragment.
    pub fn duplicate(&self) -> (r: Self)
        ensures
            r.eqv(*self),
    {
        let mut data: Vec<u8> = Vec::new();
        let mut i: usize = 0;
        while i < self.data.len()
            invariant
                i <= self.data@.len(),
                data@ == self.data@.subrange(0, i as int),
            decreases self.data@.len() - i,
        {
            data.push(self.data[i]);
            i = i + 1;
        }
        proof {
            assert(data@ =~= self.data@);
        }
        Fragment {
            fragment_index: self.fragment_index,
            total_n_fragments: self.total_n_fragments,
            length: self.length,
            data,
        }
    }
}

/// Why a fragment was refused.
#[derive(Debug, Clone, Copy, PartialEq, Eq, Structural)]
pub enum NackType {
    ErrorInRouting(NodeId),
    DestinationIsDrone,
    Dropped,
    UnexpectedRecipient(NodeId),
}

/// A negative acknowledgement for one fragment.
#[derive(Debug, Clone, Copy, PartialEq, Eq, Structural)]
pub struct Nack {
    pub fragment_index: u64,
    pub nack_type: NackType,
}

/// A positive acknowledgement for one fragment.
#[derive(Debug, Clone, Copy, PartialEq, Eq, Structural)]
pub struct Ack {
    pub fragment_index: u64,
}

/// A network-discovery request; the trace grows at every node it passes.
#[derive(Debug)]
pub struct FloodRequest {
    pub flood_id: u64,
    pub initiator_id: NodeId,
    pub path_trace: Vec<(NodeId, NodeType)>,
}

/// The answer to a discovery request, retracing the recorded path.
#[derive(Debug)]
pub struct FloodResponse {
    pub flood_id: u64,
    pub path_trace: Vec<(NodeId, NodeType)>,
}

/// The payload of a packet.
#[derive(Debug)]
pub enum PacketType {
    MsgFragment(Fragment),
    Ack(Ack),
    Nack(Nack),
    FloodRequest(FloodRequest),
    FloodResponse(FloodResponse),
}

impl PacketType {
    /// Two payloads carry the same data.
    pub open spec fn eqv(self, other: PacketType) -> bool {
        match (self, other) {
            (PacketType::MsgFragment(a), PacketType::MsgFragment(b)) => a.eqv(b),
            (PacketType::Ack(a), PacketType::Ack(b)) => a == b,
            (PacketType::Nack(a), PacketType::Nack(b)) => a == b,
            (PacketType::FloodRequest(a), PacketType::FloodRequest(b)) => {
                &&& a.flood_id == b.flood_id
                &&& a.initiator_id == b.initiator_id
                &&& a.path_trace@ == b.path_trace@
            }
            (PacketType::FloodResponse(a), PacketType::FloodResponse(b)) => {
                a.flood_id == b.flood_id && a.path_trace@ == b.path_trace@
            }
            _ => false,
        }
    }
}

/// A packet: a source route, a session, and a payload.
#[derive(Debug)]
pub struct Packet {
    pub routing_header: SourceRoutingHeader,
    pub session_id: u64,
    pub pack_type: PacketType,
}

impl Packet {
    /// Two packets carry the same route, session and payload.
    pub open spec fn eqv(self, other: Packet) -> bool {
        &&& self.routing_header.eqv(other.routing_header)
        &&& self.session_id == other.session_id
        &&& self.pack_type.eqv(other.pack_type)
    }

    /// Whether the payload belongs to the classes that drones may never
    /// drop; only these travel through the controller shortcut.
    pub open spec fn spec_is_shortcuttable(self) -> bool {
        self.pack_type matches PacketType::Ack(_) || self.pack_type matches PacketType::Nack(_)
            || self.pack_type matches PacketType::FloodResponse(_)
    }

    pub fn is_shortcuttable(&self) -> (r: bool)
        ensures
            r == self.spec_is_shortcuttable(),
    {
        match &self.pack_type {
            PacketType::Ack(_) => true,
            PacketType::Nack(_) => true,
            PacketType::FloodResponse(_) => true,
            _ => false,
        }
    }

    pub fn new_fragment(routing_header: SourceRoutingHeader, session_id: u64, fragment: Fragment)
        -> (r: Packet)
        ensures
            r.routing_header == routing_header,
            r.session_id == session_id,
            r.pack_type == PacketType::MsgFragment(fragment),
    {
        Packet { routing_header, session_id, pack_type: PacketType::MsgFragment(fragment) }
    }

    pub fn new_ack(routing_header: SourceRoutingHeader, session_id: u64, fragment_index: u64)
        -> (r: Packet)
        ensures
            r.routing_header == routing_header,
            r.session_id == session_id,
            r.pack_type == PacketType::Ack((Ack { fragment_index })),
    {
        Packet { routing_header, session_id, pack_type: PacketType::Ack(Ack { fragment_index }) }
    }

    pub fn new_nack(routing_header: SourceRoutingHeader, session_id: u64, nack: Nack) -> (r:
        Packet)
        ensures
            r.routing_header == routing_header,
            r.session_id == session_id,
            r.pack_type == PacketType::Nack(nack),
    {
        Packet { routing_header, session_id, pack_type: PacketType::Nack(nack) }
    }

    pub fn new_flood_request(
        routing_header: SourceRoutingHeader,
        session_id: u64,
        flood_request: FloodRequest,
    ) -> (r: Packet)
        ensures
            r.routing_header == routing_header,
            r.session_id == session_id,
            r.pack_type == PacketType::FloodRequest(flood_request),
    {
        Packet { routing_header, session_id, pack_type: PacketType::FloodRequest(flood_request) }
    }

    pub fn new_flood_response(
        routing_header: SourceRoutingHeader,
        session_id: u64,
        flood_response: FloodResponse,
    ) -> (r: Packet)
        ensures
            r.routing_header == routing_header,
            r.session_id == session_id,
            r.pack_type == PacketType::FloodResponse(flood_response),
    {
        Packet { routing_header, session_id, pack_type: PacketType::FloodResponse(flood_response) }
    }

    /// A copy of the packet.
    pub fn duplicate(&self) -> (r: Packet)
        ensures
            r.eqv(*self),
    {
        let pack_type = match &self.pack_type {
            PacketType::MsgFragment(f) => PacketType::MsgFragment(f.duplicate()),
            PacketType::Ack(a) => PacketType::Ack(Ack { fragment_index: a.fragment_index }),
            PacketType::Nack(n) => PacketType::Nack(
                Nack { fragment_index: n.fragment_index, nack_type: n.nack_type },
            ),
            PacketType::FloodRequest(f) => PacketType::FloodRequest(
                FloodRequest {
                    flood_id: f.flood_id,
                    initiator_id: f.initiator_id,
                    path_trace: copy_trace(&f.path_trace),
                },
            ),
            PacketType::FloodResponse(f) => PacketType::FloodResponse(
                FloodResponse { flood_id: f.flood_id, path_trace: copy_trace(&f.path_trace) },
            ),
        };
        Packet {
            routing_header: self.routing_header.duplicate(),
            session_id: self.session_id,
            pack_type,
        }
    }
}

/// The routing information of a packet a host reported as sent; payload data
/// is not repeated in events, only its class.
#[derive(Debug)]
pub struct PacketHeader {
    pub routing_header: SourceRoutingHeader,
    pub pack_type: PacketTypeHeader,
}

/// The class of a packet a host reported as sent.
#[derive(Debug, Clone, Copy, PartialEq, Eq, Structural)]
pub enum PacketTypeHeader {
    MsgFragment,
    Ack,
    FloodRequest,
    FloodResponse,
}

/// Copies a discovery path trace.
pub fn copy_trace(v: &Vec<(NodeId, NodeType)>) -> (r: Vec<(NodeId, NodeType)>)
    ensures
        r@ == v@,
{
    let mut r: Vec<(NodeId, NodeType)> = Vec::new();
    let mut i: usize = 0;
    while i < v.len()
        invariant
            i <= v@.len(),
            r@ == v@.subrange(0, i as int),
        decreases v@.len() - i,
    {
        let (id, t) = v[i];
        r.push((id, t));
        i = i + 1;
    }
    proof {
        assert(r@ =~= v@);
    }
    r
}

} // verus!
