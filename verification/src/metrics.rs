//! Traffic metrics: per-drone counters with a rolling drop-rate window,
//! per-host counters with latencies, and the global heatmap of fragment
//! traffic per directed edge.
//!
//! Counters saturate at `u64::MAX` instead of wrapping.  The drop rate of a
//! drone is kept as an exact fraction: the number of failures in the rolling
//! window over the window length, never more than
//! [`ROLLING_WINDOW_SIZE`] samples.

use vstd::prelude::*;

verus! {

use crate::packet::{Packet, PacketHeader, PacketType, PacketTypeHeader};
use crate::topology::NodeType;
use crate::validation::count_false;
use crate::{NodeId, ID_SPACE};

/// Number of fragment outcomes the rolling drop-rate window keeps.
pub const ROLLING_WINDOW_SIZE: usize = 100;

/// Number of cells of the dense heatmap table.
pub const HEATMAP_CELLS: usize = 65536;

/// `x` clamped into a 64-bit counter.
pub open spec fn sat64(x: int) -> u64 {
    if x > u64::MAX {
        u64::MAX
    } else {
        x as u64
    }
}

/// Adds one to a counter, saturating at the top.
pub fn sat_inc(c: &mut u64)
    ensures
        *final(c) == sat64(*old(c) + 1),
{
    if *c < u64::MAX {
        *c = *c + 1;
    }
}

/// The class of a packet, without its data.
#[derive(Debug, Clone, Copy, PartialEq, Eq, Hash, Structural)]
pub enum PacketTypeLabel {
    MsgFragment,
    Ack,
    Nack,
    FloodRequest,
    FloodResponse,
}

/// The class of a full packet payload.
pub open spec fn spec_label_of(pt: PacketType) -> PacketTypeLabel {
    match pt {
        PacketType::MsgFragment(_) => PacketTypeLabel::MsgFragment,
        PacketType::Ack(_) => PacketTypeLabel::Ack,
        PacketType::Nack(_) => PacketTypeLabel::Nack,
        PacketType::FloodRequest(_) => PacketTypeLabel::FloodRequest,
        PacketType::FloodResponse(_) => PacketTypeLabel::FloodResponse,
    }
}

/// The class of a reported packet header.
pub open spec fn spec_label_of_header(pt: PacketTypeHeader) -> PacketTypeLabel {
    match pt {
        PacketTypeHeader::MsgFragment => PacketTypeLabel::MsgFragment,
        PacketTypeHeader::Ack => PacketTypeLabel::Ack,
        PacketTypeHeader::FloodRequest => PacketTypeLabel::FloodRequest,
        PacketTypeHeader::FloodResponse => PacketTypeLabel::FloodResponse,
    }
}

impl PacketTypeLabel {
    pub fn from_packet_type(pt: &PacketType) -> (r: Self)
        ensures
            r == spec_label_of(*pt),
    {
        match pt {
            PacketType::MsgFragment(_) => PacketTypeLabel::MsgFragment,
            PacketType::Ack(_) => PacketTypeLabel::Ack,
            PacketType::Nack(_) => PacketTypeLabel::Nack,
            PacketType::FloodRequest(_) => PacketTypeLabel::FloodRequest,
            PacketType::FloodResponse(_) => PacketTypeLabel::FloodResponse,
        }
    }

    pub fn from_packet_type_header(pt: &PacketTypeHeader) -> (r: Self)
        ensures
            r == spec_label_of_header(*pt),
    {
        match pt {
            PacketTypeHeader::MsgFragment => PacketTypeLabel::MsgFragment,
            PacketTypeHeader::Ack => PacketTypeLabel::Ack,
            PacketTypeHeader::FloodRequest => PacketTypeLabel::FloodRequest,
            PacketTypeHeader::FloodResponse => PacketTypeLabel::FloodResponse,
        }
    }
}

/// How many packets of each class a node has sent.
#[derive(Debug, Clone, Copy, PartialEq, Eq, Structural, Default)]
pub struct PacketCounts {
    pub msg_fragment: u64,
    pub ack: u64,
    pub nack: u64,
    pub flood_request: u64,
    pub flood_response: u64,
}

impl PacketCounts {
    /// The counter of one class.
    pub open spec fn count_of(self, label: PacketTypeLabel) -> u64 {
        match label {
            PacketTypeLabel::MsgFragment => self.msg_fragment,
            PacketTypeLabel::Ack => self.ack,
            PacketTypeLabel::Nack => self.nack,
            PacketTypeLabel::FloodRequest => self.flood_request,
            PacketTypeLabel::FloodResponse => self.flood_response,
        }
    }

    /// The sum of all five counters, as an unbounded integer.
    pub open spec fn total(self) -> int {
        self.msg_fragment + self.ack + self.nack + self.flood_request + self.flood_response
    }

    pub fn new() -> (r: Self)
        ensures
            r == (PacketCounts {
                msg_fragment: 0,
                ack: 0,
                nack: 0,
                flood_request: 0,
                flood_response: 0,
            }),
    {
        PacketCounts { msg_fragment: 0, ack: 0, nack: 0, flood_request: 0, flood_response: 0 }
    }

    pub fn get(&self, label: PacketTypeLabel) -> (r: u64)
        ensures
            r == self.count_of(label),
    {
        match label {
            PacketTypeLabel::MsgFragment => self.msg_fragment,
            PacketTypeLabel::Ack => self.ack,
            PacketTypeLabel::Nack => self.nack,
            PacketTypeLabel::FloodRequest => self.flood_request,
            PacketTypeLabel::FloodResponse => self.flood_response,
        }
    }

    /// Adds one packet of the class, saturating.
    pub fn bump(&mut self, label: PacketTypeLabel)
        ensures
            final(self).count_of(label) == sat64(old(self).count_of(label) + 1),
            forall|l: PacketTypeLabel|
                l != label ==> #[trigger] final(self).count_of(l) == old(self).count_of(l),
    {
        match label {
            PacketTypeLabel::MsgFragment => sat_inc(&mut self.msg_fragment),
            PacketTypeLabel::Ack => sat_inc(&mut self.ack),
            PacketTypeLabel::Nack => sat_inc(&mut self.nack),
            PacketTypeLabel::FloodRequest => sat_inc(&mut self.flood_request),
            PacketTypeLabel::FloodResponse => sat_inc(&mut self.flood_response),
        }
    }

    /// The total number of packets counted, saturating.
    pub fn total_sat(&self) -> (r: u64)
        ensures
            r == sat64(self.total()),
    {
        let mut r: u64 = self.msg_fragment;
        r = sat_add64(r, self.ack);
        r = sat_add64(r, self.nack);
        r = sat_add64(r, self.flood_request);
        r = sat_add64(r, self.flood_response);
        r
    }
}

/// Saturating 64-bit addition.
pub fn sat_add64(a: u64, b: u64) -> (r: u64)
    ensures
        r == sat64(a + b),
{
    if a <= u64::MAX - b {
        a + b
    } else {
        u64::MAX
    }
}

/// One sample of a drone's traffic over time.
#[derive(Debug, Clone, Copy, PartialEq, Eq, Structural)]
pub struct MetricsTimePoint {
    pub timestamp: u64,
    pub sent: u64,
    pub dropped: u64,
}

/// One sample of a host's traffic over time.
#[derive(Debug, Clone, Copy, PartialEq, Eq, Structural)]
pub struct HostMetricsTimePoint {
    pub timestamp: u64,
    pub sent: u64,
    pub acked: u64,
}

/// Counters of one drone.
#[derive(Debug)]
pub struct DroneMetrics {
    /// Fragments the drone has dropped.
    pub drops: u64,
    /// Outcome of the most recent fragments: `true` for a forward, `false`
    /// for a drop; at most [`ROLLING_WINDOW_SIZE`] entries.
    pub rolling_window: Vec<bool>,
    /// Packets the controller delivered for the drone directly.
    pub shortcuts: u64,
    /// Packets the drone has sent, by class.
    pub packet_type_counts: PacketCounts,
    /// Traffic samples, one per fragment outcome.
    pub time_series: Vec<MetricsTimePoint>,
}

/// The rolling window after one more outcome: the outcome is appended and
/// the oldest entry beyond the window size falls out.
pub open spec fn spec_window_push(w: Seq<bool>, successful: bool) -> Seq<bool> {
    let grown = w.push(successful);
    if grown.len() <= ROLLING_WINDOW_SIZE {
        grown
    } else {
        grown.subrange(1, grown.len() as int)
    }
}

/// How `update_pdr` changes a drone's counters: one window sample and one
/// time-series point, everything else untouched.
pub open spec fn rel_update_pdr(o: DroneMetrics, n: DroneMetrics, successful: bool, ts: u64)
    -> bool {
    &&& n.rolling_window@ == spec_window_push(o.rolling_window@, successful)
    &&& n.time_series@ == o.time_series@.push(
        MetricsTimePoint {
            timestamp: ts,
            sent: o.packet_type_counts.msg_fragment,
            dropped: o.drops,
        },
    )
    &&& n.drops == o.drops
    &&& n.shortcuts == o.shortcuts
    &&& n.packet_type_counts == o.packet_type_counts
}

/// How `record_packet` changes a drone's counters: the class counter grows
/// by one, and a fragment also records a successful window sample.
pub open spec fn rel_record_packet(
    o: DroneMetrics,
    n: DroneMetrics,
    label: PacketTypeLabel,
    ts: u64,
) -> bool {
    &&& n.packet_type_counts.count_of(label) == sat64(o.packet_type_counts.count_of(label) + 1)
    &&& forall|l: PacketTypeLabel|
        l != label ==> #[trigger] n.packet_type_counts.count_of(l)
            == o.packet_type_counts.count_of(l)
    &&& n.drops == o.drops
    &&& n.shortcuts == o.shortcuts
    &&& (if label == PacketTypeLabel::MsgFragment {
        &&& n.rolling_window@ == spec_window_push(o.rolling_window@, true)
        &&& n.time_series@ == o.time_series@.push(
            MetricsTimePoint {
                timestamp: ts,
                sent: sat64(o.packet_type_counts.msg_fragment + 1),
                dropped: o.drops,
            },
        )
    } else {
        &&& n.rolling_window@ == o.rolling_window@
        &&& n.time_series@ == o.time_series@
    })
}

impl DroneMetrics {
    /// The window never outgrows its fixed size.
    pub open spec fn wf(self) -> bool {
        self.rolling_window@.len() <= ROLLING_WINDOW_SIZE
    }

    pub fn new() -> (r: Self)
        ensures
            r.wf(),
            r.drops == 0,
            r.rolling_window@.len() == 0,
            r.shortcuts == 0,
            r.packet_type_counts == (PacketCounts {
                msg_fragment: 0,
                ack: 0,
                nack: 0,
                flood_request: 0,
                flood_response: 0,
            }),
            r.time_series@.len() == 0,
    {
        DroneMetrics {
            drops: 0,
            rolling_window: Vec::new(),
            shortcuts: 0,
            packet_type_counts: PacketCounts::new(),
            time_series: Vec::new(),
        }
    }

    /// The current drop rate as an exact fraction: failures in the window
    /// over the window length (zero over zero when no sample exists yet).
    pub fn current_pdr(&self) -> (r: (u64, u64))
        requires
            self.wf(),
        ensures
            r.0 == count_false(self.rolling_window@),
            r.1 == self.rolling_window@.len(),
            r.1 <= ROLLING_WINDOW_SIZE,
            r.0 <= r.1,
    {
        let mut failed: u64 = 0;
        let mut i: usize = 0;
        while i < self.rolling_window.len()
            invariant
                self.wf(),
                i <= self.rolling_window@.len(),
                failed == count_false(self.rolling_window@.subrange(0, i as int)),
                failed as int <= i as int,
            decreases self.rolling_window@.len() - i,
        {
            proof {
                lemma_count_false_step(self.rolling_window@, i as int);
            }
            if !self.rolling_window[i] {
                failed = failed + 1;
            }
            i = i + 1;
        }
        proof {
            assert(self.rolling_window@.subrange(0, self.rolling_window@.len() as int)
                =~= self.rolling_window@);
        }
        (failed, self.rolling_window.len() as u64)
    }

    /// Records one fragment outcome: appends it to the window (dropping the
    /// oldest sample beyond the window size) and appends one time-series
    /// point.
    pub fn update_pdr(&mut self, successful: bool, timestamp: u64)
        requires
            old(self).wf(),
        ensures
            final(self).wf(),
            rel_update_pdr(*old(self), *final(self), successful, timestamp),
    {
        self.rolling_window.push(successful);
        if self.rolling_window.len() > ROLLING_WINDOW_SIZE {
            self.rolling_window.remove(0);
            proof {
                assert(self.rolling_window@ =~= old(self).rolling_window@.push(
                    successful,
                ).subrange(1, old(self).rolling_window@.push(successful).len() as int));
            }
        }
        let point = MetricsTimePoint {
            timestamp,
            sent: self.packet_type_counts.msg_fragment,
            dropped: self.drops,
        };
        self.time_series.push(point);
    }

    /// Records one sent packet of the given class; a fragment also counts as
    /// a successful window sample.
    pub fn record_packet(&mut self, packet_type: PacketTypeLabel, timestamp: u64)
        requires
            old(self).wf(),
        ensures
            final(self).wf(),
            rel_record_packet(*old(self), *final(self), packet_type, timestamp),
    {
        self.packet_type_counts.bump(packet_type);
        match packet_type {
            PacketTypeLabel::MsgFragment => {
                self.update_pdr(true, timestamp);
            }
            _ => {}
        }
    }

    /// Records one packet delivered through the controller shortcut.
    pub fn record_shortcut(&mut self)
        ensures
            final(self).shortcuts == sat64(old(self).shortcuts + 1),
            final(self).drops == old(self).drops,
            final(self).rolling_window@ == old(self).rolling_window@,
            final(self).packet_type_counts == old(self).packet_type_counts,
            final(self).time_series@ == old(self).time_series@,
    {
        sat_inc(&mut self.shortcuts);
    }

    /// The total number of packets the drone has sent.
    pub fn number_of_packets_sent(&self) -> (r: u64)
        ensures
            r == sat64(self.packet_type_counts.total()),
    {
        self.packet_type_counts.total_sat()
    }

    /// The number of fragments the drone has sent.
    pub fn number_of_msg_fragments_sent(&self) -> (r: u64)
        ensures
            r == self.packet_type_counts.msg_fragment,
    {
        self.packet_type_counts.msg_fragment
    }
}

/// The sum of the sent counters of a per-destination table.
pub open spec fn sum_sent(s: Seq<(u64, u64)>) -> int
    decreases s.len(),
{
    if s.len() == 0 {
        0
    } else {
        sum_sent(s.drop_last()) + s.last().0
    }
}

/// The sum of the acked counters of a per-destination table.
pub open spec fn sum_acked(s: Seq<(u64, u64)>) -> int
    decreases s.len(),
{
    if s.len() == 0 {
        0
    } else {
        sum_acked(s.drop_last()) + s.last().1
    }
}

/// How `update_time_series` changes a host's counters: one point holding
/// the current totals, everything else untouched.
pub open spec fn rel_host_time_series(o: HostMetrics, n: HostMetrics, ts: u64) -> bool {
    &&& n.time_series@ == o.time_series@.push(
        HostMetricsTimePoint {
            timestamp: ts,
            sent: sat64(sum_sent(o.dest_stats@)),
            acked: sat64(sum_acked(o.dest_stats@)),
        },
    )
    &&& n.dest_stats@ == o.dest_stats@
    &&& n.shortcuts == o.shortcuts
    &&& n.packet_type_counts == o.packet_type_counts
    &&& n.latencies@ == o.latencies@
}

/// Counters of one host (client or server).
#[derive(Debug)]
pub struct HostMetrics {
    /// Per destination: packets sent to it and acknowledgements received
    /// from it, one slot per possible id.
    pub dest_stats: Vec<(u64, u64)>,
    /// Packets the controller delivered for the host directly.
    pub shortcuts: u64,
    /// Packets the host has sent, by class.
    pub packet_type_counts: PacketCounts,
    /// Round-trip latency of each acknowledged message, in milliseconds.
    pub latencies: Vec<u64>,
    /// Traffic samples, one per fragment sent or message acknowledged.
    pub time_series: Vec<HostMetricsTimePoint>,
}

impl HostMetrics {
    /// The destination table covers the whole id space.
    pub open spec fn wf(self) -> bool {
        self.dest_stats@.len() == ID_SPACE
    }

    /// The `(sent, acked)` pair for one destination.
    pub open spec fn stats_of(self, dest: NodeId) -> (u64, u64) {
        self.dest_stats@[dest as int]
    }

    pub fn new() -> (r: Self)
        ensures
            r.wf(),
            forall|d: NodeId| #[trigger] r.stats_of(d) == (0u64, 0u64),
            r.shortcuts == 0,
            r.packet_type_counts == (PacketCounts {
                msg_fragment: 0,
                ack: 0,
                nack: 0,
                flood_request: 0,
                flood_response: 0,
            }),
            r.latencies@.len() == 0,
            r.time_series@.len() == 0,
    {
        let mut dest_stats: Vec<(u64, u64)> = Vec::new();
        let mut i: usize = 0;
        while i < ID_SPACE
            invariant
                i <= ID_SPACE,
                dest_stats@.len() == i,
                forall|k: int| 0 <= k < i ==> #[trigger] dest_stats@[k] == (0u64, 0u64),
            decreases ID_SPACE - i,
        {
            dest_stats.push((0, 0));
            i = i + 1;
        }
        HostMetrics {
            dest_stats,
            shortcuts: 0,
            packet_type_counts: PacketCounts::new(),
            latencies: Vec::new(),
            time_series: Vec::new(),
        }
    }

    /// Appends one time-series point holding the current totals.
    fn update_time_series(&mut self, timestamp: u64)
        requires
            old(self).wf(),
        ensures
            final(self).wf(),
            rel_host_time_series(*old(self), *final(self), timestamp),
    {
        let mut sent: u64 = 0;
        let mut acked: u64 = 0;
        let mut i: usize = 0;
        while i < self.dest_stats.len()
            invariant
                self.wf(),
                i <= self.dest_stats@.len(),
                sent == sat64(sum_sent(self.dest_stats@.subrange(0, i as int))),
                acked == sat64(sum_acked(self.dest_stats@.subrange(0, i as int))),
            decreases self.dest_stats@.len() - i,
        {
            let (s, a) = self.dest_stats[i];
            proof {
                lemma_sum_step(self.dest_stats@, i as int);
                lemma_sum_nonneg(self.dest_stats@.subrange(0, i as int));
                lemma_sat64_chain(sum_sent(self.dest_stats@.subrange(0, i as int)), s);
                lemma_sat64_chain(sum_acked(self.dest_stats@.subrange(0, i as int)), a);
            }
            sent = sat_add64(sent, s);
            acked = sat_add64(acked, a);
            i = i + 1;
        }
        proof {
            assert(self.dest_stats@.subrange(0, self.dest_stats@.len() as int)
                =~= self.dest_stats@);
        }
        let point = HostMetricsTimePoint { timestamp, sent, acked };
        self.time_series.push(point);
    }

    /// Records one sent packet towards a destination; a fragment also adds a
    /// time-series point.
    pub fn record_packet(&mut self, dest: NodeId, packet_type: PacketTypeLabel, timestamp: u64)
        requires
            old(self).wf(),
        ensures
            final(self).wf(),
            final(self).stats_of(dest).0 == sat64(old(self).stats_of(dest).0 + 1),
            final(self).stats_of(dest).1 == old(self).stats_of(dest).1,
            forall|d: NodeId|
                d != dest ==> #[trigger] final(self).stats_of(d) == old(self).stats_of(d),
            final(self).packet_type_counts.count_of(packet_type) == sat64(
                old(self).packet_type_counts.count_of(packet_type) + 1,
            ),
            forall|l: PacketTypeLabel|
                l != packet_type ==> #[trigger] final(self).packet_type_counts.count_of(l) == old(self).packet_type_counts.count_of(l),
            final(self).shortcuts == old(self).shortcuts,
            final(self).latencies@ == old(self).latencies@,
            packet_type == PacketTypeLabel::MsgFragment ==> final(self).time_series@ == old(self).time_series@.push(
                (HostMetricsTimePoint {
                    timestamp,
                    sent: sat64(sum_sent(final(self).dest_stats@)),
                    acked: sat64(sum_acked(final(self).dest_stats@)),
                }),
            ),
            packet_type != PacketTypeLabel::MsgFragment ==> final(self).time_series@ == old(self).time_series@,
    {
        let slot = &mut self.dest_stats[dest as usize];
        let (s, a) = *slot;
        *slot = (if s < u64::MAX {
            s + 1
        } else {
            s
        }, a);
        self.packet_type_counts.bump(packet_type);
        match packet_type {
            PacketTypeLabel::MsgFragment => {
                self.update_time_series(timestamp);
            }
            _ => {}
        }
        proof {
            assert forall|d: NodeId| d != dest implies #[trigger] self.stats_of(d) == old(self).stats_of(d) by {
                assert(self.dest_stats@[d as int] == old(self).dest_stats@[d as int]);
            }
        }
    }

    /// Records one acknowledgement received from a source host.
    pub fn record_ack(&mut self, src: NodeId, timestamp: u64)
        requires
            old(self).wf(),
        ensures
            final(self).wf(),
            final(self).stats_of(src).1 == sat64(old(self).stats_of(src).1 + 1),
            final(self).stats_of(src).0 == old(self).stats_of(src).0,
            forall|d: NodeId|
                d != src ==> #[trigger] final(self).stats_of(d) == old(self).stats_of(d),
            final(self).packet_type_counts == old(self).packet_type_counts,
            final(self).shortcuts == old(self).shortcuts,
            final(self).latencies@ == old(self).latencies@,
            final(self).time_series@ == old(self).time_series@.push(
                (HostMetricsTimePoint {
                    timestamp,
                    sent: sat64(sum_sent(final(self).dest_stats@)),
                    acked: sat64(sum_acked(final(self).dest_stats@)),
                }),
            ),
    {
        let slot = &mut self.dest_stats[src as usize];
        let (s, a) = *slot;
        *slot = (s, if a < u64::MAX {
            a + 1
        } else {
            a
        });
        self.update_time_series(timestamp);
        proof {
            assert forall|d: NodeId| d != src implies #[trigger] self.stats_of(d) == old(self).stats_of(d) by {
                assert(self.dest_stats@[d as int] == old(self).dest_stats@[d as int]);
            }
        }
    }

    /// Records one packet delivered through the controller shortcut.
    pub fn record_shortcut(&mut self)
        ensures
            final(self).shortcuts == sat64(old(self).shortcuts + 1),
            final(self).dest_stats@ == old(self).dest_stats@,
            final(self).packet_type_counts == old(self).packet_type_counts,
            final(self).latencies@ == old(self).latencies@,
            final(self).time_series@ == old(self).time_series@,
    {
        sat_inc(&mut self.shortcuts);
    }

    /// Records the latency of one acknowledged message, in milliseconds.
    pub fn record_latency(&mut self, latency_ms: u64)
        ensures
            final(self).latencies@ == old(self).latencies@.push(latency_ms),
            final(self).dest_stats@ == old(self).dest_stats@,
            final(self).shortcuts == old(self).shortcuts,
            final(self).packet_type_counts == old(self).packet_type_counts,
            final(self).time_series@ == old(self).time_series@,
    {
        self.latencies.push(latency_ms);
    }

    /// The total number of packets the host has sent.
    pub fn number_of_packets_sent(&self) -> (r: u64)
        ensures
            r == sat64(self.packet_type_counts.total()),
    {
        self.packet_type_counts.total_sat()
    }

    /// The number of fragments the host has sent.
    pub fn number_of_fragments_sent(&self) -> (r: u64)
        ensures
            r == self.packet_type_counts.msg_fragment,
    {
        self.packet_type_counts.msg_fragment
    }

    /// The number of messages acknowledged end to end.
    pub fn number_of_messages_sent(&self) -> (r: u64)
        ensures
            r == self.latencies@.len(),
    {
        self.latencies.len() as u64
    }

    /// The total number of acknowledgements received.
    pub fn number_of_packets_acked(&self) -> (r: u64)
        requires
            self.wf(),
        ensures
            r == sat64(sum_acked(self.dest_stats@)),
    {
        let mut acked: u64 = 0;
        let mut i: usize = 0;
        while i < self.dest_stats.len()
            invariant
                i <= self.dest_stats@.len(),
                acked == sat64(sum_acked(self.dest_stats@.subrange(0, i as int))),
            decreases self.dest_stats@.len() - i,
        {
            let (_s, a) = self.dest_stats[i];
            proof {
                lemma_sum_step(self.dest_stats@, i as int);
                lemma_sum_nonneg(self.dest_stats@.subrange(0, i as int));
                lemma_sat64_chain(sum_acked(self.dest_stats@.subrange(0, i as int)), a);
            }
            acked = sat_add64(acked, a);
            i = i + 1;
        }
        proof {
            assert(self.dest_stats@.subrange(0, self.dest_stats@.len() as int)
                =~= self.dest_stats@);
        }
        acked
    }
}

/// Sums of unsigned counters are never negative.
pub proof fn lemma_sum_nonneg(s: Seq<(u64, u64)>)
    ensures
        sum_sent(s) >= 0,
        sum_acked(s) >= 0,
    decreases s.len(),
{
    if s.len() > 0 {
        lemma_sum_nonneg(s.drop_last());
    }
}

/// Clamping before adding gives the same clamped total.
pub proof fn lemma_sat64_chain(p: int, x: u64)
    requires
        p >= 0,
    ensures
        sat64(sat64(p) + x) == sat64(p + x),
{
}

/// One element more of a partial sum over a destination table.
pub proof fn lemma_sum_step(s: Seq<(u64, u64)>, i: int)
    requires
        0 <= i < s.len(),
    ensures
        sum_sent(s.subrange(0, i + 1)) == sum_sent(s.subrange(0, i)) + s[i].0,
        sum_acked(s.subrange(0, i + 1)) == sum_acked(s.subrange(0, i)) + s[i].1,
{
    let a = s.subrange(0, i + 1);
    assert(a.drop_last() =~= s.subrange(0, i));
    assert(a.last() == s[i]);
}

/// How a host's counters change when it reports one sent packet.
pub open spec fn rel_host_record_packet(
    o: HostMetrics,
    n: HostMetrics,
    dest: NodeId,
    label: PacketTypeLabel,
    ts: u64,
) -> bool {
    &&& n.stats_of(dest).0 == sat64(o.stats_of(dest).0 + 1)
    &&& n.stats_of(dest).1 == o.stats_of(dest).1
    &&& forall|d: NodeId| d != dest ==> #[trigger] n.stats_of(d) == o.stats_of(d)
    &&& n.packet_type_counts.count_of(label) == sat64(o.packet_type_counts.count_of(label) + 1)
    &&& forall|l: PacketTypeLabel|
        l != label ==> #[trigger] n.packet_type_counts.count_of(l)
            == o.packet_type_counts.count_of(l)
    &&& n.shortcuts == o.shortcuts
    &&& n.latencies@ == o.latencies@
    &&& (label == PacketTypeLabel::MsgFragment ==> n.time_series@ == o.time_series@.push(
        (HostMetricsTimePoint {
            timestamp: ts,
            sent: sat64(sum_sent(n.dest_stats@)),
            acked: sat64(sum_acked(n.dest_stats@)),
        }),
    ))
    &&& (label != PacketTypeLabel::MsgFragment ==> n.time_series@ == o.time_series@)
}

/// How a host's counters change when an acknowledgement for it arrives.
pub open spec fn rel_record_ack(o: HostMetrics, n: HostMetrics, src: NodeId, ts: u64) -> bool {
    &&& n.stats_of(src).1 == sat64(o.stats_of(src).1 + 1)
    &&& n.stats_of(src).0 == o.stats_of(src).0
    &&& forall|d: NodeId| d != src ==> #[trigger] n.stats_of(d) == o.stats_of(d)
    &&& n.packet_type_counts == o.packet_type_counts
    &&& n.shortcuts == o.shortcuts
    &&& n.latencies@ == o.latencies@
    &&& n.time_series@ == o.time_series@.push(
        (HostMetricsTimePoint {
            timestamp: ts,
            sent: sat64(sum_sent(n.dest_stats@)),
            acked: sat64(sum_acked(n.dest_stats@)),
        }),
    )
}

/// How a drone's counters change when it reports one dropped fragment: the
/// drop counter grows, the window records a failure, and the new time-series
/// point carries the new drop count.
pub open spec fn rel_packet_dropped(o: DroneMetrics, n: DroneMetrics, ts: u64) -> bool {
    &&& n.drops == sat64(o.drops + 1)
    &&& n.rolling_window@ == spec_window_push(o.rolling_window@, false)
    &&& n.time_series@ == o.time_series@.push(
        (MetricsTimePoint {
            timestamp: ts,
            sent: o.packet_type_counts.msg_fragment,
            dropped: sat64(o.drops + 1),
        }),
    )
    &&& n.shortcuts == o.shortcuts
    &&& n.packet_type_counts == o.packet_type_counts
}

/// The dense cell of the heatmap counting traffic from `src` to `dst`.
pub open spec fn heat_index(src: NodeId, dst: NodeId) -> int {
    src as int * 256 + dst as int
}

/// The traffic metrics of the whole simulation.
#[derive(Debug)]
pub struct Metrics {
    /// Fragments sent per directed edge, one cell per `(source, target)`
    /// pair of ids.
    pub global_heatmap: Vec<u64>,
    /// Counters of each drone, one slot per possible id.
    pub drone_metrics: Vec<Option<DroneMetrics>>,
    /// Counters of each host, one slot per possible id.
    pub host_metrics: Vec<Option<HostMetrics>>,
}

impl Metrics {
    pub open spec fn wf(self) -> bool {
        &&& self.global_heatmap@.len() == HEATMAP_CELLS
        &&& self.drone_metrics@.len() == ID_SPACE
        &&& self.host_metrics@.len() == ID_SPACE
        &&& forall|n: NodeId|
            (#[trigger] self.drone_metrics@[n as int]) matches Some(d) ==> d.wf()
        &&& forall|n: NodeId| (#[trigger] self.host_metrics@[n as int]) matches Some(h) ==> h.wf()
    }

    /// The heatmap cell for one directed edge.
    pub open spec fn heat_at(self, src: NodeId, dst: NodeId) -> u64 {
        self.global_heatmap@[heat_index(src, dst)]
    }

    /// The counters of one drone, if it is registered.
    pub open spec fn drone_at(self, n: NodeId) -> Option<DroneMetrics> {
        self.drone_metrics@[n as int]
    }

    /// The counters of one host, if it is registered.
    pub open spec fn host_at(self, n: NodeId) -> Option<HostMetrics> {
        self.host_metrics@[n as int]
    }

    /// Fresh metrics: an all-zero heatmap and no registered node.
    pub fn new() -> (r: Self)
        ensures
            r.wf(),
            forall|s: NodeId, d: NodeId| #[trigger] r.heat_at(s, d) == 0,
            forall|n: NodeId| #[trigger] r.drone_at(n) is None,
            forall|n: NodeId| #[trigger] r.host_at(n) is None,
    {
        let mut global_heatmap: Vec<u64> = Vec::new();
        let mut i: usize = 0;
        while i < HEATMAP_CELLS
            invariant
                i <= HEATMAP_CELLS,
                global_heatmap@.len() == i,
                forall|k: int| 0 <= k < i ==> #[trigger] global_heatmap@[k] == 0,
            decreases HEATMAP_CELLS - i,
        {
            global_heatmap.push(0);
            i = i + 1;
        }
        let mut drone_metrics: Vec<Option<DroneMetrics>> = Vec::new();
        let mut host_metrics: Vec<Option<HostMetrics>> = Vec::new();
        let mut i: usize = 0;
        while i < ID_SPACE
            invariant
                i <= ID_SPACE,
                drone_metrics@.len() == i,
                host_metrics@.len() == i,
                forall|k: int| 0 <= k < i ==> #[trigger] drone_metrics@[k] is None,
                forall|k: int| 0 <= k < i ==> #[trigger] host_metrics@[k] is None,
            decreases ID_SPACE - i,
        {
            drone_metrics.push(None);
            host_metrics.push(None);
            i = i + 1;
        }
        Metrics { global_heatmap, drone_metrics, host_metrics }
    }

    /// Registers one node: drones get drone counters, hosts get host
    /// counters.
    pub fn insert_node(&mut self, node_id: NodeId, node_type: NodeType)
        requires
            old(self).wf(),
        ensures
            final(self).wf(),
            final(self).global_heatmap@ == old(self).global_heatmap@,
            node_type == NodeType::Drone ==> {
                &&& (final(self).drone_at(node_id) matches Some(d) && d.drops == 0
                    && d.rolling_window@.len() == 0 && d.shortcuts == 0
                    && d.packet_type_counts.total() == 0 && d.time_series@.len() == 0)
                &&& final(self).host_metrics@ == old(self).host_metrics@
                &&& forall|n: NodeId|
                    n != node_id ==> #[trigger] final(self).drone_at(n) == old(self).drone_at(n)
            },
            node_type != NodeType::Drone ==> {
                &&& (final(self).host_at(node_id) matches Some(h) && h.shortcuts == 0
                    && h.packet_type_counts.total() == 0 && h.latencies@.len() == 0
                    && h.time_series@.len() == 0 && forall|d: NodeId|
                    #[trigger] h.stats_of(d) == (0u64, 0u64))
                &&& final(self).drone_metrics@ == old(self).drone_metrics@
                &&& forall|n: NodeId|
                    n != node_id ==> #[trigger] final(self).host_at(n) == old(self).host_at(n)
            },
    {
        match node_type {
            NodeType::Drone => {
                let slot = &mut self.drone_metrics[node_id as usize];
                *slot = Some(DroneMetrics::new());
            }
            NodeType::Client | NodeType::Server => {
                let slot = &mut self.host_metrics[node_id as usize];
                *slot = Some(HostMetrics::new());
            }
        }
    }

    /// Adds one fragment to the heatmap cell of a directed edge.
    fn update_global_heatmap(&mut self, src: NodeId, dest: NodeId)
        requires
            old(self).wf(),
        ensures
            final(self).wf(),
            final(self).global_heatmap@ == old(self).global_heatmap@.update(
                heat_index(src, dest),
                sat64(old(self).heat_at(src, dest) + 1),
            ),
            final(self).drone_metrics@ == old(self).drone_metrics@,
            final(self).host_metrics@ == old(self).host_metrics@,
    {
        let idx: usize = (src as usize) * ID_SPACE + (dest as usize);
        let slot = &mut self.global_heatmap[idx];
        let v = *slot;
        *slot = if v < u64::MAX {
            v + 1
        } else {
            v
        };
    }

    /// Projects a drone's `PacketSent` event onto the metrics: the drone's
    /// class counter grows; a fragment with a next hop from a registered
    /// drone also bumps the heatmap (so counter and heatmap move in step),
    /// and an acknowledgement arriving at its final hop credits the
    /// destination host.
    pub fn update_drone_packet_sent(&mut self, node_id: NodeId, packet: &Packet, timestamp: u64)
        requires
            old(self).wf(),
        ensures
            final(self).wf(),
            ({
                let label = spec_label_of(packet.pack_type);
                let hop = packet.routing_header.spec_current_hop();
                let hdr = packet.routing_header;
                &&& (old(self).drone_at(node_id) matches Some(o) ==> (final(self).drone_at(node_id)
                    matches Some(n) && rel_record_packet(o, n, label, timestamp)))
                &&& (old(self).drone_at(node_id) is None ==> final(self).drone_at(node_id) is None)
                &&& forall|x: NodeId|
                    x != node_id ==> #[trigger] final(self).drone_at(x) == old(self).drone_at(x)
                &&& (if label == PacketTypeLabel::MsgFragment && hop is Some && old(
                    self,
                ).drone_at(node_id) is Some {
                    final(self).global_heatmap@ == old(self).global_heatmap@.update(
                        heat_index(node_id, hop.unwrap()),
                        sat64(old(self).heat_at(node_id, hop.unwrap()) + 1),
                    )
                } else {
                    final(self).global_heatmap@ == old(self).global_heatmap@
                })
                &&& (if label == PacketTypeLabel::Ack && hdr.spec_is_last_hop()
                    && hdr.spec_destination() is Some && hdr.spec_source() is Some && old(
                    self,
                ).host_at(hdr.spec_destination().unwrap()) is Some {
                    let dst = hdr.spec_destination().unwrap();
                    &&& (final(self).host_at(dst) matches Some(nh) && rel_record_ack(
                        old(self).host_at(dst).unwrap(),
                        nh,
                        hdr.spec_source().unwrap(),
                        timestamp,
                    ))
                    &&& forall|x: NodeId|
                        x != dst ==> #[trigger] final(self).host_at(x) == old(self).host_at(x)
                } else {
                    final(self).host_metrics@ == old(self).host_metrics@
                })
            }),
    {
        let label = PacketTypeLabel::from_packet_type(&packet.pack_type);
        let registered = self.drone_metrics[node_id as usize].is_some();
        let slot = &mut self.drone_metrics[node_id as usize];
        match slot {
            Some(dm) => {
                dm.record_packet(label, timestamp);
            }
            None => {}
        }
        proof {
            assert forall|x: NodeId|
                x != node_id implies #[trigger] self.drone_at(x) == old(self).drone_at(x) by {
                assert(self.drone_metrics@[x as int] == old(self).drone_metrics@[x as int]);
            }
        }
        if matches!(label, PacketTypeLabel::MsgFragment) {
            match packet.routing_header.current_hop() {
                Some(current_hop) => {
                    // an unregistered sender must not move the heatmap: the
                    // fragment counter and the heatmap move in step
                    if registered {
                        self.update_global_heatmap(node_id, current_hop);
                    }
                }
                None => {}
            }
        } else if matches!(label, PacketTypeLabel::Ack) && packet.routing_header.is_last_hop() {
            match packet.routing_header.destination() {
                Some(destination) => {
                    let has_host = self.host_metrics[destination as usize].is_some();
                    if has_host {
                        match packet.routing_header.source() {
                            Some(source) => {
                                let hslot = &mut self.host_metrics[destination as usize];
                                match hslot {
                                    Some(hm) => {
                                        hm.record_ack(source, timestamp);
                                    }
                                    None => {}
                                }
                                proof {
                                    assert forall|x: NodeId|
                                        x != destination implies #[trigger] self.host_at(x) == old(self).host_at(x) by {
                                        assert(self.host_metrics@[x as int] == old(self).host_metrics@[x as int]);
                                    }
                                }
                            }
                            None => {}
                        }
                    }
                }
                None => {}
            }
        }
    }

    /// Projects a drone's `PacketDropped` event onto the metrics.
    pub fn update_drone_packet_dropped(&mut self, node_id: NodeId, _packet: &Packet, timestamp: u64)
        requires
            old(self).wf(),
        ensures
            final(self).wf(),
            (old(self).drone_at(node_id) matches Some(o) ==> (final(self).drone_at(node_id)
                matches Some(n) && rel_packet_dropped(o, n, timestamp))),
            (old(self).drone_at(node_id) is None ==> final(self).drone_at(node_id) is None),
            forall|x: NodeId|
                x != node_id ==> #[trigger] final(self).drone_at(x) == old(self).drone_at(x),
            final(self).global_heatmap@ == old(self).global_heatmap@,
            final(self).host_metrics@ == old(self).host_metrics@,
    {
        let slot = &mut self.drone_metrics[node_id as usize];
        match slot {
            Some(dm) => {
                sat_inc(&mut dm.drops);
                dm.update_pdr(false, timestamp);
            }
            None => {}
        }
        proof {
            assert forall|x: NodeId|
                x != node_id implies #[trigger] self.drone_at(x) == old(self).drone_at(x) by {
                assert(self.drone_metrics@[x as int] == old(self).drone_metrics@[x as int]);
            }
        }
    }

    /// Projects a host's end-to-end acknowledged message onto the metrics.
    pub fn update_host_message_sent(
        &mut self,
        node_id: NodeId,
        _destination: NodeId,
        latency_ms: u64,
    )
        requires
            old(self).wf(),
        ensures
            final(self).wf(),
            (old(self).host_at(node_id) matches Some(o) ==> (final(self).host_at(node_id)
                matches Some(n) && n.latencies@ == o.latencies@.push(latency_ms)
                && n.dest_stats@ == o.dest_stats@ && n.shortcuts == o.shortcuts
                && n.packet_type_counts == o.packet_type_counts
                && n.time_series@ == o.time_series@)),
            (old(self).host_at(node_id) is None ==> final(self).host_at(node_id) is None),
            forall|x: NodeId|
                x != node_id ==> #[trigger] final(self).host_at(x) == old(self).host_at(x),
            final(self).global_heatmap@ == old(self).global_heatmap@,
            final(self).drone_metrics@ == old(self).drone_metrics@,
    {
        let slot = &mut self.host_metrics[node_id as usize];
        match slot {
            Some(hm) => {
                hm.record_latency(latency_ms);
            }
            None => {}
        }
        proof {
            assert forall|x: NodeId|
                x != node_id implies #[trigger] self.host_at(x) == old(self).host_at(x) by {
                assert(self.host_metrics@[x as int] == old(self).host_metrics@[x as int]);
            }
        }
    }

    /// Projects a host's `PacketSent` event onto the metrics; a fragment
    /// with a next hop also bumps the heatmap.
    pub fn update_host_packet_sent(&mut self, node_id: NodeId, packet_header: &PacketHeader, timestamp: u64)
        requires
            old(self).wf(),
        ensures
            final(self).wf(),
            ({
                let label = spec_label_of_header(packet_header.pack_type);
                let hdr = packet_header.routing_header;
                &&& (if old(self).host_at(node_id) is Some && hdr.spec_destination() is Some {
                    final(self).host_at(node_id) matches Some(n) && rel_host_record_packet(
                        old(self).host_at(node_id).unwrap(),
                        n,
                        hdr.spec_destination().unwrap(),
                        label,
                        timestamp,
                    )
                } else {
                    final(self).host_at(node_id) == old(self).host_at(node_id)
                })
                &&& forall|x: NodeId|
                    x != node_id ==> #[trigger] final(self).host_at(x) == old(self).host_at(x)
                &&& (if label == PacketTypeLabel::MsgFragment && hdr.spec_current_hop() is Some {
                    final(self).global_heatmap@ == old(self).global_heatmap@.update(
                        heat_index(node_id, hdr.spec_current_hop().unwrap()),
                        sat64(old(self).heat_at(node_id, hdr.spec_current_hop().unwrap()) + 1),
                    )
                } else {
                    final(self).global_heatmap@ == old(self).global_heatmap@
                })
                &&& final(self).drone_metrics@ == old(self).drone_metrics@
            }),
    {
        let label = PacketTypeLabel::from_packet_type_header(&packet_header.pack_type);
        let has_host = self.host_metrics[node_id as usize].is_some();
        if has_host {
            match packet_header.routing_header.destination() {
                Some(destination) => {
                    let slot = &mut self.host_metrics[node_id as usize];
                    match slot {
                        Some(hm) => {
                            hm.record_packet(destination, label, timestamp);
                        }
                        None => {}
                    }
                }
                None => {}
            }
        }
        proof {
            assert forall|x: NodeId|
                x != node_id implies #[trigger] self.host_at(x) == old(self).host_at(x) by {
                assert(self.host_metrics@[x as int] == old(self).host_metrics@[x as int]);
            }
        }
        match packet_header.routing_header.current_hop() {
            Some(current_hop) => {
                if matches!(packet_header.pack_type, PacketTypeHeader::MsgFragment) {
                    self.update_global_heatmap(node_id, current_hop);
                }
            }
            None => {}
        }
    }

    /// Credits a drone with one controller-shortcut delivery.
    pub fn record_drone_shortcut(&mut self, node_id: NodeId)
        requires
            old(self).wf(),
        ensures
            final(self).wf(),
            (old(self).drone_at(node_id) matches Some(o) ==> (final(self).drone_at(node_id)
                matches Some(n) && n.shortcuts == sat64(o.shortcuts + 1) && n.drops == o.drops
                && n.rolling_window@ == o.rolling_window@ && n.packet_type_counts
                == o.packet_type_counts && n.time_series@ == o.time_series@)),
            (old(self).drone_at(node_id) is None ==> final(self).drone_at(node_id) is None),
            forall|x: NodeId|
                x != node_id ==> #[trigger] final(self).drone_at(x) == old(self).drone_at(x),
            final(self).global_heatmap@ == old(self).global_heatmap@,
            final(self).host_metrics@ == old(self).host_metrics@,
    {
        let slot = &mut self.drone_metrics[node_id as usize];
        match slot {
            Some(dm) => {
                dm.record_shortcut();
            }
            None => {}
        }
        proof {
            assert forall|x: NodeId|
                x != node_id implies #[trigger] self.drone_at(x) == old(self).drone_at(x) by {
                assert(self.drone_metrics@[x as int] == old(self).drone_metrics@[x as int]);
            }
        }
    }

    /// Credits a host with one controller-shortcut delivery.
    pub fn record_host_shortcut(&mut self, node_id: NodeId)
        requires
            old(self).wf(),
        ensures
            final(self).wf(),
            (old(self).host_at(node_id) matches Some(o) ==> (final(self).host_at(node_id)
                matches Some(n) && n.shortcuts == sat64(o.shortcuts + 1) && n.dest_stats@
                == o.dest_stats@ && n.packet_type_counts == o.packet_type_counts && n.latencies@
                == o.latencies@ && n.time_series@ == o.time_series@)),
            (old(self).host_at(node_id) is None ==> final(self).host_at(node_id) is None),
            forall|x: NodeId|
                x != node_id ==> #[trigger] final(self).host_at(x) == old(self).host_at(x),
            final(self).global_heatmap@ == old(self).global_heatmap@,
            final(self).drone_metrics@ == old(self).drone_metrics@,
    {
        let slot = &mut self.host_metrics[node_id as usize];
        match slot {
            Some(hm) => {
                hm.record_shortcut();
            }
            None => {}
        }
        proof {
            assert forall|x: NodeId|
                x != node_id implies #[trigger] self.host_at(x) == old(self).host_at(x) by {
                assert(self.host_metrics@[x as int] == old(self).host_metrics@[x as int]);
            }
        }
    }
}

/// The sum of a sequence of counters.
pub open spec fn sum_u64(s: Seq<u64>) -> int
    decreases s.len(),
{
    if s.len() == 0 {
        0
    } else {
        sum_u64(s.drop_last()) + s.last()
    }
}

/// The total number of fragments the drones have reported as sent.
pub open spec fn drone_frag_count(s: Seq<Option<DroneMetrics>>) -> int
    decreases s.len(),
{
    if s.len() == 0 {
        0
    } else {
        drone_frag_count(s.drop_last()) + (match s.last() {
            Some(d) => d.packet_type_counts.msg_fragment as int,
            None => 0,
        })
    }
}

impl Metrics {
    /// The grand total of the heatmap.
    pub open spec fn heat_total(self) -> int {
        sum_u64(self.global_heatmap@)
    }

    /// The grand total of fragments sent by drones.
    pub open spec fn drone_frag_total(self) -> int {
        drone_frag_count(self.drone_metrics@)
    }
}

/// Updating one counter of a sum changes the sum by the difference.
pub proof fn lemma_sum_u64_update(s: Seq<u64>, i: int, v: u64)
    requires
        0 <= i < s.len(),
    ensures
        sum_u64(s.update(i, v)) == sum_u64(s) - s[i] + v,
    decreases s.len(),
{
    let t = s.update(i, v);
    if i == s.len() - 1 {
        assert(t.drop_last() =~= s.drop_last());
        assert(t.last() == v);
    } else {
        assert(t.drop_last() =~= s.drop_last().update(i, v));
        lemma_sum_u64_update(s.drop_last(), i, v);
        assert(t.last() == s.last());
    }
}

/// Updating one drone slot changes the fragment total by the difference of
/// that drone's fragment counter.
pub proof fn lemma_drone_frag_update(
    s: Seq<Option<DroneMetrics>>,
    i: int,
    o: DroneMetrics,
    n: DroneMetrics,
)
    requires
        0 <= i < s.len(),
        s[i] == Some(o),
    ensures
        drone_frag_count(s.update(i, Some(n))) == drone_frag_count(s)
            - o.packet_type_counts.msg_fragment + n.packet_type_counts.msg_fragment,
    decreases s.len(),
{
    let t = s.update(i, Some(n));
    if i == s.len() - 1 {
        assert(t.drop_last() =~= s.drop_last());
        assert(t.last() == Some(n));
    } else {
        assert(t.drop_last() =~= s.drop_last().update(i, Some(n)));
        lemma_drone_frag_update(s.drop_last(), i, o, n);
        assert(t.last() == s.last());
    }
}

/// Law: projecting one fragment `PacketSent` event of a registered drone
/// whose packet names a next hop adds exactly one to the drone fragment
/// total and exactly one to the heatmap total, so the two totals move in
/// step, as long as neither counter saturates.
pub proof fn lemma_fragment_send_keeps_totals_in_step(
    m0: Metrics,
    m1: Metrics,
    node_id: NodeId,
    packet: Packet,
    timestamp: u64,
)
    requires
        m0.wf(),
        m1.wf(),
        spec_label_of(packet.pack_type) == PacketTypeLabel::MsgFragment,
        packet.routing_header.spec_current_hop() is Some,
        m0.drone_at(node_id) is Some,
        m0.drone_at(node_id).unwrap().packet_type_counts.msg_fragment < u64::MAX,
        m0.heat_at(node_id, packet.routing_header.spec_current_hop().unwrap()) < u64::MAX,
        // how `update_drone_packet_sent` relates the two states
        (m1.drone_at(node_id) matches Some(n) && rel_record_packet(
            m0.drone_at(node_id).unwrap(),
            n,
            spec_label_of(packet.pack_type),
            timestamp,
        )),
        forall|x: NodeId| x != node_id ==> #[trigger] m1.drone_at(x) == m0.drone_at(x),
        m1.global_heatmap@ == m0.global_heatmap@.update(
            heat_index(node_id, packet.routing_header.spec_current_hop().unwrap()),
            sat64(m0.heat_at(node_id, packet.routing_header.spec_current_hop().unwrap()) + 1),
        ),
    ensures
        m1.drone_frag_total() == m0.drone_frag_total() + 1,
        m1.heat_total() == m0.heat_total() + 1,
{
    let ch = packet.routing_header.spec_current_hop().unwrap();
    let o = m0.drone_at(node_id).unwrap();
    let n = m1.drone_at(node_id).unwrap();
    assert(n.packet_type_counts.msg_fragment == o.packet_type_counts.msg_fragment + 1);
    assert(m1.drone_metrics@ =~= m0.drone_metrics@.update(node_id as int, Some(n))) by {
        assert forall|k: int| 0 <= k < ID_SPACE implies m1.drone_metrics@[k]
            == m0.drone_metrics@.update(node_id as int, Some(n))[k] by {
            if k != node_id as int {
                assert(m1.drone_at(k as NodeId) == m0.drone_at(k as NodeId));
            }
        }
    }
    lemma_drone_frag_update(m0.drone_metrics@, node_id as int, o, n);
    lemma_sum_u64_update(
        m0.global_heatmap@,
        heat_index(node_id, ch),
        sat64(m0.heat_at(node_id, ch) + 1),
    );
}

/// Counting unset marks over a prefix, one element at a time.
pub proof fn lemma_count_false_step(s: Seq<bool>, i: int)
    requires
        0 <= i < s.len(),
    ensures
        count_false(s.subrange(0, i + 1)) == count_false(s.subrange(0, i)) + (if s[i] {
            0int
        } else {
            1int
        }),
{
    let a = s.subrange(0, i + 1);
    assert(a.drop_last() =~= s.subrange(0, i));
    assert(a.last() == s[i]);
}

/// A count of unset marks never exceeds the length.
pub proof fn lemma_count_false_le_len(s: Seq<bool>)
    ensures
        count_false(s) <= s.len(),
    decreases s.len(),
{
    if s.len() > 0 {
        lemma_count_false_le_len(s.drop_last());
    }
}

} // verus!
