//! Read projections over the simulation state: per-node information, the
//! network overview, per-drone and per-host metric snapshots, and the graph
//! rendered back in configuration shape.

use vstd::prelude::*;

verus! {

use crate::config::{Client, Config, Drone, Server};
use crate::errors::NetworkError;
use crate::metrics::{
    sat64, DroneMetrics, HostMetrics, HostMetricsTimePoint, MetricsTimePoint, PacketCounts,
    PacketTypeLabel,
};
use crate::state::{SimulationState, SimulationStatus};
use crate::topology::{NodeMetadata, NodeType};
use crate::{NodeId, ID_SPACE};

/// Everything an operator sees about one node.
#[derive(Debug)]
pub struct NodeInfo {
    pub node_id: NodeId,
    pub node_type: String,
    pub node_group: Option<String>,
    pub connections: Vec<NodeId>,
    pub metrics: NodeMetrics,
}

/// The metric variant of one node.
#[derive(Debug)]
pub enum NodeMetrics {
    Drone {
        /// Configured drop rate in whole percent.
        pdr: u8,
        /// Observed drop rate: failures in the rolling window.
        current_pdr_failed: u64,
        /// Observed drop rate: size of the rolling window.
        current_pdr_window: u64,
        packets_sent: u64,
        packets_dropped: u64,
        shortcuts_used: u64,
        packet_type_counts: PacketCounts,
    },
    Host {
        packets_sent: u64,
        packets_acked: u64,
        shortcuts_used: u64,
        packet_type_counts: PacketCounts,
        latencies: Vec<u64>,
    },
    Missing,
}

/// The display name of a node kind.
pub open spec fn spec_kind_name(k: NodeType) -> Seq<char> {
    match k {
        NodeType::Drone => "Drone"@,
        NodeType::Client => "Client"@,
        NodeType::Server => "Server"@,
    }
}

/// Everything an operator sees about one node: its kind, group, neighbor
/// list and metric counters.
pub fn get_node_info(state: &SimulationState, node_id: NodeId) -> (r: Result<
    NodeInfo,
    NetworkError,
>)
    requires
        state.wf(),
    ensures
        r is Ok <==> state.graph.has_node(node_id),
        r is Err ==> r == Err::<NodeInfo, NetworkError>(NetworkError::NodeNotFound(node_id)),
        r matches Ok(info) ==> {
            &&& info.node_id == node_id
            &&& info.node_type@ == spec_kind_name(state.graph.kind_of(node_id).unwrap())
            &&& crate::topology::opt_str_view(info.node_group) == state.graph.group_of(node_id)
            &&& info.connections@.len() == state.graph.nbrs(node_id).len()
            &&& (forall|i: int, j: int|
                0 <= i < j < info.connections@.len() ==> info.connections@[i]
                    <= info.connections@[j])
            &&& (forall|x: NodeId|
                #[trigger] crate::topology::occurrences(info.connections@, x)
                    == crate::topology::occurrences(state.graph.nbrs(node_id), x))
            &&& (state.graph.is_drone(node_id) && state.metrics.drone_at(node_id) is Some ==> ({
                let dm = state.metrics.drone_at(node_id).unwrap();
                info.metrics matches NodeMetrics::Drone {
                    pdr,
                    current_pdr_failed,
                    current_pdr_window,
                    packets_sent,
                    packets_dropped,
                    shortcuts_used,
                    packet_type_counts,
                } && pdr == state.graph.pdr_of(node_id) && current_pdr_failed
                    == crate::validation::count_false(dm.rolling_window@) && current_pdr_window
                    == dm.rolling_window@.len() && packets_sent == sat64(
                    dm.packet_type_counts.total(),
                ) && packets_dropped == dm.drops && shortcuts_used == dm.shortcuts
                    && packet_type_counts == dm.packet_type_counts
            }))
            &&& (state.graph.is_host(node_id) && state.metrics.host_at(node_id) is Some ==> ({
                let hm = state.metrics.host_at(node_id).unwrap();
                info.metrics matches NodeMetrics::Host {
                    packets_sent,
                    packets_acked,
                    shortcuts_used,
                    packet_type_counts,
                    latencies,
                } && packets_sent == sat64(hm.packet_type_counts.total()) && packets_acked
                    == sat64(crate::metrics::sum_acked(hm.dest_stats@)) && shortcuts_used
                    == hm.shortcuts && packet_type_counts == hm.packet_type_counts && latencies@
                    == hm.latencies@
            }))
        },
    {
    let meta = match state.graph.get_node_type(node_id) {
        Some(m) => m,
        None => {
            return Err(NetworkError::NodeNotFound(node_id));
        }
    };
    let connections = crate::topology::sort_ids(&state.graph.get_neighbors(node_id));
    let (node_type, node_group): (String, Option<String>) = match &meta {
        NodeMetadata::Drone(_) => ("Drone".to_owned(), state.graph.get_drone_group(node_id)),
        NodeMetadata::Client => ("Client".to_owned(), None),
        NodeMetadata::Server => ("Server".to_owned(), None),
    };
    let metrics = match &meta {
        NodeMetadata::Drone(d) => {
            match &state.metrics.drone_metrics[node_id as usize] {
                Some(dm) => {
                    let (failed, window) = dm.current_pdr();
                    NodeMetrics::Drone {
                        pdr: d.get_pdr(),
                        current_pdr_failed: failed,
                        current_pdr_window: window,
                        packets_sent: dm.number_of_packets_sent(),
                        packets_dropped: dm.drops,
                        shortcuts_used: dm.shortcuts,
                        packet_type_counts: dm.packet_type_counts,
                    }
                }
                None => NodeMetrics::Missing,
            }
        }
        NodeMetadata::Client | NodeMetadata::Server => {
            match &state.metrics.host_metrics[node_id as usize] {
                Some(hm) => {
                    let mut latencies: Vec<u64> = Vec::new();
                    let mut i: usize = 0;
                    while i < hm.latencies.len()
                        invariant
                            i <= hm.latencies@.len(),
                            latencies@ == hm.latencies@.subrange(0, i as int),
                        decreases hm.latencies@.len() - i,
                    {
                        latencies.push(hm.latencies[i]);
                        i = i + 1;
                    }
                    proof {
                        assert(latencies@ =~= hm.latencies@);
                    }
                    NodeMetrics::Host {
                        packets_sent: hm.number_of_packets_sent(),
                        packets_acked: hm.number_of_packets_acked(),
                        shortcuts_used: hm.shortcuts,
                        packet_type_counts: hm.packet_type_counts,
                        latencies,
                    }
                }
                None => NodeMetrics::Missing,
            }
        }
    };
    Ok(NodeInfo { node_id, node_type, node_group, connections, metrics })
}

/// Per-node information for every node of the graph, in increasing id
/// order.
pub fn get_network_infos(state: &SimulationState) -> (r: Vec<NodeInfo>)
    requires
        state.wf(),
    ensures
        forall|k: int|
            0 <= k < r@.len() ==> state.graph.has_node(#[trigger] r@[k].node_id),
        forall|n: NodeId|
            state.graph.has_node(n) ==> exists|k: int|
                0 <= k < r@.len() && (#[trigger] r@[k]).node_id == n,
{
    let ids = state.graph.get_nodes();
    let mut r: Vec<NodeInfo> = Vec::new();
    let mut k: usize = 0;
    while k < ids.len()
        invariant
            state.wf(),
            k <= ids@.len(),
            forall|i: int| 0 <= i < ids@.len() ==> state.graph.has_node(#[trigger] ids@[i]),
            r@.len() == k,
            forall|i: int| 0 <= i < k ==> (#[trigger] r@[i]).node_id == ids@[i],
        decreases ids@.len() - k,
    {
        match get_node_info(state, ids[k]) {
            Ok(info) => {
                r.push(info);
            }
            Err(_) => {
                proof {
                    assert(false);
                }
            }
        }
        k = k + 1;
    }
    proof {
        assert forall|n: NodeId|
            state.graph.has_node(n) implies exists|j: int|
                0 <= j < r@.len() && (#[trigger] r@[j]).node_id == n by {
            assert(ids@.contains(n));
            let j = choose|j: int| 0 <= j < ids@.len() && ids@[j] == n;
            assert(r@[j].node_id == n);
        }
    }
    r
}

/// The network overview: totals and per-class packet counts over every
/// node, and the nonzero cells of the heatmap.
#[derive(Debug)]
pub struct OverviewMetrics {
    pub total_messages_sent: u64,
    pub total_packets_sent: u64,
    pub packets_by_type: PacketCounts,
    pub heatmap: Vec<(NodeId, NodeId, u64)>,
}

/// Messages acknowledged end to end, summed over every host.
pub open spec fn sum_messages(s: Seq<Option<HostMetrics>>) -> int
    decreases s.len(),
{
    if s.len() == 0 {
        0
    } else {
        sum_messages(s.drop_last()) + (match s.last() {
            Some(h) => h.latencies@.len() as int,
            None => 0,
        })
    }
}

/// Packets of one class sent by drones, summed over every drone.
pub open spec fn sum_drone_count(s: Seq<Option<DroneMetrics>>, label: PacketTypeLabel) -> int
    decreases s.len(),
{
    if s.len() == 0 {
        0
    } else {
        sum_drone_count(s.drop_last(), label) + (match s.last() {
            Some(d) => d.packet_type_counts.count_of(label) as int,
            None => 0,
        })
    }
}

/// Packets of one class sent by hosts, summed over every host.
pub open spec fn sum_host_count(s: Seq<Option<HostMetrics>>, label: PacketTypeLabel) -> int
    decreases s.len(),
{
    if s.len() == 0 {
        0
    } else {
        sum_host_count(s.drop_last(), label) + (match s.last() {
            Some(h) => h.packet_type_counts.count_of(label) as int,
            None => 0,
        })
    }
}

/// One element more of each partial overview sum.
proof fn lemma_overview_sum_step(
    hs: Seq<Option<HostMetrics>>,
    ds: Seq<Option<DroneMetrics>>,
    i: int,
)
    requires
        0 <= i < hs.len(),
        0 <= i < ds.len(),
    ensures
        sum_messages(hs.subrange(0, i + 1)) == sum_messages(hs.subrange(0, i)) + (match hs[i] {
            Some(h) => h.latencies@.len() as int,
            None => 0,
        }),
        forall|l: PacketTypeLabel|
            #[trigger] sum_host_count(hs.subrange(0, i + 1), l) == sum_host_count(
                hs.subrange(0, i),
                l,
            ) + (match hs[i] {
                Some(h) => h.packet_type_counts.count_of(l) as int,
                None => 0,
            }),
        forall|l: PacketTypeLabel|
            #[trigger] sum_drone_count(ds.subrange(0, i + 1), l) == sum_drone_count(
                ds.subrange(0, i),
                l,
            ) + (match ds[i] {
                Some(d) => d.packet_type_counts.count_of(l) as int,
                None => 0,
            }),
{
    assert(hs.subrange(0, i + 1).drop_last() =~= hs.subrange(0, i));
    assert(hs.subrange(0, i + 1).last() == hs[i]);
    assert(ds.subrange(0, i + 1).drop_last() =~= ds.subrange(0, i));
    assert(ds.subrange(0, i + 1).last() == ds[i]);
}

/// Host-side overview sums are never negative.
proof fn lemma_host_sums_nonneg(hs: Seq<Option<HostMetrics>>)
    ensures
        sum_messages(hs) >= 0,
        forall|l: PacketTypeLabel| #[trigger] sum_host_count(hs, l) >= 0,
    decreases hs.len(),
{
    if hs.len() > 0 {
        lemma_host_sums_nonneg(hs.drop_last());
        assert forall|l: PacketTypeLabel| #[trigger] sum_host_count(hs, l) >= 0 by {
            assert(sum_host_count(hs.drop_last(), l) >= 0);
        }
    }
}

/// Drone-side overview sums are never negative.
proof fn lemma_drone_sums_nonneg(ds: Seq<Option<DroneMetrics>>)
    ensures
        forall|l: PacketTypeLabel| #[trigger] sum_drone_count(ds, l) >= 0,
    decreases ds.len(),
{
    if ds.len() > 0 {
        lemma_drone_sums_nonneg(ds.drop_last());
        assert forall|l: PacketTypeLabel| #[trigger] sum_drone_count(ds, l) >= 0 by {
            assert(sum_drone_count(ds.drop_last(), l) >= 0);
        }
    }
}

/// The network overview: how many messages were acknowledged end to end,
/// how many packets were sent by class over all nodes, and every nonzero
/// heatmap cell.
pub fn get_overview_metrics(state: &SimulationState) -> (r: OverviewMetrics)
    requires
        state.wf(),
    ensures
        r.total_messages_sent == sat64(sum_messages(state.metrics.host_metrics@)),
        forall|l: PacketTypeLabel|
            #[trigger] r.packets_by_type.count_of(l) == sat64(
                sum_drone_count(state.metrics.drone_metrics@, l) + sum_host_count(
                    state.metrics.host_metrics@,
                    l,
                ),
            ),
        r.total_packets_sent == sat64(r.packets_by_type.total()),
        forall|k: int|
            0 <= k < r.heatmap@.len() ==> {
                let cell = #[trigger] r.heatmap@[k];
                cell.2 == state.metrics.heat_at(cell.0, cell.1) && cell.2 > 0
            },
        forall|s: NodeId, d: NodeId|
            #[trigger] state.metrics.heat_at(s, d) > 0 ==> exists|k: int|
                0 <= k < r.heatmap@.len() && (#[trigger] r.heatmap@[k]) == (
                s,
                d,
                state.metrics.heat_at(s, d),
                ),
{
    let mut total_messages_sent: u64 = 0;
    let mut counts = PacketCounts::new();
    let mut i: usize = 0;
    while i < ID_SPACE
        invariant
            state.wf(),
            i <= ID_SPACE,
            total_messages_sent == sat64(
                sum_messages(state.metrics.host_metrics@.subrange(0, i as int)),
            ),
            forall|l: PacketTypeLabel|
                #[trigger] counts.count_of(l) == sat64(
                    sum_drone_count(state.metrics.drone_metrics@.subrange(0, i as int), l)
                        + sum_host_count(state.metrics.host_metrics@.subrange(0, i as int), l),
                ),
        decreases ID_SPACE - i,
    {
        proof {
            lemma_overview_sum_step(
                state.metrics.host_metrics@,
                state.metrics.drone_metrics@,
                i as int,
            );
            lemma_host_sums_nonneg(state.metrics.host_metrics@.subrange(0, i as int));
            lemma_drone_sums_nonneg(state.metrics.drone_metrics@.subrange(0, i as int));
        }
        let ghost counts0 = counts;
        match &state.metrics.host_metrics[i] {
            Some(hm) => {
                total_messages_sent = crate::metrics::sat_add64(
                    total_messages_sent,
                    hm.number_of_messages_sent(),
                );
                counts = add_counts_sat(counts, hm.packet_type_counts);
            }
            None => {}
        }
        let ghost counts1 = counts;
        match &state.metrics.drone_metrics[i] {
            Some(dm) => {
                counts = add_counts_sat(counts, dm.packet_type_counts);
            }
            None => {}
        }
        proof {
            assert forall|l: PacketTypeLabel|
                #[trigger] counts.count_of(l) == sat64(
                    sum_drone_count(state.metrics.drone_metrics@.subrange(0, i as int + 1), l)
                        + sum_host_count(
                        state.metrics.host_metrics@.subrange(0, i as int + 1),
                        l,
                    ),
                ) by {
                assert(counts0.count_of(l) == sat64(
                    sum_drone_count(state.metrics.drone_metrics@.subrange(0, i as int), l)
                        + sum_host_count(state.metrics.host_metrics@.subrange(0, i as int), l),
                ));
            }
        }
        i = i + 1;
    }
    proof {
        assert(state.metrics.host_metrics@.subrange(0, ID_SPACE as int)
            =~= state.metrics.host_metrics@);
        assert(state.metrics.drone_metrics@.subrange(0, ID_SPACE as int)
            =~= state.metrics.drone_metrics@);
    }
    let total_packets_sent = counts.total_sat();
    let mut heatmap: Vec<(NodeId, NodeId, u64)> = Vec::new();
    let mut s: usize = 0;
    while s < ID_SPACE
        invariant
            state.wf(),
            s <= ID_SPACE,
            forall|k: int|
                0 <= k < heatmap@.len() ==> {
                    let cell = #[trigger] heatmap@[k];
                    cell.2 == state.metrics.heat_at(cell.0, cell.1) && cell.2 > 0
                },
            forall|x: NodeId, y: NodeId|
                x < s && #[trigger] state.metrics.heat_at(x, y) > 0 ==> exists|k: int|
                    0 <= k < heatmap@.len() && (#[trigger] heatmap@[k]) == (
                    x,
                    y,
                    state.metrics.heat_at(x, y),
                    ),
        decreases ID_SPACE - s,
    {
        let mut d: usize = 0;
        while d < ID_SPACE
            invariant
                state.wf(),
                s < ID_SPACE,
                d <= ID_SPACE,
                forall|k: int|
                    0 <= k < heatmap@.len() ==> {
                        let cell = #[trigger] heatmap@[k];
                        cell.2 == state.metrics.heat_at(cell.0, cell.1) && cell.2 > 0
                    },
                forall|x: NodeId, y: NodeId|
                    x < s && #[trigger] state.metrics.heat_at(x, y) > 0 ==> exists|k: int|
                        0 <= k < heatmap@.len() && (#[trigger] heatmap@[k]) == (
                        x,
                        y,
                        state.metrics.heat_at(x, y),
                        ),
                forall|y: NodeId|
                    y < d && #[trigger] state.metrics.heat_at(s as NodeId, y) > 0 ==> exists|
                        k: int,
                    |
                        0 <= k < heatmap@.len() && (#[trigger] heatmap@[k]) == (
                        s as NodeId,
                        y,
                        state.metrics.heat_at(s as NodeId, y),
                        ),
            decreases ID_SPACE - d,
        {
            let value = state.metrics.global_heatmap[s * ID_SPACE + d];
            let ghost prev = heatmap@;
            if value > 0 {
                heatmap.push((s as NodeId, d as NodeId, value));
            }
            proof {
                assert forall|x: NodeId, y: NodeId|
                    x < s && #[trigger] state.metrics.heat_at(x, y) > 0 implies exists|k: int|
                        0 <= k < heatmap@.len() && (#[trigger] heatmap@[k]) == (
                        x,
                        y,
                        state.metrics.heat_at(x, y),
                        ) by {
                    let k = choose|k: int|
                        0 <= k < prev.len() && prev[k] == (x, y, state.metrics.heat_at(x, y));
                    assert(heatmap@[k] == (x, y, state.metrics.heat_at(x, y)));
                }
                assert forall|y: NodeId|
                    y < d + 1 && #[trigger] state.metrics.heat_at(s as NodeId, y) > 0 implies
                    exists|k: int|
                        0 <= k < heatmap@.len() && (#[trigger] heatmap@[k]) == (
                        s as NodeId,
                        y,
                        state.metrics.heat_at(s as NodeId, y),
                        ) by {
                    if y < d {
                        let k = choose|k: int|
                            0 <= k < prev.len() && prev[k] == (
                            s as NodeId,
                            y,
                            state.metrics.heat_at(s as NodeId, y),
                            );
                        assert(heatmap@[k] == (s as NodeId, y, state.metrics.heat_at(
                            s as NodeId,
                            y,
                        )));
                    } else {
                        assert(heatmap@.last() == (s as NodeId, y, state.metrics.heat_at(
                            s as NodeId,
                            y,
                        )));
                    }
                }
            }
            d = d + 1;
        }
        proof {
            assert forall|x: NodeId, y: NodeId|
                x < s + 1 && #[trigger] state.metrics.heat_at(x, y) > 0 implies exists|k: int|
                    0 <= k < heatmap@.len() && (#[trigger] heatmap@[k]) == (
                    x,
                    y,
                    state.metrics.heat_at(x, y),
                    ) by {
                if x < s {
                } else {
                    assert(x == s as NodeId);
                    assert((y as int) < ID_SPACE as int);
                }
            }
        }
        s = s + 1;
    }
    let result = OverviewMetrics {
        total_messages_sent,
        total_packets_sent,
        packets_by_type: counts,
        heatmap,
    };
    proof {
        assert forall|x: NodeId, y: NodeId|
            #[trigger] state.metrics.heat_at(x, y) > 0 implies exists|k: int|
                0 <= k < result.heatmap@.len() && (#[trigger] result.heatmap@[k]) == (
                x,
                y,
                state.metrics.heat_at(x, y),
                ) by {
            assert((x as int) < ID_SPACE as int);
            let k = choose|k: int|
                0 <= k < result.heatmap@.len() && result.heatmap@[k] == (
                x,
                y,
                state.metrics.heat_at(x, y),
                );
        }
    }
    result
}

/// Adds two packet-count tables, saturating per class.
pub fn add_counts_sat(a: PacketCounts, b: PacketCounts) -> (r: PacketCounts)
    ensures
        forall|l: PacketTypeLabel|
            #[trigger] r.count_of(l) == sat64(a.count_of(l) + b.count_of(l)),
{
    PacketCounts {
        msg_fragment: crate::metrics::sat_add64(a.msg_fragment, b.msg_fragment),
        ack: crate::metrics::sat_add64(a.ack, b.ack),
        nack: crate::metrics::sat_add64(a.nack, b.nack),
        flood_request: crate::metrics::sat_add64(a.flood_request, b.flood_request),
        flood_response: crate::metrics::sat_add64(a.flood_response, b.flood_response),
    }
}

/// The latency and fragment statistics of one host.
#[derive(Debug)]
pub struct HostStats {
    pub latencies: Vec<u64>,
    pub number_of_fragment_sent: u64,
    pub time_series: Vec<HostMetricsTimePoint>,
}

/// The latency and fragment statistics of one host.
pub fn get_host_metrics(state: &SimulationState, node_id: NodeId) -> (r: Result<
    HostStats,
    NetworkError,
>)
    requires
        state.wf(),
    ensures
        r is Ok <==> state.metrics.host_at(node_id) is Some,
        r is Err ==> r == Err::<HostStats, NetworkError>(NetworkError::NodeNotFound(node_id)),
        r matches Ok(stats) ==> ({
            let hm = state.metrics.host_at(node_id).unwrap();
            &&& stats.latencies@ == hm.latencies@
            &&& stats.number_of_fragment_sent == hm.packet_type_counts.msg_fragment
            &&& stats.time_series@ == hm.time_series@
        }),
{
    match &state.metrics.host_metrics[node_id as usize] {
        Some(hm) => {
            let mut latencies: Vec<u64> = Vec::new();
            let mut i: usize = 0;
            while i < hm.latencies.len()
                invariant
                    i <= hm.latencies@.len(),
                    latencies@ == hm.latencies@.subrange(0, i as int),
                decreases hm.latencies@.len() - i,
            {
                latencies.push(hm.latencies[i]);
                i = i + 1;
            }
            let mut time_series: Vec<HostMetricsTimePoint> = Vec::new();
            let mut i: usize = 0;
            while i < hm.time_series.len()
                invariant
                    i <= hm.time_series@.len(),
                    time_series@ == hm.time_series@.subrange(0, i as int),
                decreases hm.time_series@.len() - i,
            {
                time_series.push(hm.time_series[i]);
                i = i + 1;
            }
            proof {
                assert(latencies@ =~= hm.latencies@);
                assert(time_series@ =~= hm.time_series@);
            }
            Ok(HostStats {
                latencies,
                number_of_fragment_sent: hm.number_of_fragments_sent(),
                time_series,
            })
        }
        None => Err(NetworkError::NodeNotFound(node_id)),
    }
}

/// A copy of one drone's counters.
pub fn get_drone_metrics(state: &SimulationState, node_id: NodeId) -> (r: Result<
    DroneMetrics,
    NetworkError,
>)
    requires
        state.wf(),
    ensures
        r is Ok <==> state.metrics.drone_at(node_id) is Some,
        r is Err ==> r == Err::<DroneMetrics, NetworkError>(NetworkError::NodeNotFound(node_id)),
        r matches Ok(dm) ==> ({
            let m = state.metrics.drone_at(node_id).unwrap();
            &&& dm.drops == m.drops
            &&& dm.rolling_window@ == m.rolling_window@
            &&& dm.shortcuts == m.shortcuts
            &&& dm.packet_type_counts == m.packet_type_counts
            &&& dm.time_series@ == m.time_series@
        }),
{
    match &state.metrics.drone_metrics[node_id as usize] {
        Some(m) => {
            let mut rolling_window: Vec<bool> = Vec::new();
            let mut i: usize = 0;
            while i < m.rolling_window.len()
                invariant
                    i <= m.rolling_window@.len(),
                    rolling_window@ == m.rolling_window@.subrange(0, i as int),
                decreases m.rolling_window@.len() - i,
            {
                rolling_window.push(m.rolling_window[i]);
                i = i + 1;
            }
            let mut time_series: Vec<MetricsTimePoint> = Vec::new();
            let mut i: usize = 0;
            while i < m.time_series.len()
                invariant
                    i <= m.time_series@.len(),
                    time_series@ == m.time_series@.subrange(0, i as int),
                decreases m.time_series@.len() - i,
            {
                time_series.push(m.time_series[i]);
                i = i + 1;
            }
            proof {
                assert(rolling_window@ =~= m.rolling_window@);
                assert(time_series@ =~= m.time_series@);
            }
            Ok(DroneMetrics {
                drops: m.drops,
                rolling_window,
                shortcuts: m.shortcuts,
                packet_type_counts: m.packet_type_counts,
                time_series,
            })
        }
        None => Err(NetworkError::NodeNotFound(node_id)),
    }
}

/// One row of the live node table.
#[derive(Debug, Clone, PartialEq, Eq, Structural)]
pub struct NetworkNodeView {
    pub id: NodeId,
    pub node_type: NodeType,
    pub pdr: u8,
    pub crashed: bool,
}

/// The live node table: every node with its kind and drop rate, in
/// increasing id order; only available while the simulation runs.
pub fn get_network_nodes(state: &SimulationState) -> (r: Result<
    Vec<NetworkNodeView>,
    NetworkError,
>)
    requires
        state.wf(),
    ensures
        !(state.status is Running) <==> r == Err::<Vec<NetworkNodeView>, NetworkError>(
            NetworkError::NetworkNotRunning,
        ),
        r matches Ok(rows) ==> {
            &&& forall|k: int|
                0 <= k < rows@.len() ==> {
                    let row = #[trigger] rows@[k];
                    &&& state.graph.kind_of(row.id) == Some(row.node_type)
                    &&& row.pdr == state.graph.pdr_of(row.id)
                    &&& !row.crashed
                }
            &&& forall|n: NodeId|
                state.graph.has_node(n) ==> exists|k: int|
                    0 <= k < rows@.len() && (#[trigger] rows@[k]).id == n
        },
{
    if !matches!(state.status, SimulationStatus::Running) {
        return Err(NetworkError::NetworkNotRunning);
    }
    let ids = state.graph.get_nodes();
    let mut rows: Vec<NetworkNodeView> = Vec::new();
    let mut k: usize = 0;
    while k < ids.len()
        invariant
            state.wf(),
            k <= ids@.len(),
            forall|i: int| 0 <= i < ids@.len() ==> state.graph.has_node(#[trigger] ids@[i]),
            rows@.len() == k,
            forall|i: int| 0 <= i < k ==> (#[trigger] rows@[i]).id == ids@[i],
            forall|i: int|
                0 <= i < k ==> {
                    let row = #[trigger] rows@[i];
                    &&& state.graph.kind_of(row.id) == Some(row.node_type)
                    &&& row.pdr == state.graph.pdr_of(row.id)
                    &&& !row.crashed
                },
        decreases ids@.len() - k,
    {
        let id = ids[k];
        match state.graph.get_node_type(id) {
            Some(meta) => {
                let pdr = match &meta {
                    NodeMetadata::Drone(d) => d.get_pdr(),
                    _ => 0,
                };
                rows.push(
                    NetworkNodeView { id, node_type: meta.kind(), pdr, crashed: false },
                );
            }
            None => {
                proof {
                    assert(false);
                }
            }
        }
        k = k + 1;
    }
    proof {
        assert forall|n: NodeId|
            state.graph.has_node(n) implies exists|j: int|
                0 <= j < rows@.len() && (#[trigger] rows@[j]).id == n by {
            assert(ids@.contains(n));
            let j = choose|j: int| 0 <= j < ids@.len() && ids@[j] == n;
            assert(rows@[j].id == n);
        }
    }
    Ok(rows)
}

/// Renders the topology back into configuration shape: one entry per live
/// node, each carrying its current neighbor list (and, for drones, the
/// current drop rate).  Before any node exists — before the simulation
/// first starts — the loaded configuration's own projection is returned
/// instead, so the operator always sees the topology that would run.
pub fn get_graph(state: &SimulationState) -> (r: Config)
    requires
        state.wf(),
    ensures
        state.graph.nonempty() || state.initial_config is None ==> {
            &&& forall|k: int|
                0 <= k < r.drone@.len() ==> {
                    let d = #[trigger] r.drone@[k];
                    &&& state.graph.is_drone(d.id)
                    &&& d.pdr == state.graph.pdr_of(d.id)
                    &&& d.connected_node_ids@ == state.graph.nbrs(d.id)
                }
            &&& forall|k: int|
                0 <= k < r.client@.len() ==> {
                    let c = #[trigger] r.client@[k];
                    &&& state.graph.is_client(c.id)
                    &&& c.connected_drone_ids@ == state.graph.nbrs(c.id)
                }
            &&& forall|k: int|
                0 <= k < r.server@.len() ==> {
                    let sv = #[trigger] r.server@[k];
                    &&& state.graph.is_server(sv.id)
                    &&& sv.connected_drone_ids@ == state.graph.nbrs(sv.id)
                }
            &&& forall|n: NodeId|
                state.graph.is_drone(n) ==> exists|k: int|
                    0 <= k < r.drone@.len() && (#[trigger] r.drone@[k]).id == n
            &&& forall|n: NodeId|
                state.graph.is_client(n) ==> exists|k: int|
                    0 <= k < r.client@.len() && (#[trigger] r.client@[k]).id == n
            &&& forall|n: NodeId|
                state.graph.is_server(n) ==> exists|k: int|
                    0 <= k < r.server@.len() && (#[trigger] r.server@[k]).id == n
        },
        !state.graph.nonempty() && state.initial_config is Some ==> ({
            let cfg = state.initial_config.unwrap();
            &&& r.drone@.len() == cfg.drone@.len()
            &&& forall|k: int|
                0 <= k < cfg.drone@.len() ==> (#[trigger] r.drone@[k]).id == cfg.drone@[k].id
                    && r.drone@[k].pdr == cfg.drone@[k].pdr && r.drone@[k].connected_node_ids@
                    == cfg.drone@[k].connected_node_ids@
            &&& r.client@.len() == cfg.client@.len()
            &&& forall|k: int|
                0 <= k < cfg.client@.len() ==> (#[trigger] r.client@[k]).id == cfg.client@[k].id
                    && r.client@[k].connected_drone_ids@ == cfg.client@[k].connected_drone_ids@
            &&& r.server@.len() == cfg.server@.len()
            &&& forall|k: int|
                0 <= k < cfg.server@.len() ==> (#[trigger] r.server@[k]).id == cfg.server@[k].id
                    && r.server@[k].connected_drone_ids@ == cfg.server@[k].connected_drone_ids@
        }),
{
    let mut probe: usize = 0;
    while probe < ID_SPACE && state.graph.node_info[probe].is_none()
        invariant
            state.wf(),
            probe <= ID_SPACE,
            forall|x: NodeId| x < probe ==> !state.graph.has_node(x),
        decreases ID_SPACE - probe,
    {
        probe = probe + 1;
    }
    if probe == ID_SPACE {
        proof {
            assert(!state.graph.nonempty()) by {
                if state.graph.nonempty() {
                    let w = choose|w: NodeId| state.graph.has_node(w);
                    assert(!state.graph.has_node(w));
                }
            }
        }
        match &state.initial_config {
            Some(cfg) => {
                let mut drones: Vec<Drone> = Vec::new();
                let mut k: usize = 0;
                while k < cfg.drone.len()
                    invariant
                        k <= cfg.drone@.len(),
                        drones@.len() == k,
                        forall|j: int|
                            0 <= j < k ==> (#[trigger] drones@[j]).id == cfg.drone@[j].id
                                && drones@[j].pdr == cfg.drone@[j].pdr
                                && drones@[j].connected_node_ids@
                                == cfg.drone@[j].connected_node_ids@,
                    decreases cfg.drone@.len() - k,
                {
                    let entry = &cfg.drone[k];
                    drones.push(
                        Drone {
                            id: entry.id,
                            connected_node_ids: crate::topology::copy_ids(
                                &entry.connected_node_ids,
                            ),
                            pdr: entry.pdr,
                        },
                    );
                    k = k + 1;
                }
                let mut clients: Vec<Client> = Vec::new();
                let mut k: usize = 0;
                while k < cfg.client.len()
                    invariant
                        k <= cfg.client@.len(),
                        clients@.len() == k,
                        forall|j: int|
                            0 <= j < k ==> (#[trigger] clients@[j]).id == cfg.client@[j].id
                                && clients@[j].connected_drone_ids@
                                == cfg.client@[j].connected_drone_ids@,
                    decreases cfg.client@.len() - k,
                {
                    let entry = &cfg.client[k];
                    clients.push(
                        Client {
                            id: entry.id,
                            connected_drone_ids: crate::topology::copy_ids(
                                &entry.connected_drone_ids,
                            ),
                        },
                    );
                    k = k + 1;
                }
                let mut servers: Vec<Server> = Vec::new();
                let mut k: usize = 0;
                while k < cfg.server.len()
                    invariant
                        k <= cfg.server@.len(),
                        servers@.len() == k,
                        forall|j: int|
                            0 <= j < k ==> (#[trigger] servers@[j]).id == cfg.server@[j].id
                                && servers@[j].connected_drone_ids@
                                == cfg.server@[j].connected_drone_ids@,
                    decreases cfg.server@.len() - k,
                {
                    let entry = &cfg.server[k];
                    servers.push(
                        Server {
                            id: entry.id,
                            connected_drone_ids: crate::topology::copy_ids(
                                &entry.connected_drone_ids,
                            ),
                        },
                    );
                    k = k + 1;
                }
                return Config { drone: drones, client: clients, server: servers };
            }
            None => {}
        }
    }
    proof {
        if probe < ID_SPACE {
            assert(state.graph.has_node(probe as NodeId));
            assert(state.graph.nonempty());
        }
    }
    let mut drones: Vec<Drone> = Vec::new();
    let mut clients: Vec<Client> = Vec::new();
    let mut servers: Vec<Server> = Vec::new();
    let mut i: usize = 0;
    while i < ID_SPACE
        invariant
            state.wf(),
            i <= ID_SPACE,
            forall|k: int|
                0 <= k < drones@.len() ==> {
                    let d = #[trigger] drones@[k];
                    &&& state.graph.is_drone(d.id)
                    &&& d.pdr == state.graph.pdr_of(d.id)
                    &&& d.connected_node_ids@ == state.graph.nbrs(d.id)
                },
            forall|k: int|
                0 <= k < clients@.len() ==> {
                    let c = #[trigger] clients@[k];
                    &&& state.graph.is_client(c.id)
                    &&& c.connected_drone_ids@ == state.graph.nbrs(c.id)
                },
            forall|k: int|
                0 <= k < servers@.len() ==> {
                    let sv = #[trigger] servers@[k];
                    &&& state.graph.is_server(sv.id)
                    &&& sv.connected_drone_ids@ == state.graph.nbrs(sv.id)
                },
            forall|n: NodeId|
                n < i && #[trigger] state.graph.is_drone(n) ==> exists|k: int|
                    0 <= k < drones@.len() && (#[trigger] drones@[k]).id == n,
            forall|n: NodeId|
                n < i && #[trigger] state.graph.is_client(n) ==> exists|k: int|
                    0 <= k < clients@.len() && (#[trigger] clients@[k]).id == n,
            forall|n: NodeId|
                n < i && #[trigger] state.graph.is_server(n) ==> exists|k: int|
                    0 <= k < servers@.len() && (#[trigger] servers@[k]).id == n,
        decreases ID_SPACE - i,
    {
        let ghost drones0 = drones@;
        let ghost clients0 = clients@;
        let ghost servers0 = servers@;
        match &state.graph.node_info[i] {
            Some(NodeMetadata::Drone(d)) => {
                let nbrs = state.graph.get_neighbors(i as NodeId);
                drones.push(Drone { id: i as NodeId, connected_node_ids: nbrs, pdr: d.get_pdr() });
            }
            Some(NodeMetadata::Client) => {
                let nbrs = state.graph.get_neighbors(i as NodeId);
                clients.push(Client { id: i as NodeId, connected_drone_ids: nbrs });
            }
            Some(NodeMetadata::Server) => {
                let nbrs = state.graph.get_neighbors(i as NodeId);
                servers.push(Server { id: i as NodeId, connected_drone_ids: nbrs });
            }
            None => {}
        }
        proof {
            assert forall|n: NodeId|
                n < i + 1 && state.graph.is_drone(n) implies exists|k: int|
                    0 <= k < drones@.len() && (#[trigger] drones@[k]).id == n by {
                if n < i {
                    let k = choose|k: int| 0 <= k < drones0.len() && drones0[k].id == n;
                    assert(drones@[k].id == n);
                } else {
                    assert(drones@.last().id == n);
                }
            }
            assert forall|n: NodeId|
                n < i + 1 && state.graph.is_client(n) implies exists|k: int|
                    0 <= k < clients@.len() && (#[trigger] clients@[k]).id == n by {
                if n < i {
                    let k = choose|k: int| 0 <= k < clients0.len() && clients0[k].id == n;
                    assert(clients@[k].id == n);
                } else {
                    assert(clients@.last().id == n);
                }
            }
            assert forall|n: NodeId|
                n < i + 1 && state.graph.is_server(n) implies exists|k: int|
                    0 <= k < servers@.len() && (#[trigger] servers@[k]).id == n by {
                if n < i {
                    let k = choose|k: int| 0 <= k < servers0.len() && servers0[k].id == n;
                    assert(servers@[k].id == n);
                } else {
                    assert(servers@.last().id == n);
                }
            }
        }
        i = i + 1;
    }
    let result = Config { drone: drones, client: clients, server: servers };
    proof {
        assert forall|n: NodeId|
            state.graph.is_drone(n) implies exists|k: int|
                0 <= k < result.drone@.len() && (#[trigger] result.drone@[k]).id == n by {
            assert((n as int) < ID_SPACE as int);
            let k = choose|k: int|
                0 <= k < result.drone@.len() && result.drone@[k].id == n;
        }
        assert forall|n: NodeId|
            state.graph.is_client(n) implies exists|k: int|
                0 <= k < result.client@.len() && (#[trigger] result.client@[k]).id == n by {
            assert((n as int) < ID_SPACE as int);
            let k = choose|k: int|
                0 <= k < result.client@.len() && result.client@[k].id == n;
        }
        assert forall|n: NodeId|
            state.graph.is_server(n) implies exists|k: int|
                0 <= k < result.server@.len() && (#[trigger] result.server@[k]).id == n by {
            assert((n as int) < ID_SPACE as int);
            let k = choose|k: int|
                0 <= k < result.server@.len() && result.server@[k].id == n;
        }
    }
    result
}

} // verus!
