//! The declarative network configuration: three lists of entries (drones,
//! clients, servers), each with an id and a neighbor list, plus the metadata
//! of stored configuration files.
//!
//! Drop rates are carried in whole percent (`0..=100`).  Edges are implied,
//! undirected, by the union of all neighbor lists.

use vstd::prelude::*;

verus! {

use crate::errors::NetworkError;
use crate::topology::{DroneMetadata, GraphState, NodeMetadata};
use crate::{NodeId, ID_SPACE};

/// A drone entry of the configuration.
#[derive(Debug)]
pub struct Drone {
    pub id: NodeId,
    pub connected_node_ids: Vec<NodeId>,
    /// Drop rate in whole percent.
    pub pdr: u8,
}

/// A client entry of the configuration.
#[derive(Debug)]
pub struct Client {
    pub id: NodeId,
    pub connected_drone_ids: Vec<NodeId>,
}

/// A server entry of the configuration.
#[derive(Debug)]
pub struct Server {
    pub id: NodeId,
    pub connected_drone_ids: Vec<NodeId>,
}

/// The whole declarative configuration.
#[derive(Debug)]
pub struct Config {
    pub drone: Vec<Drone>,
    pub client: Vec<Client>,
    pub server: Vec<Server>,
}

/// Metadata of a stored configuration file.
#[derive(Debug, Clone)]
pub struct ConfigFile {
    pub id: String,
    pub name: String,
    pub path: String,
    pub timestamp: u64,
}

impl Config {
    /// All ids of the configuration, drones first, then clients, then
    /// servers.
    pub open spec fn all_ids(self) -> Seq<NodeId> {
        self.drone@.map_values(|d: Drone| d.id) + self.client@.map_values(|c: Client| c.id)
            + self.server@.map_values(|s: Server| s.id)
    }

    /// No id is used by two entries.
    pub open spec fn unique_ids(self) -> bool {
        forall|i: int, j: int|
            0 <= i < j < self.all_ids().len() ==> self.all_ids()[i] != self.all_ids()[j]
    }

    /// Every drop rate is a valid percentage.
    pub open spec fn pdr_in_range(self) -> bool {
        forall|i: int| 0 <= i < self.drone@.len() ==> (#[trigger] self.drone@[i]).pdr <= 100
    }

    /// An empty configuration.
    pub fn new() -> (r: Self)
        ensures
            r.drone@.len() == 0,
            r.client@.len() == 0,
            r.server@.len() == 0,
    {
        Config { drone: Vec::new(), client: Vec::new(), server: Vec::new() }
    }

    /// Collects every id of the configuration, drones first, then clients,
    /// then servers.
    pub fn collect_ids(&self) -> (r: Vec<NodeId>)
        ensures
            r@ == self.all_ids(),
    {
        let mut r: Vec<NodeId> = Vec::new();
        let mut i: usize = 0;
        while i < self.drone.len()
            invariant
                i <= self.drone@.len(),
                r@ == self.drone@.map_values(|d: Drone| d.id).subrange(0, i as int),
            decreases self.drone@.len() - i,
        {
            r.push(self.drone[i].id);
            proof {
                assert(r@ =~= self.drone@.map_values(|d: Drone| d.id).subrange(0, i + 1));
            }
            i = i + 1;
        }
        proof {
            assert(r@ =~= self.drone@.map_values(|d: Drone| d.id));
        }
        let ghost dpart = r@;
        let mut i: usize = 0;
        while i < self.client.len()
            invariant
                i <= self.client@.len(),
                dpart == self.drone@.map_values(|d: Drone| d.id),
                r@ == dpart + self.client@.map_values(|c: Client| c.id).subrange(0, i as int),
            decreases self.client@.len() - i,
        {
            r.push(self.client[i].id);
            proof {
                assert(r@ =~= dpart + self.client@.map_values(|c: Client| c.id).subrange(
                    0,
                    i + 1,
                ));
            }
            i = i + 1;
        }
        proof {
            assert(r@ =~= dpart + self.client@.map_values(|c: Client| c.id));
        }
        let ghost cpart = r@;
        let mut i: usize = 0;
        while i < self.server.len()
            invariant
                i <= self.server@.len(),
                cpart == self.drone@.map_values(|d: Drone| d.id) + self.client@.map_values(
                    |c: Client| c.id,
                ),
                r@ == cpart + self.server@.map_values(|s: Server| s.id).subrange(0, i as int),
            decreases self.server@.len() - i,
        {
            r.push(self.server[i].id);
            proof {
                assert(r@ =~= cpart + self.server@.map_values(|s: Server| s.id).subrange(
                    0,
                    i + 1,
                ));
            }
            i = i + 1;
        }
        proof {
            assert(r@ =~= self.all_ids());
        }
        r
    }

    /// Whether no id is used twice across the three lists.
    pub fn check_unique_ids(&self) -> (r: bool)
        ensures
            r == self.unique_ids(),
    {
        let ids = self.collect_ids();
        let mut t: usize = 0;
        while t < ids.len()
            invariant
                ids@ == self.all_ids(),
                t <= ids@.len(),
                forall|i: int, j: int| 0 <= i < j < t ==> ids@[i] != ids@[j],
            decreases ids@.len() - t,
        {
            let mut u: usize = 0;
            while u < t
                invariant
                    ids@ == self.all_ids(),
                    u <= t < ids@.len(),
                    forall|i: int| 0 <= i < u ==> ids@[i] != ids@[t as int],
                decreases t - u,
            {
                if ids[u] == ids[t] {
                    return false;
                }
                u = u + 1;
            }
            t = t + 1;
        }
        true
    }

    /// Whether every drop rate is a valid percentage.
    pub fn check_pdr_in_range(&self) -> (r: bool)
        ensures
            r == self.pdr_in_range(),
    {
        let mut i: usize = 0;
        while i < self.drone.len()
            invariant
                i <= self.drone@.len(),
                forall|k: int| 0 <= k < i ==> (#[trigger] self.drone@[k]).pdr <= 100,
            decreases self.drone@.len() - i,
        {
            if self.drone[i].pdr > 100 {
                return false;
            }
            i = i + 1;
        }
        true
    }
}


/// The graph a configuration with unique ids describes: each entry is one
/// node of the matching kind with exactly the neighbor list of its entry,
/// and nothing else exists.
pub open spec fn graph_matches_config(g: GraphState, config: Config) -> bool {
    &&& forall|n: NodeId| #[trigger] g.has_node(n) == config.all_ids().contains(n)
    &&& forall|i: int|
        0 <= i < config.drone@.len() ==> {
            let d = #[trigger] config.drone@[i];
            &&& g.is_drone(d.id)
            &&& g.pdr_of(d.id) == d.pdr
            &&& g.group_of(d.id) == None::<Seq<char>>
            &&& g.nbrs(d.id) == d.connected_node_ids@
        }
    &&& forall|i: int|
        0 <= i < config.client@.len() ==> {
            let c = #[trigger] config.client@[i];
            &&& g.is_client(c.id)
            &&& g.nbrs(c.id) == c.connected_drone_ids@
        }
    &&& forall|i: int|
        0 <= i < config.server@.len() ==> {
            let sv = #[trigger] config.server@[i];
            &&& g.is_server(sv.id)
            &&& g.nbrs(sv.id) == sv.connected_drone_ids@
        }
    &&& forall|n: NodeId|
        !config.all_ids().contains(n) ==> #[trigger] g.nbrs(n) == Seq::<NodeId>::empty()
    &&& forall|n: NodeId|
        #[trigger] g.is_drone(n) ==> config.drone@.map_values(|d: Drone| d.id).contains(n)
    &&& forall|n: NodeId|
        #[trigger] g.is_client(n) ==> config.client@.map_values(|c: Client| c.id).contains(n)
    &&& forall|n: NodeId|
        #[trigger] g.is_server(n) ==> config.server@.map_values(|sv: Server| sv.id).contains(n)
}

impl GraphState {
    /// Installs one node: sets its metadata slot and replaces its neighbor
    /// list, leaving every other slot untouched.
    fn install_node(&mut self, id: NodeId, meta: NodeMetadata, nbr_list: &Vec<NodeId>)
        requires
            old(self).wf(),
        ensures
            final(self).wf(),
            final(self).info() == old(self).info().update(id as int, Some(meta)),
            final(self).nbrs(id) == nbr_list@,
            forall|x: NodeId| x != id ==> #[trigger] final(self).nbrs(x) == old(self).nbrs(x),
            forall|x: NodeId|
                x != id ==> #[trigger] final(self).info()[x as int] == old(self).info()[x as int],
    {
        let row = crate::topology::copy_ids(nbr_list);
        let slot = &mut self.adjacency[id as usize];
        *slot = row;
        let islot = &mut self.node_info[id as usize];
        *islot = Some(meta);
        proof {
            assert(self.nbrs(id) =~= nbr_list@);
            assert forall|x: NodeId| x != id implies #[trigger] self.nbrs(x) == old(self).nbrs(
                x,
            ) by {
                assert(self.adjacency@[x as int] == old(self).adjacency@[x as int]);
            }
        }
    }

    /// Builds the graph described by a configuration with unique ids: each
    /// entry becomes one node of the matching kind, with exactly the
    /// neighbor list of its entry.
    pub fn build_graph(&mut self, config: &Config)
        requires
            old(self).wf(),
            forall|n: NodeId| !old(self).has_node(n),
            forall|n: NodeId| #[trigger] old(self).nbrs(n) == Seq::<NodeId>::empty(),
            config.unique_ids(),
            config.pdr_in_range(),
        ensures
            final(self).wf(),
            final(self).pdr_in_range(),
            graph_matches_config(*final(self), *config),
    {
        let ghost all = config.all_ids();
        let ghost dlen = config.drone@.len() as int;
        let ghost clen = dlen + config.client@.len() as int;
        proof {
            assert forall|n: NodeId| self.is_drone(n) implies #[trigger] self.pdr_of(n) <= 100 by {
                assert(!self.has_node(n));
            }
        }
        let mut i: usize = 0;
        while i < config.drone.len()
            invariant
                self.wf(),
                i <= config.drone@.len(),
                all == config.all_ids(),
                config.unique_ids(),
                config.pdr_in_range(),
                self.pdr_in_range(),
                forall|n: NodeId| #[trigger] self.has_node(n) == all.subrange(0, i as int).contains(
                    n,
                ),
                forall|k: int|
                    0 <= k < i ==> {
                        let d = #[trigger] config.drone@[k];
                        &&& self.is_drone(d.id)
                        &&& self.pdr_of(d.id) == d.pdr
                        &&& self.group_of(d.id) == None::<Seq<char>>
                        &&& self.nbrs(d.id) == d.connected_node_ids@
                    },
                forall|n: NodeId|
                    !all.subrange(0, i as int).contains(n) ==> #[trigger] self.nbrs(n) == Seq::<
                        NodeId,
                    >::empty(),
            decreases config.drone@.len() - i,
        {
            let ghost g_at = *self;
            let ghost sub = all.subrange(0, i as int);
            let entry = &config.drone[i];
            proof {
                assert(all[i as int] == entry.id);
                lemma_subrange_push(all, i as int);
            }
            self.install_node(
                entry.id,
                NodeMetadata::Drone(DroneMetadata { node_group: None, pdr: entry.pdr }),
                &entry.connected_node_ids,
            );
            proof {
                assert forall|n: NodeId| #[trigger] self.has_node(n) == all.subrange(
                    0,
                    i as int + 1,
                ).contains(n) by {
                    lemma_contains_push(sub, entry.id, n);
                    if n != entry.id {
                        assert(self.info()[n as int] == g_at.info()[n as int]);
                        assert(g_at.has_node(n) == sub.contains(n));
                    }
                }
                assert forall|n: NodeId| self.is_drone(n) implies #[trigger] self.pdr_of(n)
                    <= 100 by {
                    if n != entry.id {
                        assert(self.info()[n as int] == g_at.info()[n as int]);
                        assert(g_at.is_drone(n) && g_at.pdr_of(n) == self.pdr_of(n));
                    }
                }
                assert forall|k: int| 0 <= k < i + 1 implies {
                    let d = #[trigger] config.drone@[k];
                    &&& self.is_drone(d.id)
                    &&& self.pdr_of(d.id) == d.pdr
                    &&& self.group_of(d.id) == None::<Seq<char>>
                    &&& self.nbrs(d.id) == d.connected_node_ids@
                } by {
                    let d = config.drone@[k];
                    if k < i {
                        assert(all[k] == d.id);
                        assert(d.id != entry.id);
                        assert(self.info()[d.id as int] == g_at.info()[d.id as int]);
                        assert(self.nbrs(d.id) == g_at.nbrs(d.id));
                        assert(g_at.is_drone(d.id) && g_at.pdr_of(d.id) == d.pdr);
                        assert(g_at.group_of(d.id) == None::<Seq<char>>);
                        assert(g_at.nbrs(d.id) == d.connected_node_ids@);
                    }
                }
                assert forall|n: NodeId|
                    !all.subrange(0, i as int + 1).contains(n) implies #[trigger] self.nbrs(n)
                        == Seq::<NodeId>::empty() by {
                    lemma_contains_push(sub, entry.id, n);
                    assert(!sub.contains(n) && n != entry.id);
                    assert(self.nbrs(n) == g_at.nbrs(n));
                }
            }
            i = i + 1;
        }
        let mut i: usize = 0;
        while i < config.client.len()
            invariant
                self.wf(),
                i <= config.client@.len(),
                all == config.all_ids(),
                dlen == config.drone@.len() as int,
                config.unique_ids(),
                self.pdr_in_range(),
                forall|n: NodeId| #[trigger] self.has_node(n) == all.subrange(0, dlen + i).contains(
                    n,
                ),
                forall|k: int|
                    0 <= k < config.drone@.len() ==> {
                        let d = #[trigger] config.drone@[k];
                        &&& self.is_drone(d.id)
                        &&& self.pdr_of(d.id) == d.pdr
                        &&& self.group_of(d.id) == None::<Seq<char>>
                        &&& self.nbrs(d.id) == d.connected_node_ids@
                    },
                forall|k: int|
                    0 <= k < i ==> {
                        let c = #[trigger] config.client@[k];
                        &&& self.is_client(c.id)
                        &&& self.nbrs(c.id) == c.connected_drone_ids@
                    },
                forall|n: NodeId|
                    !all.subrange(0, dlen + i).contains(n) ==> #[trigger] self.nbrs(n) == Seq::<
                        NodeId,
                    >::empty(),
            decreases config.client@.len() - i,
        {
            let ghost g_at = *self;
            let ghost sub = all.subrange(0, dlen + i);
            let entry = &config.client[i];
            proof {
                assert(all[dlen + i] == entry.id);
                lemma_subrange_push(all, dlen + i);
            }
            self.install_node(entry.id, NodeMetadata::Client, &entry.connected_drone_ids);
            proof {
                assert forall|n: NodeId| #[trigger] self.has_node(n) == all.subrange(
                    0,
                    dlen + i + 1,
                ).contains(n) by {
                    lemma_contains_push(sub, entry.id, n);
                    if n != entry.id {
                        assert(self.info()[n as int] == g_at.info()[n as int]);
                        assert(g_at.has_node(n) == sub.contains(n));
                    }
                }
                assert forall|n: NodeId| self.is_drone(n) implies #[trigger] self.pdr_of(n)
                    <= 100 by {
                    if n != entry.id {
                        assert(self.info()[n as int] == g_at.info()[n as int]);
                        assert(g_at.is_drone(n) && g_at.pdr_of(n) == self.pdr_of(n));
                    }
                }
                assert forall|k: int| 0 <= k < config.drone@.len() implies {
                    let d = #[trigger] config.drone@[k];
                    &&& self.is_drone(d.id)
                    &&& self.pdr_of(d.id) == d.pdr
                    &&& self.group_of(d.id) == None::<Seq<char>>
                    &&& self.nbrs(d.id) == d.connected_node_ids@
                } by {
                    let d = config.drone@[k];
                    assert(all[k] == d.id);
                    assert(d.id != entry.id);
                    assert(self.info()[d.id as int] == g_at.info()[d.id as int]);
                    assert(self.nbrs(d.id) == g_at.nbrs(d.id));
                    assert(g_at.is_drone(d.id) && g_at.pdr_of(d.id) == d.pdr);
                    assert(g_at.group_of(d.id) == None::<Seq<char>>);
                    assert(g_at.nbrs(d.id) == d.connected_node_ids@);
                }
                assert forall|k: int| 0 <= k < i + 1 implies {
                    let c = #[trigger] config.client@[k];
                    &&& self.is_client(c.id)
                    &&& self.nbrs(c.id) == c.connected_drone_ids@
                } by {
                    let c = config.client@[k];
                    if k < i {
                        assert(all[dlen + k] == c.id);
                        assert(c.id != entry.id);
                        assert(self.info()[c.id as int] == g_at.info()[c.id as int]);
                        assert(self.nbrs(c.id) == g_at.nbrs(c.id));
                        assert(g_at.is_client(c.id));
                        assert(g_at.nbrs(c.id) == c.connected_drone_ids@);
                    }
                }
                assert forall|n: NodeId|
                    !all.subrange(0, dlen + i + 1).contains(n) implies #[trigger] self.nbrs(n)
                        == Seq::<NodeId>::empty() by {
                    lemma_contains_push(sub, entry.id, n);
                    assert(!sub.contains(n) && n != entry.id);
                    assert(self.nbrs(n) == g_at.nbrs(n));
                }
            }
            i = i + 1;
        }
        let mut i: usize = 0;
        while i < config.server.len()
            invariant
                self.wf(),
                i <= config.server@.len(),
                all == config.all_ids(),
                dlen == config.drone@.len() as int,
                clen == dlen + config.client@.len() as int,
                config.unique_ids(),
                self.pdr_in_range(),
                forall|n: NodeId| #[trigger] self.has_node(n) == all.subrange(0, clen + i).contains(
                    n,
                ),
                forall|k: int|
                    0 <= k < config.drone@.len() ==> {
                        let d = #[trigger] config.drone@[k];
                        &&& self.is_drone(d.id)
                        &&& self.pdr_of(d.id) == d.pdr
                        &&& self.group_of(d.id) == None::<Seq<char>>
                        &&& self.nbrs(d.id) == d.connected_node_ids@
                    },
                forall|k: int|
                    0 <= k < config.client@.len() ==> {
                        let c = #[trigger] config.client@[k];
                        &&& self.is_client(c.id)
                        &&& self.nbrs(c.id) == c.connected_drone_ids@
                    },
                forall|k: int|
                    0 <= k < i ==> {
                        let s = #[trigger] config.server@[k];
                        &&& self.is_server(s.id)
                        &&& self.nbrs(s.id) == s.connected_drone_ids@
                    },
                forall|n: NodeId|
                    !all.subrange(0, clen + i).contains(n) ==> #[trigger] self.nbrs(n) == Seq::<
                        NodeId,
                    >::empty(),
            decreases config.server@.len() - i,
        {
            let ghost g_at = *self;
            let ghost sub = all.subrange(0, clen + i);
            let entry = &config.server[i];
            proof {
                assert(all[clen + i] == entry.id);
                lemma_subrange_push(all, clen + i);
            }
            self.install_node(entry.id, NodeMetadata::Server, &entry.connected_drone_ids);
            proof {
                assert forall|n: NodeId| #[trigger] self.has_node(n) == all.subrange(
                    0,
                    clen + i + 1,
                ).contains(n) by {
                    lemma_contains_push(sub, entry.id, n);
                    if n != entry.id {
                        assert(self.info()[n as int] == g_at.info()[n as int]);
                        assert(g_at.has_node(n) == sub.contains(n));
                    }
                }
                assert forall|n: NodeId| self.is_drone(n) implies #[trigger] self.pdr_of(n)
                    <= 100 by {
                    if n != entry.id {
                        assert(self.info()[n as int] == g_at.info()[n as int]);
                        assert(g_at.is_drone(n) && g_at.pdr_of(n) == self.pdr_of(n));
                    }
                }
                assert forall|k: int| 0 <= k < config.drone@.len() implies {
                    let d = #[trigger] config.drone@[k];
                    &&& self.is_drone(d.id)
                    &&& self.pdr_of(d.id) == d.pdr
                    &&& self.group_of(d.id) == None::<Seq<char>>
                    &&& self.nbrs(d.id) == d.connected_node_ids@
                } by {
                    let d = config.drone@[k];
                    assert(all[k] == d.id);
                    assert(d.id != entry.id);
                    assert(self.info()[d.id as int] == g_at.info()[d.id as int]);
                    assert(self.nbrs(d.id) == g_at.nbrs(d.id));
                    assert(g_at.is_drone(d.id) && g_at.pdr_of(d.id) == d.pdr);
                    assert(g_at.group_of(d.id) == None::<Seq<char>>);
                    assert(g_at.nbrs(d.id) == d.connected_node_ids@);
                }
                assert forall|k: int| 0 <= k < config.client@.len() implies {
                    let c = #[trigger] config.client@[k];
                    &&& self.is_client(c.id)
                    &&& self.nbrs(c.id) == c.connected_drone_ids@
                } by {
                    let c = config.client@[k];
                    assert(all[dlen + k] == c.id);
                    assert(c.id != entry.id);
                    assert(self.info()[c.id as int] == g_at.info()[c.id as int]);
                    assert(self.nbrs(c.id) == g_at.nbrs(c.id));
                    assert(g_at.is_client(c.id));
                    assert(g_at.nbrs(c.id) == c.connected_drone_ids@);
                }
                assert forall|k: int| 0 <= k < i + 1 implies {
                    let sv = #[trigger] config.server@[k];
                    &&& self.is_server(sv.id)
                    &&& self.nbrs(sv.id) == sv.connected_drone_ids@
                } by {
                    let sv = config.server@[k];
                    if k < i {
                        assert(all[clen + k] == sv.id);
                        assert(sv.id != entry.id);
                        assert(self.info()[sv.id as int] == g_at.info()[sv.id as int]);
                        assert(self.nbrs(sv.id) == g_at.nbrs(sv.id));
                        assert(g_at.is_server(sv.id));
                        assert(g_at.nbrs(sv.id) == sv.connected_drone_ids@);
                    }
                }
                assert forall|n: NodeId|
                    !all.subrange(0, clen + i + 1).contains(n) implies #[trigger] self.nbrs(n)
                        == Seq::<NodeId>::empty() by {
                    lemma_contains_push(sub, entry.id, n);
                    assert(!sub.contains(n) && n != entry.id);
                    assert(self.nbrs(n) == g_at.nbrs(n));
                }
            }
            i = i + 1;
        }
        proof {
            assert(all.subrange(0, all.len() as int) =~= all);
            let dlen2 = config.drone@.len() as int;
            let clen2 = dlen2 + config.client@.len() as int;
            assert forall|n: NodeId| #[trigger] self.is_drone(n) implies config.drone@.map_values(
                |d: Drone| d.id,
            ).contains(n) by {
                assert(self.has_node(n));
                let k = choose|k: int| 0 <= k < all.len() && all[k] == n;
                if k < dlen2 {
                    assert(config.drone@.map_values(|d: Drone| d.id)[k] == n);
                } else if k < clen2 {
                    assert(config.client@[k - dlen2].id == n);
                    assert(self.is_client(n));
                } else {
                    assert(config.server@[k - clen2].id == n);
                    assert(self.is_server(n));
                }
            }
            assert forall|n: NodeId| #[trigger] self.is_client(n) implies config.client@.map_values(
                |c: Client| c.id,
            ).contains(n) by {
                assert(self.has_node(n));
                let k = choose|k: int| 0 <= k < all.len() && all[k] == n;
                if k < dlen2 {
                    assert(config.drone@[k].id == n);
                    assert(self.is_drone(n));
                } else if k < clen2 {
                    assert(config.client@.map_values(|c: Client| c.id)[k - dlen2] == n);
                } else {
                    assert(config.server@[k - clen2].id == n);
                    assert(self.is_server(n));
                }
            }
            assert forall|n: NodeId| #[trigger] self.is_server(n) implies config.server@.map_values(
                |sv: Server| sv.id,
            ).contains(n) by {
                assert(self.has_node(n));
                let k = choose|k: int| 0 <= k < all.len() && all[k] == n;
                if k < dlen2 {
                    assert(config.drone@[k].id == n);
                    assert(self.is_drone(n));
                } else if k < clen2 {
                    assert(config.client@[k - dlen2].id == n);
                    assert(self.is_client(n));
                } else {
                    assert(config.server@.map_values(|sv: Server| sv.id)[k - clen2] == n);
                }
            }
        }
    }
}

/// A neighbor list after an undirected edge between `a` and `b` is added:
/// the entry owning id `a` gains `b` and the entry owning id `b` gains `a`.
pub open spec fn edge_added(list: Seq<NodeId>, id: NodeId, a: NodeId, b: NodeId) -> Seq<NodeId> {
    let l1 = if id == a {
        list.push(b)
    } else {
        list
    };
    if id == b {
        l1.push(a)
    } else {
        l1
    }
}

/// A neighbor list after the undirected edge between `a` and `b` is
/// removed.
pub open spec fn edge_removed(list: Seq<NodeId>, id: NodeId, a: NodeId, b: NodeId) -> Seq<
    NodeId,
> {
    let l1 = if id == a {
        list.filter(crate::topology::ne_to(b))
    } else {
        list
    };
    if id == b {
        l1.filter(crate::topology::ne_to(a))
    } else {
        l1
    }
}

/// Adds the undirected edge between two ids to the stored configuration:
/// each entry owning one of the two ids gains the other as a neighbor.
pub fn add_edge_to_config(config: &mut Config, node1_id: NodeId, node2_id: NodeId)
    ensures
        final(config).drone@.len() == old(config).drone@.len(),
        final(config).client@.len() == old(config).client@.len(),
        final(config).server@.len() == old(config).server@.len(),
        forall|k: int|
            0 <= k < old(config).drone@.len() ==> {
                let before = old(config).drone@[k];
                let after = #[trigger] final(config).drone@[k];
                &&& after.id == before.id
                &&& after.pdr == before.pdr
                &&& after.connected_node_ids@ == edge_added(
                    before.connected_node_ids@,
                    before.id,
                    node1_id,
                    node2_id,
                )
            },
        forall|k: int|
            0 <= k < old(config).client@.len() ==> {
                let before = old(config).client@[k];
                let after = #[trigger] final(config).client@[k];
                &&& after.id == before.id
                &&& after.connected_drone_ids@ == edge_added(
                    before.connected_drone_ids@,
                    before.id,
                    node1_id,
                    node2_id,
                )
            },
        forall|k: int|
            0 <= k < old(config).server@.len() ==> {
                let before = old(config).server@[k];
                let after = #[trigger] final(config).server@[k];
                &&& after.id == before.id
                &&& after.connected_drone_ids@ == edge_added(
                    before.connected_drone_ids@,
                    before.id,
                    node1_id,
                    node2_id,
                )
            },
{
    let mut k: usize = 0;
    while k < config.drone.len()
        invariant
            config.drone@.len() == old(config).drone@.len(),
            config.client@ == old(config).client@,
            config.server@ == old(config).server@,
            k <= config.drone@.len(),
            forall|j: int|
                k <= j < config.drone@.len() ==> #[trigger] config.drone@[j] == old(config).drone@[j],
            forall|j: int|
                0 <= j < k ==> {
                    let before = old(config).drone@[j];
                    let after = #[trigger] config.drone@[j];
                    &&& after.id == before.id
                    &&& after.pdr == before.pdr
                    &&& after.connected_node_ids@ == edge_added(
                        before.connected_node_ids@,
                        before.id,
                        node1_id,
                        node2_id,
                    )
                },
        decreases config.drone@.len() - k,
    {
        let slot = &mut config.drone[k];
        if slot.id == node1_id {
            slot.connected_node_ids.push(node2_id);
        }
        if slot.id == node2_id {
            slot.connected_node_ids.push(node1_id);
        }
        k = k + 1;
    }
    let mut k: usize = 0;
    while k < config.client.len()
        invariant
            config.drone@.len() == old(config).drone@.len(),
            forall|j: int|
                0 <= j < config.drone@.len() ==> {
                    let before = old(config).drone@[j];
                    let after = #[trigger] config.drone@[j];
                    &&& after.id == before.id
                    &&& after.pdr == before.pdr
                    &&& after.connected_node_ids@ == edge_added(
                        before.connected_node_ids@,
                        before.id,
                        node1_id,
                        node2_id,
                    )
                },
            config.client@.len() == old(config).client@.len(),
            config.server@ == old(config).server@,
            k <= config.client@.len(),
            forall|j: int|
                k <= j < config.client@.len() ==> #[trigger] config.client@[j] == old(config).client@[j],
            forall|j: int|
                0 <= j < k ==> {
                    let before = old(config).client@[j];
                    let after = #[trigger] config.client@[j];
                    &&& after.id == before.id
                    &&& after.connected_drone_ids@ == edge_added(
                        before.connected_drone_ids@,
                        before.id,
                        node1_id,
                        node2_id,
                    )
                },
        decreases config.client@.len() - k,
    {
        let slot = &mut config.client[k];
        if slot.id == node1_id {
            slot.connected_drone_ids.push(node2_id);
        }
        if slot.id == node2_id {
            slot.connected_drone_ids.push(node1_id);
        }
        k = k + 1;
    }
    let mut k: usize = 0;
    while k < config.server.len()
        invariant
            config.drone@.len() == old(config).drone@.len(),
            forall|j: int|
                0 <= j < config.drone@.len() ==> {
                    let before = old(config).drone@[j];
                    let after = #[trigger] config.drone@[j];
                    &&& after.id == before.id
                    &&& after.pdr == before.pdr
                    &&& after.connected_node_ids@ == edge_added(
                        before.connected_node_ids@,
                        before.id,
                        node1_id,
                        node2_id,
                    )
                },
            config.client@.len() == old(config).client@.len(),
            forall|j: int|
                0 <= j < config.client@.len() ==> {
                    let before = old(config).client@[j];
                    let after = #[trigger] config.client@[j];
                    &&& after.id == before.id
                    &&& after.connected_drone_ids@ == edge_added(
                        before.connected_drone_ids@,
                        before.id,
                        node1_id,
                        node2_id,
                    )
                },
            config.server@.len() == old(config).server@.len(),
            k <= config.server@.len(),
            forall|j: int|
                k <= j < config.server@.len() ==> #[trigger] config.server@[j] == old(config).server@[j],
            forall|j: int|
                0 <= j < k ==> {
                    let before = old(config).server@[j];
                    let after = #[trigger] config.server@[j];
                    &&& after.id == before.id
                    &&& after.connected_drone_ids@ == edge_added(
                        before.connected_drone_ids@,
                        before.id,
                        node1_id,
                        node2_id,
                    )
                },
        decreases config.server@.len() - k,
    {
        let slot = &mut config.server[k];
        if slot.id == node1_id {
            slot.connected_drone_ids.push(node2_id);
        }
        if slot.id == node2_id {
            slot.connected_drone_ids.push(node1_id);
        }
        k = k + 1;
    }
}

/// Removes the undirected edge between two ids from the stored
/// configuration: each entry owning one of the two ids loses every
/// occurrence of the other.
pub fn remove_edge_from_config(config: &mut Config, node1_id: NodeId, node2_id: NodeId)
    ensures
        final(config).drone@.len() == old(config).drone@.len(),
        final(config).client@.len() == old(config).client@.len(),
        final(config).server@.len() == old(config).server@.len(),
        forall|k: int|
            0 <= k < old(config).drone@.len() ==> {
                let before = old(config).drone@[k];
                let after = #[trigger] final(config).drone@[k];
                &&& after.id == before.id
                &&& after.pdr == before.pdr
                &&& after.connected_node_ids@ == edge_removed(
                    before.connected_node_ids@,
                    before.id,
                    node1_id,
                    node2_id,
                )
            },
        forall|k: int|
            0 <= k < old(config).client@.len() ==> {
                let before = old(config).client@[k];
                let after = #[trigger] final(config).client@[k];
                &&& after.id == before.id
                &&& after.connected_drone_ids@ == edge_removed(
                    before.connected_drone_ids@,
                    before.id,
                    node1_id,
                    node2_id,
                )
            },
        forall|k: int|
            0 <= k < old(config).server@.len() ==> {
                let before = old(config).server@[k];
                let after = #[trigger] final(config).server@[k];
                &&& after.id == before.id
                &&& after.connected_drone_ids@ == edge_removed(
                    before.connected_drone_ids@,
                    before.id,
                    node1_id,
                    node2_id,
                )
            },
{
    let mut k: usize = 0;
    while k < config.drone.len()
        invariant
            config.drone@.len() == old(config).drone@.len(),
            config.client@ == old(config).client@,
            config.server@ == old(config).server@,
            k <= config.drone@.len(),
            forall|j: int|
                k <= j < config.drone@.len() ==> #[trigger] config.drone@[j] == old(config).drone@[j],
            forall|j: int|
                0 <= j < k ==> {
                    let before = old(config).drone@[j];
                    let after = #[trigger] config.drone@[j];
                    &&& after.id == before.id
                    &&& after.pdr == before.pdr
                    &&& after.connected_node_ids@ == edge_removed(
                        before.connected_node_ids@,
                        before.id,
                        node1_id,
                        node2_id,
                    )
                },
        decreases config.drone@.len() - k,
    {
        let slot = &mut config.drone[k];
        if slot.id == node1_id {
            let row = crate::topology::remove_all(&slot.connected_node_ids, node2_id);
            slot.connected_node_ids = row;
        }
        if slot.id == node2_id {
            let row = crate::topology::remove_all(&slot.connected_node_ids, node1_id);
            slot.connected_node_ids = row;
        }
        k = k + 1;
    }
    let mut k: usize = 0;
    while k < config.client.len()
        invariant
            config.drone@.len() == old(config).drone@.len(),
            forall|j: int|
                0 <= j < config.drone@.len() ==> {
                    let before = old(config).drone@[j];
                    let after = #[trigger] config.drone@[j];
                    &&& after.id == before.id
                    &&& after.pdr == before.pdr
                    &&& after.connected_node_ids@ == edge_removed(
                        before.connected_node_ids@,
                        before.id,
                        node1_id,
                        node2_id,
                    )
                },
            config.client@.len() == old(config).client@.len(),
            config.server@ == old(config).server@,
            k <= config.client@.len(),
            forall|j: int|
                k <= j < config.client@.len() ==> #[trigger] config.client@[j] == old(config).client@[j],
            forall|j: int|
                0 <= j < k ==> {
                    let before = old(config).client@[j];
                    let after = #[trigger] config.client@[j];
                    &&& after.id == before.id
                    &&& after.connected_drone_ids@ == edge_removed(
                        before.connected_drone_ids@,
                        before.id,
                        node1_id,
                        node2_id,
                    )
                },
        decreases config.client@.len() - k,
    {
        let slot = &mut config.client[k];
        if slot.id == node1_id {
            let row = crate::topology::remove_all(&slot.connected_drone_ids, node2_id);
            slot.connected_drone_ids = row;
        }
        if slot.id == node2_id {
            let row = crate::topology::remove_all(&slot.connected_drone_ids, node1_id);
            slot.connected_drone_ids = row;
        }
        k = k + 1;
    }
    let mut k: usize = 0;
    while k < config.server.len()
        invariant
            config.drone@.len() == old(config).drone@.len(),
            forall|j: int|
                0 <= j < config.drone@.len() ==> {
                    let before = old(config).drone@[j];
                    let after = #[trigger] config.drone@[j];
                    &&& after.id == before.id
                    &&& after.pdr == before.pdr
                    &&& after.connected_node_ids@ == edge_removed(
                        before.connected_node_ids@,
                        before.id,
                        node1_id,
                        node2_id,
                    )
                },
            config.client@.len() == old(config).client@.len(),
            forall|j: int|
                0 <= j < config.client@.len() ==> {
                    let before = old(config).client@[j];
                    let after = #[trigger] config.client@[j];
                    &&& after.id == before.id
                    &&& after.connected_drone_ids@ == edge_removed(
                        before.connected_drone_ids@,
                        before.id,
                        node1_id,
                        node2_id,
                    )
                },
            config.server@.len() == old(config).server@.len(),
            k <= config.server@.len(),
            forall|j: int|
                k <= j < config.server@.len() ==> #[trigger] config.server@[j] == old(config).server@[j],
            forall|j: int|
                0 <= j < k ==> {
                    let before = old(config).server@[j];
                    let after = #[trigger] config.server@[j];
                    &&& after.id == before.id
                    &&& after.connected_drone_ids@ == edge_removed(
                        before.connected_drone_ids@,
                        before.id,
                        node1_id,
                        node2_id,
                    )
                },
        decreases config.server@.len() - k,
    {
        let slot = &mut config.server[k];
        if slot.id == node1_id {
            let row = crate::topology::remove_all(&slot.connected_drone_ids, node2_id);
            slot.connected_drone_ids = row;
        }
        if slot.id == node2_id {
            let row = crate::topology::remove_all(&slot.connected_drone_ids, node1_id);
            slot.connected_drone_ids = row;
        }
        k = k + 1;
    }
}

/// One drone entry after a node is removed: same id and drop rate, with
/// every occurrence of the removed id filtered out of the neighbor list.
pub open spec fn filtered_drone_entry(before: Drone, after: Drone, x: NodeId) -> bool {
    &&& after.id == before.id
    &&& after.pdr == before.pdr
    &&& after.connected_node_ids@ == before.connected_node_ids@.filter(crate::topology::ne_to(x))
}

/// One client entry after a node is removed.
pub open spec fn filtered_client_entry(before: Client, after: Client, x: NodeId) -> bool {
    &&& after.id == before.id
    &&& after.connected_drone_ids@ == before.connected_drone_ids@.filter(
        crate::topology::ne_to(x),
    )
}

/// One server entry after a node is removed.
pub open spec fn filtered_server_entry(before: Server, after: Server, x: NodeId) -> bool {
    &&& after.id == before.id
    &&& after.connected_drone_ids@ == before.connected_drone_ids@.filter(
        crate::topology::ne_to(x),
    )
}

/// Removes a node from the stored configuration: its own entry disappears
/// and every neighbor list loses every occurrence of its id.  Every
/// remaining entry is one of the old entries with the id filtered out of
/// its list, and every old entry other than the removed one remains.
pub fn remove_node_from_config(config: &mut Config, node_id: NodeId)
    ensures
        forall|k: int|
            0 <= k < final(config).drone@.len() ==> (#[trigger] final(config).drone@[k]).id
                != node_id,
        forall|k: int|
            0 <= k < final(config).client@.len() ==> (#[trigger] final(config).client@[k]).id
                != node_id,
        forall|k: int|
            0 <= k < final(config).server@.len() ==> (#[trigger] final(config).server@[k]).id
                != node_id,
        forall|k: int|
            0 <= k < final(config).drone@.len() ==> ((#[trigger] final(config).drone@[k]).id
                != node_id && exists|j: int|
                0 <= j < old(config).drone@.len() && #[trigger] filtered_drone_entry(
                    old(config).drone@[j],
                    final(config).drone@[k],
                    node_id,
                )),
        forall|j: int|
            #![trigger old(config).drone@[j]]
            0 <= j < old(config).drone@.len() && old(config).drone@[j].id != node_id ==> exists|
                k: int,
            |
                0 <= k < final(config).drone@.len() && (#[trigger] final(config).drone@[k]).id
                    == old(config).drone@[j].id,
        forall|k: int|
            0 <= k < final(config).client@.len() ==> ((#[trigger] final(config).client@[k]).id
                != node_id && exists|j: int|
                0 <= j < old(config).client@.len() && #[trigger] filtered_client_entry(
                    old(config).client@[j],
                    final(config).client@[k],
                    node_id,
                )),
        forall|j: int|
            #![trigger old(config).client@[j]]
            0 <= j < old(config).client@.len() && old(config).client@[j].id != node_id ==> exists|
                k: int,
            |
                0 <= k < final(config).client@.len() && (#[trigger] final(config).client@[k]).id
                    == old(config).client@[j].id,
        forall|k: int|
            0 <= k < final(config).server@.len() ==> ((#[trigger] final(config).server@[k]).id
                != node_id && exists|j: int|
                0 <= j < old(config).server@.len() && #[trigger] filtered_server_entry(
                    old(config).server@[j],
                    final(config).server@[k],
                    node_id,
                )),
        forall|j: int|
            #![trigger old(config).server@[j]]
            0 <= j < old(config).server@.len() && old(config).server@[j].id != node_id ==> exists|
                k: int,
            |
                0 <= k < final(config).server@.len() && (#[trigger] final(config).server@[k]).id
                    == old(config).server@[j].id,
{
    let ghost orig = *config;
    let mut drones: Vec<Drone> = Vec::new();
    let ghost mut didx: Seq<int> = Seq::empty();
    let mut j: usize = 0;
    while j < config.drone.len()
        invariant
            config.drone@ == orig.drone@,
            j <= orig.drone@.len(),
            didx.len() == drones@.len(),
            forall|k: int| 0 <= k < drones@.len() ==> (#[trigger] drones@[k]).id != node_id,
            forall|k: int|
                0 <= k < drones@.len() ==> 0 <= #[trigger] didx[k] < orig.drone@.len()
                    && filtered_drone_entry(orig.drone@[didx[k]], drones@[k], node_id),
            forall|i: int|
                #![trigger orig.drone@[i]]
                0 <= i < j && orig.drone@[i].id != node_id ==> exists|k: int|
                    0 <= k < drones@.len() && (#[trigger] drones@[k]).id
                        == orig.drone@[i].id,
        decreases orig.drone@.len() - j,
    {
        let ghost prev = drones@;
        let entry = &config.drone[j];
        if entry.id != node_id {
            let filtered = crate::topology::remove_all(&entry.connected_node_ids, node_id);
            drones.push(Drone { id: entry.id, connected_node_ids: filtered, pdr: entry.pdr });
            proof {
                didx = didx.push(j as int);
                assert(filtered_drone_entry(orig.drone@[j as int], drones@[drones@.len() - 1], node_id));
            }
        }
        proof {
            assert forall|i: int|
                0 <= i < j + 1 && orig.drone@[i].id != node_id implies exists|k: int|
                    0 <= k < drones@.len() && (#[trigger] drones@[k]).id
                        == orig.drone@[i].id by {
                if i < j {
                    let k = choose|k: int| 0 <= k < prev.len() && prev[k].id == orig.drone@[i].id;
                    assert(drones@[k].id == orig.drone@[i].id);
                } else {
                    assert(drones@[drones@.len() - 1].id == orig.drone@[i].id);
                }
            }
        }
        j = j + 1;
    }
    let ghost dfin = drones@;
    config.drone = drones;
    let mut clients: Vec<Client> = Vec::new();
    let ghost mut cidx: Seq<int> = Seq::empty();
    let mut j: usize = 0;
    while j < config.client.len()
        invariant
            config.client@ == orig.client@,
            j <= orig.client@.len(),
            cidx.len() == clients@.len(),
            forall|k: int| 0 <= k < clients@.len() ==> (#[trigger] clients@[k]).id != node_id,
            forall|k: int|
                0 <= k < clients@.len() ==> 0 <= #[trigger] cidx[k] < orig.client@.len()
                    && filtered_client_entry(orig.client@[cidx[k]], clients@[k], node_id),
            forall|i: int|
                #![trigger orig.client@[i]]
                0 <= i < j && orig.client@[i].id != node_id ==> exists|k: int|
                    0 <= k < clients@.len() && (#[trigger] clients@[k]).id
                        == orig.client@[i].id,
        decreases orig.client@.len() - j,
    {
        let ghost prev = clients@;
        let entry = &config.client[j];
        if entry.id != node_id {
            let filtered = crate::topology::remove_all(&entry.connected_drone_ids, node_id);
            clients.push(Client { id: entry.id, connected_drone_ids: filtered });
            proof {
                cidx = cidx.push(j as int);
                assert(filtered_client_entry(orig.client@[j as int], clients@[clients@.len() - 1], node_id));
            }
        }
        proof {
            assert forall|i: int|
                0 <= i < j + 1 && orig.client@[i].id != node_id implies exists|k: int|
                    0 <= k < clients@.len() && (#[trigger] clients@[k]).id
                        == orig.client@[i].id by {
                if i < j {
                    let k = choose|k: int| 0 <= k < prev.len() && prev[k].id == orig.client@[i].id;
                    assert(clients@[k].id == orig.client@[i].id);
                } else {
                    assert(clients@[clients@.len() - 1].id == orig.client@[i].id);
                }
            }
        }
        j = j + 1;
    }
    let ghost cfin = clients@;
    config.client = clients;
    let mut servers: Vec<Server> = Vec::new();
    let ghost mut sidx: Seq<int> = Seq::empty();
    let mut j: usize = 0;
    while j < config.server.len()
        invariant
            config.server@ == orig.server@,
            j <= orig.server@.len(),
            sidx.len() == servers@.len(),
            forall|k: int| 0 <= k < servers@.len() ==> (#[trigger] servers@[k]).id != node_id,
            forall|k: int|
                0 <= k < servers@.len() ==> 0 <= #[trigger] sidx[k] < orig.server@.len()
                    && filtered_server_entry(orig.server@[sidx[k]], servers@[k], node_id),
            forall|i: int|
                #![trigger orig.server@[i]]
                0 <= i < j && orig.server@[i].id != node_id ==> exists|k: int|
                    0 <= k < servers@.len() && (#[trigger] servers@[k]).id
                        == orig.server@[i].id,
        decreases orig.server@.len() - j,
    {
        let ghost prev = servers@;
        let entry = &config.server[j];
        if entry.id != node_id {
            let filtered = crate::topology::remove_all(&entry.connected_drone_ids, node_id);
            servers.push(Server { id: entry.id, connected_drone_ids: filtered });
            proof {
                sidx = sidx.push(j as int);
                assert(filtered_server_entry(orig.server@[j as int], servers@[servers@.len() - 1], node_id));
            }
        }
        proof {
            assert forall|i: int|
                0 <= i < j + 1 && orig.server@[i].id != node_id implies exists|k: int|
                    0 <= k < servers@.len() && (#[trigger] servers@[k]).id
                        == orig.server@[i].id by {
                if i < j {
                    let k = choose|k: int| 0 <= k < prev.len() && prev[k].id == orig.server@[i].id;
                    assert(servers@[k].id == orig.server@[i].id);
                } else {
                    assert(servers@[servers@.len() - 1].id == orig.server@[i].id);
                }
            }
        }
        j = j + 1;
    }
    let ghost sfin = servers@;
    config.server = servers;
    proof {
        assert forall|k: int|
            #![trigger config.drone@[k]]
            0 <= k < config.drone@.len() implies exists|j: int|
                0 <= j < orig.drone@.len() && #[trigger] filtered_drone_entry(
                    orig.drone@[j],
                    config.drone@[k],
                    node_id,
                ) by {
            assert(config.drone@[k] == dfin[k]);
            assert(0 <= didx[k] < orig.drone@.len());
            assert(filtered_drone_entry(orig.drone@[didx[k]], config.drone@[k], node_id));
        }
        assert forall|k: int|
            #![trigger config.client@[k]]
            0 <= k < config.client@.len() implies exists|j: int|
                0 <= j < orig.client@.len() && #[trigger] filtered_client_entry(
                    orig.client@[j],
                    config.client@[k],
                    node_id,
                ) by {
            assert(config.client@[k] == cfin[k]);
            assert(0 <= cidx[k] < orig.client@.len());
            assert(filtered_client_entry(orig.client@[cidx[k]], config.client@[k], node_id));
        }
        assert forall|k: int|
            #![trigger config.server@[k]]
            0 <= k < config.server@.len() implies exists|j: int|
                0 <= j < orig.server@.len() && #[trigger] filtered_server_entry(
                    orig.server@[j],
                    config.server@[k],
                    node_id,
                ) by {
            assert(config.server@[k] == sfin[k]);
            assert(0 <= sidx[k] < orig.server@.len());
            assert(filtered_server_entry(orig.server@[sidx[k]], config.server@[k], node_id));
        }
    }
}

/// Pushes the fresh id once for every time the owner's id occurs in the
/// neighbor list of the node being added.
fn append_links(list: &mut Vec<NodeId>, owner: NodeId, neighbors: &Vec<NodeId>, new_id: NodeId)
    ensures
        final(list)@ == old(list)@ + crate::topology::rep_id(
            crate::topology::occurrences(neighbors@, owner),
            new_id,
        ),
{
    proof {
        assert(list@ =~= old(list)@ + crate::topology::rep_id(
            crate::topology::occurrences(neighbors@.subrange(0, 0), owner),
            new_id,
        ));
    }
    let mut t: usize = 0;
    while t < neighbors.len()
        invariant
            t <= neighbors@.len(),
            list@ == old(list)@ + crate::topology::rep_id(
                crate::topology::occurrences(neighbors@.subrange(0, t as int), owner),
                new_id,
            ),
        decreases neighbors@.len() - t,
    {
        proof {
            crate::topology::lemma_occurrences_step(neighbors@, t as int);
        }
        if neighbors[t] == owner {
            list.push(new_id);
            proof {
                assert(list@ =~= old(list)@ + crate::topology::rep_id(
                    crate::topology::occurrences(neighbors@.subrange(0, t as int + 1), owner),
                    new_id,
                ));
            }
        }
        t = t + 1;
    }
    proof {
        assert(neighbors@.subrange(0, neighbors@.len() as int) =~= neighbors@);
    }
}

/// Adds a node of the given kind to the stored configuration under the
/// smallest unused id, counting from one: its entry carries the neighbor
/// list, and every entry whose id occurs in that list gains the fresh id as
/// a neighbor, once per occurrence.
pub fn add_node_to_config(
    config: &mut Config,
    node_type: crate::topology::NodeType,
    neighbors: Vec<NodeId>,
    pdr: Option<u8>,
) -> (r: Result<NodeId, NetworkError>)
    ensures
        node_type == crate::topology::NodeType::Drone && pdr is None ==> r == Err::<
            NodeId,
            NetworkError,
        >(NetworkError::InvalidPdr(0)) && *final(config) == *old(config),
        node_type == crate::topology::NodeType::Drone && pdr is Some && pdr.unwrap() > 100 ==> (r
            == Err::<NodeId, NetworkError>(NetworkError::InvalidPdr(pdr.unwrap())) && *final(config) == *old(config)),
        r matches Ok(id) ==> {
            &&& id >= 1
            &&& !old(config).all_ids().contains(id)
            &&& forall|k: NodeId| 1 <= k < id ==> old(config).all_ids().contains(k)
            &&& (node_type == crate::topology::NodeType::Drone ==> {
                &&& final(config).drone@.len() == old(config).drone@.len() + 1
                &&& final(config).drone@.last().id == id
                &&& final(config).drone@.last().connected_node_ids@ == neighbors@
                    + crate::topology::rep_id(crate::topology::occurrences(neighbors@, id), id)
                &&& pdr is Some
                &&& final(config).drone@.last().pdr == pdr.unwrap()
                &&& final(config).client@.len() == old(config).client@.len()
                &&& final(config).server@.len() == old(config).server@.len()
            })
            &&& (node_type == crate::topology::NodeType::Client ==> {
                &&& final(config).client@.len() == old(config).client@.len() + 1
                &&& final(config).client@.last().id == id
                &&& final(config).client@.last().connected_drone_ids@ == neighbors@
                    + crate::topology::rep_id(crate::topology::occurrences(neighbors@, id), id)
                &&& final(config).drone@.len() == old(config).drone@.len()
                &&& final(config).server@.len() == old(config).server@.len()
            })
            &&& (node_type == crate::topology::NodeType::Server ==> {
                &&& final(config).server@.len() == old(config).server@.len() + 1
                &&& final(config).server@.last().id == id
                &&& final(config).server@.last().connected_drone_ids@ == neighbors@
                    + crate::topology::rep_id(crate::topology::occurrences(neighbors@, id), id)
                &&& final(config).drone@.len() == old(config).drone@.len()
                &&& final(config).client@.len() == old(config).client@.len()
            })
            &&& forall|k: int|
                0 <= k < old(config).drone@.len() ==> {
                    let before = old(config).drone@[k];
                    let after = #[trigger] final(config).drone@[k];
                    &&& after.id == before.id
                    &&& after.pdr == before.pdr
                    &&& after.connected_node_ids@ == before.connected_node_ids@
                        + crate::topology::rep_id(
                        crate::topology::occurrences(neighbors@, before.id),
                        id,
                    )
                }
            &&& forall|k: int|
                0 <= k < old(config).client@.len() ==> {
                    let before = old(config).client@[k];
                    let after = #[trigger] final(config).client@[k];
                    &&& after.id == before.id
                    &&& after.connected_drone_ids@ == before.connected_drone_ids@
                        + crate::topology::rep_id(
                        crate::topology::occurrences(neighbors@, before.id),
                        id,
                    )
                }
            &&& forall|k: int|
                0 <= k < old(config).server@.len() ==> {
                    let before = old(config).server@[k];
                    let after = #[trigger] final(config).server@[k];
                    &&& after.id == before.id
                    &&& after.connected_drone_ids@ == before.connected_drone_ids@
                        + crate::topology::rep_id(
                        crate::topology::occurrences(neighbors@, before.id),
                        id,
                    )
                }
        },
{
    let pdr_value: u8 = match node_type {
        crate::topology::NodeType::Drone => {
            match pdr {
                Some(p) => {
                    if p > 100 {
                        return Err(NetworkError::InvalidPdr(p));
                    }
                    p
                }
                None => {
                    return Err(NetworkError::InvalidPdr(0));
                }
            }
        }
        _ => 0,
    };
    let ids = config.collect_ids();
    let mut node_id: usize = 1;
    while node_id < ID_SPACE && crate::topology::vec_contains(&ids, node_id as NodeId)
        invariant
            ids@ == config.all_ids(),
            1 <= node_id <= ID_SPACE,
            forall|k: NodeId| 1 <= k < node_id ==> config.all_ids().contains(k),
        decreases ID_SPACE - node_id,
    {
        node_id = node_id + 1;
    }
    if node_id == ID_SPACE {
        return Err(NetworkError::InvalidOperation);
    }
    let new_id = node_id as NodeId;
    let ghost pre = *config;
    match node_type {
        crate::topology::NodeType::Drone => {
            config.drone.push(
                Drone { id: new_id, connected_node_ids: neighbors, pdr: pdr_value },
            );
        }
        crate::topology::NodeType::Client => {
            config.client.push(Client { id: new_id, connected_drone_ids: neighbors });
        }
        crate::topology::NodeType::Server => {
            config.server.push(Server { id: new_id, connected_drone_ids: neighbors });
        }
    }
    let ghost nbrs0 = (match node_type {
        crate::topology::NodeType::Drone => config.drone@.last().connected_node_ids@,
        crate::topology::NodeType::Client => config.client@.last().connected_drone_ids@,
        crate::topology::NodeType::Server => config.server@.last().connected_drone_ids@,
    });
    let ghost mid = *config;
    let neighbors_copy = match node_type {
        crate::topology::NodeType::Drone => crate::topology::copy_ids(
            &config.drone[config.drone.len() - 1].connected_node_ids,
        ),
        crate::topology::NodeType::Client => crate::topology::copy_ids(
            &config.client[config.client.len() - 1].connected_drone_ids,
        ),
        crate::topology::NodeType::Server => crate::topology::copy_ids(
            &config.server[config.server.len() - 1].connected_drone_ids,
        ),
    };
    let mut k: usize = 0;
    while k < config.drone.len()
        invariant
            neighbors_copy@ == nbrs0,
            config.drone@.len() == mid.drone@.len(),
            config.client@ == mid.client@,
            config.server@ == mid.server@,
            k <= config.drone@.len(),
            forall|j: int|
                k <= j < config.drone@.len() ==> #[trigger] config.drone@[j] == mid.drone@[j],
            forall|j: int|
                0 <= j < k ==> {
                    let before = mid.drone@[j];
                    let after = #[trigger] config.drone@[j];
                    &&& after.id == before.id
                    &&& after.pdr == before.pdr
                    &&& after.connected_node_ids@ == before.connected_node_ids@
                        + crate::topology::rep_id(
                        crate::topology::occurrences(nbrs0, before.id),
                        new_id,
                    )
                },
        decreases config.drone@.len() - k,
    {
        let slot = &mut config.drone[k];
        let owner = slot.id;
        append_links(&mut slot.connected_node_ids, owner, &neighbors_copy, new_id);
        k = k + 1;
    }
    let mut k: usize = 0;
    while k < config.client.len()
        invariant
            neighbors_copy@ == nbrs0,
            config.drone@.len() == mid.drone@.len(),
            forall|j: int|
                0 <= j < config.drone@.len() ==> {
                    let before = mid.drone@[j];
                    let after = #[trigger] config.drone@[j];
                    &&& after.id == before.id
                    &&& after.pdr == before.pdr
                    &&& after.connected_node_ids@ == before.connected_node_ids@
                        + crate::topology::rep_id(
                        crate::topology::occurrences(nbrs0, before.id),
                        new_id,
                    )
                },
            config.client@.len() == mid.client@.len(),
            config.server@ == mid.server@,
            k <= config.client@.len(),
            forall|j: int|
                k <= j < config.client@.len() ==> #[trigger] config.client@[j] == mid.client@[j],
            forall|j: int|
                0 <= j < k ==> {
                    let before = mid.client@[j];
                    let after = #[trigger] config.client@[j];
                    &&& after.id == before.id
                    &&& after.connected_drone_ids@ == before.connected_drone_ids@
                        + crate::topology::rep_id(
                        crate::topology::occurrences(nbrs0, before.id),
                        new_id,
                    )
                },
        decreases config.client@.len() - k,
    {
        let slot = &mut config.client[k];
        let owner = slot.id;
        append_links(&mut slot.connected_drone_ids, owner, &neighbors_copy, new_id);
        k = k + 1;
    }
    let mut k: usize = 0;
    while k < config.server.len()
        invariant
            neighbors_copy@ == nbrs0,
            config.drone@.len() == mid.drone@.len(),
            forall|j: int|
                0 <= j < config.drone@.len() ==> {
                    let before = mid.drone@[j];
                    let after = #[trigger] config.drone@[j];
                    &&& after.id == before.id
                    &&& after.pdr == before.pdr
                    &&& after.connected_node_ids@ == before.connected_node_ids@
                        + crate::topology::rep_id(
                        crate::topology::occurrences(nbrs0, before.id),
                        new_id,
                    )
                },
            config.client@.len() == mid.client@.len(),
            forall|j: int|
                0 <= j < config.client@.len() ==> {
                    let before = mid.client@[j];
                    let after = #[trigger] config.client@[j];
                    &&& after.id == before.id
                    &&& after.connected_drone_ids@ == before.connected_drone_ids@
                        + crate::topology::rep_id(
                        crate::topology::occurrences(nbrs0, before.id),
                        new_id,
                    )
                },
            config.server@.len() == mid.server@.len(),
            k <= config.server@.len(),
            forall|j: int|
                k <= j < config.server@.len() ==> #[trigger] config.server@[j] == mid.server@[j],
            forall|j: int|
                0 <= j < k ==> {
                    let before = mid.server@[j];
                    let after = #[trigger] config.server@[j];
                    &&& after.id == before.id
                    &&& after.connected_drone_ids@ == before.connected_drone_ids@
                        + crate::topology::rep_id(
                        crate::topology::occurrences(nbrs0, before.id),
                        new_id,
                    )
                },
        decreases config.server@.len() - k,
    {
        let slot = &mut config.server[k];
        let owner = slot.id;
        append_links(&mut slot.connected_drone_ids, owner, &neighbors_copy, new_id);
        k = k + 1;
    }
    Ok(new_id)
}

/// A prefix of one more element is the prefix with that element pushed.
pub proof fn lemma_subrange_push(s: Seq<NodeId>, i: int)
    requires
        0 <= i < s.len(),
    ensures
        s.subrange(0, i + 1) == s.subrange(0, i).push(s[i]),
{
    assert(s.subrange(0, i + 1) =~= s.subrange(0, i).push(s[i]));
}

/// Membership in a pushed sequence.
pub proof fn lemma_contains_push(s: Seq<NodeId>, e: NodeId, n: NodeId)
    ensures
        s.push(e).contains(n) == (s.contains(n) || n == e),
{
    if s.contains(n) {
        let k = choose|k: int| 0 <= k < s.len() && s[k] == n;
        assert(s.push(e)[k] == n);
    }
    if n == e {
        assert(s.push(e)[s.len() as int] == n);
    }
    if s.push(e).contains(n) {
        let k = choose|k: int| 0 <= k < s.push(e).len() && s.push(e)[k] == n;
        if k < s.len() {
            assert(s[k] == n);
        }
    }
}

} // verus!
