//! Validation of the network graph: the structural invariants, the
//! reachability model, and the checks run before any topology mutation is
//! committed.
//!
//! [`validate_graph`] returns `Ok` exactly when the graph satisfies every
//! invariant: edges are bidirectional, neighbor lists have no duplicates and
//! no self-loops, every listed neighbor exists, clients have one or two
//! neighbors, servers at least two, hosts are never adjacent to hosts, and
//! the graph is connected.  In strict mode the sub-graph induced by the
//! drones alone must be connected as well.

use vstd::prelude::*;

verus! {

use crate::errors::{NetworkError, ValidationIssue};
use crate::topology::{GraphState, NodeMetadata};
use crate::{NodeId, ID_SPACE};

impl GraphState {
    /// Invariant: for every edge `a -> b` the edge `b -> a` exists too.
    pub open spec fn inv_bidirectional(self) -> bool {
        forall|a: NodeId, b: NodeId|
            #[trigger] self.nbrs(a).contains(b) ==> self.nbrs(b).contains(a)
    }

    /// Invariant: no node lists itself as a neighbor.
    pub open spec fn inv_no_self_loop(self) -> bool {
        forall|a: NodeId| !(#[trigger] self.nbrs(a).contains(a))
    }

    /// Invariant: no neighbor list mentions the same node twice.
    pub open spec fn inv_no_duplicates(self) -> bool {
        forall|a: NodeId, i: int, j: int|
            0 <= i < j < self.nbrs(a).len() ==> #[trigger] self.nbrs(a)[i] != #[trigger] self.nbrs(
                a,
            )[j]
    }

    /// Invariant: every listed neighbor exists, and ids without a node have
    /// an empty neighbor list.
    pub open spec fn inv_closed(self) -> bool {
        &&& forall|a: NodeId, b: NodeId|
            #[trigger] self.nbrs(a).contains(b) ==> self.has_node(b)
        &&& forall|a: NodeId| !self.has_node(a) ==> (#[trigger] self.nbrs(a)).len() == 0
    }

    /// Invariant: every client has one or two neighbors.
    pub open spec fn inv_client_degree(self) -> bool {
        forall|a: NodeId| self.is_client(a) ==> 1 <= (#[trigger] self.nbrs(a)).len() <= 2
    }

    /// Invariant: every server has at least two neighbors.
    pub open spec fn inv_server_degree(self) -> bool {
        forall|a: NodeId| self.is_server(a) ==> (#[trigger] self.nbrs(a)).len() >= 2
    }

    /// Invariant: no host (client or server) is adjacent to another host.
    pub open spec fn inv_hosts_apart(self) -> bool {
        forall|a: NodeId, b: NodeId|
            self.is_host(a) && #[trigger] self.nbrs(a).contains(b) ==> !self.is_host(b)
    }

    /// The graph has at least one node.
    pub open spec fn nonempty(self) -> bool {
        exists|n: NodeId| self.has_node(n)
    }

    /// One step of a walk; when `only_drones` is set, the target must be a
    /// drone, so walks stay inside the drone sub-graph.
    pub open spec fn step_ok(self, only_drones: bool, a: NodeId, b: NodeId) -> bool {
        self.nbrs(a).contains(b) && (only_drones ==> self.is_drone(b))
    }

    /// A walk through the graph: a nonempty sequence of nodes where each
    /// consecutive pair is adjacent (and, restricted to drones, each node is
    /// a drone).
    pub open spec fn is_walk(self, only_drones: bool, p: Seq<NodeId>) -> bool {
        &&& p.len() >= 1
        &&& (only_drones ==> self.is_drone(p[0]))
        &&& forall|i: int| 0 <= i < p.len() - 1 ==> #[trigger] self.step_ok(only_drones, p[i], p[i + 1])
    }

    /// `b` can be reached from `a` by some walk.
    pub open spec fn reaches(self, only_drones: bool, a: NodeId, b: NodeId) -> bool {
        exists|p: Seq<NodeId>| self.is_walk(only_drones, p) && p.first() == a && p.last() == b
    }

    /// Invariant: any two nodes are connected by a walk.
    pub open spec fn inv_connected(self) -> bool {
        forall|a: NodeId, b: NodeId|
            self.has_node(a) && self.has_node(b) ==> #[trigger] self.reaches(false, a, b)
    }

    /// Strict-mode invariant: the sub-graph induced by the drones alone is
    /// nonempty and connected.
    pub open spec fn inv_drone_connected(self) -> bool {
        &&& exists|d: NodeId| self.is_drone(d)
        &&& forall|a: NodeId, b: NodeId|
            self.is_drone(a) && self.is_drone(b) ==> #[trigger] self.reaches(true, a, b)
    }

    /// All structural invariants that a single pass over the tables checks.
    pub open spec fn valid_structural(self) -> bool {
        &&& self.nonempty()
        &&& self.inv_bidirectional()
        &&& self.inv_no_self_loop()
        &&& self.inv_no_duplicates()
        &&& self.inv_closed()
        &&& self.inv_client_degree()
        &&& self.inv_server_degree()
        &&& self.inv_hosts_apart()
    }

    /// The full validity predicate checked before a mutation is committed.
    pub open spec fn valid(self, strict: bool) -> bool {
        &&& self.valid_structural()
        &&& self.inv_connected()
        &&& (strict ==> self.inv_drone_connected())
    }
}

impl GraphState {
    /// Every node of a drone-restricted walk is a drone.
    pub proof fn lemma_walk_drone_at(self, p: Seq<NodeId>, i: int)
        requires
            self.is_walk(true, p),
            0 <= i < p.len(),
        ensures
            self.is_drone(p[i]),
        decreases i,
    {
        if i > 0 {
            self.lemma_walk_drone_at(p, i - 1);
            assert(self.step_ok(true, p[i - 1], p[(i - 1) + 1]));
        }
    }

    /// A single node is a walk from itself to itself.
    pub proof fn lemma_reaches_self(self, only_drones: bool, a: NodeId)
        requires
            only_drones ==> self.is_drone(a),
        ensures
            self.reaches(only_drones, a, a),
    {
        let p = seq![a];
        assert(self.is_walk(only_drones, p));
        assert(p.first() == a && p.last() == a);
    }

    /// Extending a walk by one adjacent node keeps it a walk.
    pub proof fn lemma_reaches_step(self, only_drones: bool, a: NodeId, b: NodeId, c: NodeId)
        requires
            self.reaches(only_drones, a, b),
            self.step_ok(only_drones, b, c),
        ensures
            self.reaches(only_drones, a, c),
    {
        let p = choose|p: Seq<NodeId>|
            self.is_walk(only_drones, p) && p.first() == a && p.last() == b;
        let q = p.push(c);
        assert forall|i: int| 0 <= i < q.len() - 1 implies #[trigger] self.step_ok(
            only_drones,
            q[i],
            q[i + 1],
        ) by {
            if i < p.len() - 1 {
                assert(self.step_ok(only_drones, p[i], p[i + 1]));
            } else {
                assert(q[i] == b && q[i + 1] == c);
            }
        }
        assert(self.is_walk(only_drones, q));
        assert(q.first() == a && q.last() == c);
    }

    /// Reachability is transitive.
    pub proof fn lemma_reaches_trans(self, only_drones: bool, a: NodeId, b: NodeId, c: NodeId)
        requires
            self.reaches(only_drones, a, b),
            self.reaches(only_drones, b, c),
        ensures
            self.reaches(only_drones, a, c),
    {
        let q = choose|q: Seq<NodeId>|
            self.is_walk(only_drones, q) && q.first() == b && q.last() == c;
        self.lemma_reaches_along(only_drones, a, q, q.len() - 1);
    }

    /// Helper for transitivity: walk `q` starts at a node reachable from
    /// `a`, so every node along `q` is reachable from `a`.
    proof fn lemma_reaches_along(self, only_drones: bool, a: NodeId, q: Seq<NodeId>, i: int)
        requires
            self.is_walk(only_drones, q),
            self.reaches(only_drones, a, q.first()),
            0 <= i < q.len(),
        ensures
            self.reaches(only_drones, a, q[i]),
        decreases i,
    {
        if i > 0 {
            self.lemma_reaches_along(only_drones, a, q, i - 1);
            assert(self.step_ok(only_drones, q[i - 1], q[(i - 1) + 1]));
            self.lemma_reaches_step(only_drones, a, q[i - 1], q[i]);
        }
    }

    /// In a bidirectional graph, reachability is symmetric.
    pub proof fn lemma_reaches_sym(self, only_drones: bool, a: NodeId, b: NodeId)
        requires
            self.inv_bidirectional(),
            self.reaches(only_drones, a, b),
        ensures
            self.reaches(only_drones, b, a),
    {
        let p = choose|p: Seq<NodeId>|
            self.is_walk(only_drones, p) && p.first() == a && p.last() == b;
        let n = p.len();
        let r = Seq::<NodeId>::new(n as nat, |i: int| p[n - 1 - i]);
        assert forall|i: int| 0 <= i < r.len() - 1 implies #[trigger] self.step_ok(
            only_drones,
            r[i],
            r[i + 1],
        ) by {
            let j = n - 2 - i;
            assert(self.step_ok(only_drones, p[j], p[j + 1]));
            assert(self.nbrs(p[j]).contains(p[j + 1]));
            assert(self.nbrs(p[j + 1]).contains(p[j]));
            if only_drones {
                self.lemma_walk_drone_at(p, j);
            }
        }
        if only_drones {
            self.lemma_walk_drone_at(p, n - 1);
        }
        assert(self.is_walk(only_drones, r));
        assert(r.first() == b && r.last() == a);
    }

    /// A set of marks that contains the start of a walk and is closed under
    /// single steps contains the end of the walk.
    pub proof fn lemma_closed_covers(
        self,
        only_drones: bool,
        vis: Seq<bool>,
        p: Seq<NodeId>,
    )
        requires
            vis.len() == ID_SPACE,
            self.is_walk(only_drones, p),
            vis[p.first() as int],
            forall|v: NodeId, w: NodeId|
                vis[v as int] && #[trigger] self.step_ok(only_drones, v, w) ==> vis[w as int],
        ensures
            vis[p.last() as int],
        decreases p.len(),
    {
        if p.len() > 1 {
            let q = p.drop_last();
            assert(self.is_walk(only_drones, q)) by {
                assert forall|i: int| 0 <= i < q.len() - 1 implies #[trigger] self.step_ok(
                    only_drones,
                    q[i],
                    q[i + 1],
                ) by {
                    assert(self.step_ok(only_drones, p[i], p[i + 1]));
                }
            }
            self.lemma_closed_covers(only_drones, vis, q);
            assert(self.step_ok(only_drones, p[p.len() - 2], p[(p.len() - 2) + 1]));
        }
    }
}

/// How many entries of a mark table are still unset.
pub open spec fn count_false(s: Seq<bool>) -> nat
    decreases s.len(),
{
    if s.len() == 0 {
        0
    } else {
        count_false(s.drop_last()) + (if s.last() {
            0nat
        } else {
            1nat
        })
    }
}

/// Setting an unset mark strictly decreases the number of unset marks.
pub proof fn lemma_count_false_update(s: Seq<bool>, i: int)
    requires
        0 <= i < s.len(),
        !s[i],
    ensures
        count_false(s.update(i, true)) < count_false(s),
    decreases s.len(),
{
    let t = s.update(i, true);
    if i == s.len() - 1 {
        assert(t.drop_last() =~= s.drop_last());
        assert(t.last() && !s.last());
    } else {
        assert(t.drop_last() =~= s.drop_last().update(i, true));
        lemma_count_false_update(s.drop_last(), i);
        assert(t.last() == s.last());
    }
}

impl GraphState {
    /// Marks every node reachable from `start`, restricted to drones when
    /// `only_drones` is set.
    fn bfs_reach(&self, start: NodeId, only_drones: bool) -> (visited: Vec<bool>)
        requires
            self.wf(),
            only_drones ==> self.is_drone(start),
        ensures
            visited@.len() == ID_SPACE,
            forall|b: NodeId| #[trigger] visited@[b as int] == self.reaches(
                only_drones,
                start,
                b,
            ),
    {
        let mut visited: Vec<bool> = Vec::new();
        let mut i: usize = 0;
        while i < ID_SPACE
            invariant
                i <= ID_SPACE,
                visited@.len() == i,
                forall|k: int| 0 <= k < i ==> !(#[trigger] visited@[k]),
            decreases ID_SPACE - i,
        {
            visited.push(false);
            i = i + 1;
        }
        let mut stack: Vec<NodeId> = Vec::new();
        stack.push(start);
        proof {
            self.lemma_reaches_self(only_drones, start);
            assert(stack@[0] == start);
            assert(stack@.contains(start));
        }
        while stack.len() > 0
            invariant
                self.wf(),
                only_drones ==> self.is_drone(start),
                visited@.len() == ID_SPACE,
                forall|b: NodeId| #[trigger] visited@[b as int] ==> self.reaches(
                    only_drones,
                    start,
                    b,
                ),
                forall|k: int| 0 <= k < stack@.len() ==> self.reaches(
                    only_drones,
                    start,
                    #[trigger] stack@[k],
                ),
                visited@[start as int] || stack@.contains(start),
                forall|v: NodeId, w: NodeId|
                    visited@[v as int] && #[trigger] self.step_ok(only_drones, v, w)
                        ==> visited@[w as int] || stack@.contains(w),
            decreases count_false(visited@), stack@.len(),
        {
            let ghost stack_before = stack@;
            let node = match stack.pop() {
                Some(n) => n,
                None => {
                    return visited;  // unreachable: the loop condition holds
                }
            };
            proof {
                assert forall|v: NodeId, w: NodeId|
                    visited@[v as int] && #[trigger] self.step_ok(only_drones, v, w)
                        implies visited@[w as int] || stack@.contains(w) || w == node by {
                    if !visited@[w as int] {
                        assert(stack_before.contains(w));
                        let k = choose|k: int| 0 <= k < stack_before.len() && stack_before[k] == w;
                        if k < stack_before.len() - 1 {
                            assert(stack@[k] == w);
                        }
                    }
                }
                assert(visited@[start as int] || stack@.contains(start) || start == node) by {
                    if !visited@[start as int] {
                        let k = choose|k: int|
                            0 <= k < stack_before.len() && stack_before[k] == start;
                        if k < stack_before.len() - 1 {
                            assert(stack@[k] == start);
                        } else {
                            assert(node == start);
                        }
                    }
                }
            }
            if !visited[node as usize] {
                let ghost vis_before = visited@;
                let slot = &mut visited[node as usize];
                *slot = true;
                proof {
                    lemma_count_false_update(vis_before, node as int);
                }
                let row = &self.adjacency[node as usize];
                let ghost row_seq = self.nbrs(node);
                let mut t: usize = 0;
                while t < row.len()
                    invariant
                        self.wf(),
                        only_drones ==> self.is_drone(start),
                        row_seq == self.nbrs(node),
                        row@ == row_seq,
                        t <= row@.len(),
                        visited@.len() == ID_SPACE,
                        visited@[node as int],
                        self.reaches(only_drones, start, node),
                        forall|b: NodeId| #[trigger] visited@[b as int] ==> self.reaches(
                            only_drones,
                            start,
                            b,
                        ),
                        forall|k: int| 0 <= k < stack@.len() ==> self.reaches(
                            only_drones,
                            start,
                            #[trigger] stack@[k],
                        ),
                        visited@[start as int] || stack@.contains(start),
                        forall|v: NodeId, w: NodeId|
                            visited@[v as int] && v != node && #[trigger] self.step_ok(
                                only_drones,
                                v,
                                w,
                            ) ==> visited@[w as int] || stack@.contains(w),
                        forall|k: int|
                            0 <= k < t ==> (self.step_ok(only_drones, node, #[trigger] row_seq[k])
                                ==> visited@[row_seq[k] as int] || stack@.contains(row_seq[k])),
                    decreases row@.len() - t,
                {
                    let nbr = row[t];
                    let push_it = if only_drones {
                        match &self.node_info[nbr as usize] {
                            Some(NodeMetadata::Drone(_)) => true,
                            _ => false,
                        }
                    } else {
                        true
                    };
                    let ghost stack_pre = stack@;
                    if push_it {
                        stack.push(nbr);
                        proof {
                            assert(self.nbrs(node).contains(nbr)) by {
                                assert(self.nbrs(node)[t as int] == nbr);
                            }
                            assert(self.step_ok(only_drones, node, nbr));
                            self.lemma_reaches_step(only_drones, start, node, nbr);
                        }
                    }
                    proof {
                        assert forall|w: NodeId| stack_pre.contains(w) implies stack@.contains(
                            w,
                        ) by {
                            let k = choose|k: int| 0 <= k < stack_pre.len() && stack_pre[k] == w;
                            assert(stack@[k] == w);
                        }
                        if push_it {
                            assert(stack@[stack@.len() - 1] == nbr);
                        }
                    }
                    t = t + 1;
                }
                proof {
                    assert forall|v: NodeId, w: NodeId|
                        visited@[v as int] && #[trigger] self.step_ok(only_drones, v, w)
                            implies visited@[w as int] || stack@.contains(w) by {
                        if v == node {
                            let k = choose|k: int|
                                0 <= k < row_seq.len() && row_seq[k] == w;
                            assert(self.step_ok(only_drones, node, row_seq[k]));
                        }
                    }
                }
            }
        }
        proof {
            assert(visited@[start as int]);
            assert forall|b: NodeId| #[trigger] visited@[b as int] == self.reaches(
                only_drones,
                start,
                b,
            ) by {
                if self.reaches(only_drones, start, b) {
                    let p = choose|p: Seq<NodeId>|
                        self.is_walk(only_drones, p) && p.first() == start && p.last() == b;
                    self.lemma_closed_covers(only_drones, visited@, p);
                }
            }
        }
        visited
    }
}

/// Two graphs with the same kinds and the same neighbor lists.
pub open spec fn same_graph_views(a: GraphState, b: GraphState) -> bool {
    &&& forall|n: NodeId| #[trigger] a.kind_of(n) == b.kind_of(n)
    &&& forall|n: NodeId| #[trigger] a.nbrs(n) == b.nbrs(n)
}

/// A walk transfers between graphs with the same views.
proof fn lemma_walk_same_views(a: GraphState, b: GraphState, od: bool, p: Seq<NodeId>)
    requires
        same_graph_views(a, b),
        a.is_walk(od, p),
    ensures
        b.is_walk(od, p),
{
    assert forall|i: int| 0 <= i < p.len() - 1 implies #[trigger] b.step_ok(od, p[i], p[i + 1]) by {
        assert(a.step_ok(od, p[i], p[i + 1]));
        assert(a.nbrs(p[i]) == b.nbrs(p[i]));
        assert(a.kind_of(p[i + 1]) == b.kind_of(p[i + 1]));
    }
    assert(a.kind_of(p[0]) == b.kind_of(p[0]));
}

/// Validity depends only on the kinds and the neighbor lists: two graphs
/// with the same views are valid under exactly the same conditions.
pub proof fn lemma_valid_same_views(a: GraphState, b: GraphState, strict: bool)
    requires
        a.wf(),
        b.wf(),
        same_graph_views(a, b),
    ensures
        a.valid(strict) == b.valid(strict),
{
    assert forall|od: bool, x: NodeId, y: NodeId|
        #[trigger] a.reaches(od, x, y) == b.reaches(od, x, y) by {
        if a.reaches(od, x, y) {
            let p = choose|p: Seq<NodeId>| a.is_walk(od, p) && p.first() == x && p.last() == y;
            lemma_walk_same_views(a, b, od, p);
        }
        if b.reaches(od, x, y) {
            let p = choose|p: Seq<NodeId>| b.is_walk(od, p) && p.first() == x && p.last() == y;
            lemma_walk_same_views(b, a, od, p);
        }
    }
    assert forall|n: NodeId| #[trigger] a.has_node(n) == b.has_node(n) by {
        assert(a.kind_of(n) == b.kind_of(n));
    }
    assert forall|n: NodeId| #[trigger] a.is_drone(n) == b.is_drone(n) by {
        assert(a.kind_of(n) == b.kind_of(n));
    }
    assert(a.nonempty() == b.nonempty()) by {
        if a.nonempty() {
            let n = choose|n: NodeId| a.has_node(n);
            assert(b.has_node(n));
        }
        if b.nonempty() {
            let n = choose|n: NodeId| b.has_node(n);
            assert(a.has_node(n));
        }
    }
    assert(a.inv_bidirectional() == b.inv_bidirectional()) by {
        if a.inv_bidirectional() {
            assert forall|x: NodeId, y: NodeId|
                #[trigger] b.nbrs(x).contains(y) implies b.nbrs(y).contains(x) by {
                assert(a.nbrs(x).contains(y));
            }
        }
        if b.inv_bidirectional() {
            assert forall|x: NodeId, y: NodeId|
                #[trigger] a.nbrs(x).contains(y) implies a.nbrs(y).contains(x) by {
                assert(b.nbrs(x).contains(y));
            }
        }
    }
    assert(a.inv_no_self_loop() == b.inv_no_self_loop()) by {
        if a.inv_no_self_loop() {
            assert forall|x: NodeId| !(#[trigger] b.nbrs(x).contains(x)) by {
                assert(a.nbrs(x) == b.nbrs(x));
                assert(!a.nbrs(x).contains(x));
            }
        }
        if b.inv_no_self_loop() {
            assert forall|x: NodeId| !(#[trigger] a.nbrs(x).contains(x)) by {
                assert(a.nbrs(x) == b.nbrs(x));
                assert(!b.nbrs(x).contains(x));
            }
        }
    }
    assert(a.inv_no_duplicates() == b.inv_no_duplicates()) by {
        if a.inv_no_duplicates() {
            assert forall|x: NodeId, i: int, j: int|
                0 <= i < j < b.nbrs(x).len() implies #[trigger] b.nbrs(x)[i] != #[trigger] b.nbrs(
                x,
            )[j] by {
                assert(a.nbrs(x) == b.nbrs(x));
                assert(a.nbrs(x)[i] != a.nbrs(x)[j]);
            }
        }
        if b.inv_no_duplicates() {
            assert forall|x: NodeId, i: int, j: int|
                0 <= i < j < a.nbrs(x).len() implies #[trigger] a.nbrs(x)[i] != #[trigger] a.nbrs(
                x,
            )[j] by {
                assert(a.nbrs(x) == b.nbrs(x));
                assert(b.nbrs(x)[i] != b.nbrs(x)[j]);
            }
        }
    }
    assert(a.inv_closed() == b.inv_closed()) by {
        if a.inv_closed() {
            assert forall|x: NodeId, y: NodeId|
                #[trigger] b.nbrs(x).contains(y) implies b.has_node(y) by {
                assert(a.nbrs(x).contains(y));
            }
            assert forall|x: NodeId| !b.has_node(x) implies (#[trigger] b.nbrs(x)).len() == 0 by {
                assert(!a.has_node(x));
                assert(a.nbrs(x).len() == 0);
            }
        }
        if b.inv_closed() {
            assert forall|x: NodeId, y: NodeId|
                #[trigger] a.nbrs(x).contains(y) implies a.has_node(y) by {
                assert(b.nbrs(x).contains(y));
            }
            assert forall|x: NodeId| !a.has_node(x) implies (#[trigger] a.nbrs(x)).len() == 0 by {
                assert(!b.has_node(x));
                assert(b.nbrs(x).len() == 0);
            }
        }
    }
    assert(a.inv_client_degree() == b.inv_client_degree()) by {
        if a.inv_client_degree() {
            assert forall|x: NodeId| b.is_client(x) implies 1 <= (#[trigger] b.nbrs(x)).len()
                <= 2 by {
                assert(a.kind_of(x) == b.kind_of(x));
                assert(a.nbrs(x) == b.nbrs(x));
                assert(1 <= a.nbrs(x).len() <= 2);
            }
        }
        if b.inv_client_degree() {
            assert forall|x: NodeId| a.is_client(x) implies 1 <= (#[trigger] a.nbrs(x)).len()
                <= 2 by {
                assert(a.kind_of(x) == b.kind_of(x));
                assert(a.nbrs(x) == b.nbrs(x));
                assert(1 <= b.nbrs(x).len() <= 2);
            }
        }
    }
    assert(a.inv_server_degree() == b.inv_server_degree()) by {
        if a.inv_server_degree() {
            assert forall|x: NodeId| b.is_server(x) implies (#[trigger] b.nbrs(x)).len() >= 2 by {
                assert(a.kind_of(x) == b.kind_of(x));
                assert(a.nbrs(x) == b.nbrs(x));
                assert(a.nbrs(x).len() >= 2);
            }
        }
        if b.inv_server_degree() {
            assert forall|x: NodeId| a.is_server(x) implies (#[trigger] a.nbrs(x)).len() >= 2 by {
                assert(a.kind_of(x) == b.kind_of(x));
                assert(a.nbrs(x) == b.nbrs(x));
                assert(b.nbrs(x).len() >= 2);
            }
        }
    }
    assert(a.inv_hosts_apart() == b.inv_hosts_apart()) by {
        if a.inv_hosts_apart() {
            assert forall|x: NodeId, y: NodeId|
                b.is_host(x) && #[trigger] b.nbrs(x).contains(y) implies !b.is_host(y) by {
                assert(a.kind_of(x) == b.kind_of(x));
                assert(a.kind_of(y) == b.kind_of(y));
                assert(a.nbrs(x).contains(y));
            }
        }
        if b.inv_hosts_apart() {
            assert forall|x: NodeId, y: NodeId|
                a.is_host(x) && #[trigger] a.nbrs(x).contains(y) implies !a.is_host(y) by {
                assert(a.kind_of(x) == b.kind_of(x));
                assert(a.kind_of(y) == b.kind_of(y));
                assert(b.nbrs(x).contains(y));
            }
        }
    }
    assert(a.inv_connected() == b.inv_connected()) by {
        if a.inv_connected() {
            assert forall|x: NodeId, y: NodeId|
                b.has_node(x) && b.has_node(y) implies #[trigger] b.reaches(false, x, y) by {
                assert(a.has_node(x) == b.has_node(x));
                assert(a.has_node(y) == b.has_node(y));
                assert(a.reaches(false, x, y));
                assert(a.reaches(false, x, y) == b.reaches(false, x, y));
            }
        }
        if b.inv_connected() {
            assert forall|x: NodeId, y: NodeId|
                a.has_node(x) && a.has_node(y) implies #[trigger] a.reaches(false, x, y) by {
                assert(a.has_node(x) == b.has_node(x));
                assert(a.has_node(y) == b.has_node(y));
                assert(b.reaches(false, x, y));
                assert(a.reaches(false, x, y) == b.reaches(false, x, y));
            }
        }
    }
    assert(a.inv_drone_connected() == b.inv_drone_connected()) by {
        assert forall|x: NodeId| #[trigger] a.is_drone(x) == b.is_drone(x) by {
            assert(a.kind_of(x) == b.kind_of(x));
        }
        if a.inv_drone_connected() {
            let d = choose|d: NodeId| a.is_drone(d);
            assert(b.is_drone(d));
            assert forall|x: NodeId, y: NodeId|
                b.is_drone(x) && b.is_drone(y) implies #[trigger] b.reaches(true, x, y) by {
                assert(a.is_drone(x) == b.is_drone(x));
                assert(a.is_drone(y) == b.is_drone(y));
                assert(a.reaches(true, x, y));
                assert(a.reaches(true, x, y) == b.reaches(true, x, y));
            }
        }
        if b.inv_drone_connected() {
            let d = choose|d: NodeId| b.is_drone(d);
            assert(a.is_drone(d));
            assert forall|x: NodeId, y: NodeId|
                a.is_drone(x) && a.is_drone(y) implies #[trigger] a.reaches(true, x, y) by {
                assert(a.is_drone(x) == b.is_drone(x));
                assert(a.is_drone(y) == b.is_drone(y));
                assert(b.reaches(true, x, y));
                assert(a.reaches(true, x, y) == b.reaches(true, x, y));
            }
        }
    }
}

/// Checks that every recorded edge exists in both directions.
pub fn validate_bidirectionality(graph: &GraphState) -> (r: Result<(), NetworkError>)
    requires
        graph.wf(),
    ensures
        r is Ok <==> graph.inv_bidirectional(),
        r is Err ==> r == Err::<(), NetworkError>(NetworkError::ValidationError(
            ValidationIssue::NotBidirectional,
        )),
{
    let mut a: usize = 0;
    while a < ID_SPACE
        invariant
            graph.wf(),
            a <= ID_SPACE,
            forall|x: NodeId, k: int|
                x < a && 0 <= k < graph.nbrs(x).len() ==> graph.nbrs(
                    #[trigger] graph.nbrs(x)[k],
                ).contains(x),
        decreases ID_SPACE - a,
    {
        let row = &graph.adjacency[a];
        let mut t: usize = 0;
        while t < row.len()
            invariant
                graph.wf(),
                a < ID_SPACE,
                row@ == graph.nbrs(a as NodeId),
                t <= row@.len(),
                forall|k: int|
                    0 <= k < t ==> graph.nbrs(#[trigger] row@[k]).contains(a as NodeId),
            decreases row@.len() - t,
        {
            let nbr = row[t];
            if !crate::topology::vec_contains(&graph.adjacency[nbr as usize], a as NodeId) {
                proof {
                    assert(graph.nbrs(a as NodeId)[t as int] == nbr);
                    assert(graph.nbrs(a as NodeId).contains(nbr));
                    assert(!graph.nbrs(nbr).contains(a as NodeId));
                }
                return Err(NetworkError::ValidationError(ValidationIssue::NotBidirectional));
            }
            t = t + 1;
        }
        a = a + 1;
    }
    proof {
        assert forall|x: NodeId, b: NodeId|
            #[trigger] graph.nbrs(x).contains(b) implies graph.nbrs(b).contains(x) by {
            let k = choose|k: int| 0 <= k < graph.nbrs(x).len() && graph.nbrs(x)[k] == b;
            assert(graph.nbrs(graph.nbrs(x)[k]).contains(x));
        }
    }
    Ok(())
}

/// Checks that no neighbor list mentions the same node twice.
pub fn validate_no_multiple_connections(graph: &GraphState) -> (r: Result<(), NetworkError>)
    requires
        graph.wf(),
    ensures
        r is Ok <==> graph.inv_no_duplicates(),
        r is Err ==> r == Err::<(), NetworkError>(NetworkError::ValidationError(
            ValidationIssue::DuplicateNeighbor,
        )),
{
    let mut a: usize = 0;
    while a < ID_SPACE
        invariant
            graph.wf(),
            a <= ID_SPACE,
            forall|x: NodeId, i: int, j: int|
                x < a && 0 <= i < j < graph.nbrs(x).len() ==> #[trigger] graph.nbrs(x)[i]
                    != #[trigger] graph.nbrs(x)[j],
        decreases ID_SPACE - a,
    {
        let row = &graph.adjacency[a];
        let mut t: usize = 0;
        while t < row.len()
            invariant
                graph.wf(),
                a < ID_SPACE,
                row@ == graph.nbrs(a as NodeId),
                t <= row@.len(),
                forall|i: int, j: int|
                    0 <= i < j < t ==> #[trigger] row@[i] != #[trigger] row@[j],
            decreases row@.len() - t,
        {
            let mut u: usize = 0;
            while u < t
                invariant
                    graph.wf(),
                    a < ID_SPACE,
                    row@ == graph.nbrs(a as NodeId),
                    u <= t < row@.len(),
                    forall|i: int| 0 <= i < u ==> #[trigger] row@[i] != row@[t as int],
                decreases t - u,
            {
                if row[u] == row[t] {
                    proof {
                        if graph.inv_no_duplicates() {
                            assert(graph.nbrs(a as NodeId)[u as int] != graph.nbrs(
                                a as NodeId,
                            )[t as int]);
                        }
                    }
                    return Err(NetworkError::ValidationError(ValidationIssue::DuplicateNeighbor));
                }
                u = u + 1;
            }
            t = t + 1;
        }
        a = a + 1;
    }
    Ok(())
}

/// Checks that no node lists itself as a neighbor.
pub fn validate_no_self_loops(graph: &GraphState) -> (r: Result<(), NetworkError>)
    requires
        graph.wf(),
    ensures
        r is Ok <==> graph.inv_no_self_loop(),
        r is Err ==> r == Err::<(), NetworkError>(NetworkError::ValidationError(
            ValidationIssue::SelfLoop,
        )),
{
    let mut a: usize = 0;
    while a < ID_SPACE
        invariant
            graph.wf(),
            a <= ID_SPACE,
            forall|x: NodeId| x < a ==> !(#[trigger] graph.nbrs(x).contains(x)),
        decreases ID_SPACE - a,
    {
        if crate::topology::vec_contains(&graph.adjacency[a], a as NodeId) {
            proof {
                assert(graph.nbrs(a as NodeId).contains(a as NodeId));
            }
            return Err(NetworkError::ValidationError(ValidationIssue::SelfLoop));
        }
        a = a + 1;
    }
    Ok(())
}

/// Checks that every listed neighbor exists and that ids without a node have
/// no neighbors.
pub fn validate_neighbors_exist(graph: &GraphState) -> (r: Result<(), NetworkError>)
    requires
        graph.wf(),
    ensures
        r is Ok <==> graph.inv_closed(),
        r is Err ==> r == Err::<(), NetworkError>(NetworkError::ValidationError(
            ValidationIssue::UnknownNeighbor,
        )),
{
    let mut a: usize = 0;
    while a < ID_SPACE
        invariant
            graph.wf(),
            a <= ID_SPACE,
            forall|x: NodeId, k: int|
                x < a && 0 <= k < graph.nbrs(x).len() ==> graph.has_node(
                    #[trigger] graph.nbrs(x)[k],
                ),
            forall|x: NodeId|
                x < a && !graph.has_node(x) ==> (#[trigger] graph.nbrs(x)).len() == 0,
        decreases ID_SPACE - a,
    {
        let row = &graph.adjacency[a];
        if graph.node_info[a].is_none() && row.len() > 0 {
            proof {
                assert(!graph.has_node(a as NodeId));
                assert(graph.nbrs(a as NodeId).len() > 0);
            }
            return Err(NetworkError::ValidationError(ValidationIssue::UnknownNeighbor));
        }
        let mut t: usize = 0;
        while t < row.len()
            invariant
                graph.wf(),
                a < ID_SPACE,
                row@ == graph.nbrs(a as NodeId),
                t <= row@.len(),
                forall|k: int| 0 <= k < t ==> graph.has_node(#[trigger] row@[k]),
            decreases row@.len() - t,
        {
            let nbr = row[t];
            if graph.node_info[nbr as usize].is_none() {
                proof {
                    assert(graph.nbrs(a as NodeId)[t as int] == nbr);
                    assert(graph.nbrs(a as NodeId).contains(nbr));
                    assert(!graph.has_node(nbr));
                }
                return Err(NetworkError::ValidationError(ValidationIssue::UnknownNeighbor));
            }
            t = t + 1;
        }
        a = a + 1;
    }
    proof {
        assert forall|x: NodeId, b: NodeId|
            #[trigger] graph.nbrs(x).contains(b) implies graph.has_node(b) by {
            let k = choose|k: int| 0 <= k < graph.nbrs(x).len() && graph.nbrs(x)[k] == b;
            assert(graph.has_node(graph.nbrs(x)[k]));
        }
    }
    Ok(())
}

/// Checks the degree constraints of clients (one or two neighbors) and
/// servers (at least two).
pub fn validate_clients_and_servers(graph: &GraphState) -> (r: Result<(), NetworkError>)
    requires
        graph.wf(),
    ensures
        r is Ok <==> graph.inv_client_degree() && graph.inv_server_degree(),
        r is Err ==> (r matches Err(NetworkError::ValidationError(e)) && (e
            == ValidationIssue::ClientDegree || e == ValidationIssue::ServerDegree)),
{
    let mut a: usize = 0;
    while a < ID_SPACE
        invariant
            graph.wf(),
            a <= ID_SPACE,
            forall|x: NodeId|
                x < a && graph.is_client(x) ==> 1 <= (#[trigger] graph.nbrs(x)).len() <= 2,
            forall|x: NodeId|
                x < a && graph.is_server(x) ==> (#[trigger] graph.nbrs(x)).len() >= 2,
        decreases ID_SPACE - a,
    {
        let deg = graph.adjacency[a].len();
        proof {
            assert(graph.nbrs(a as NodeId).len() == deg);
        }
        match &graph.node_info[a] {
            Some(NodeMetadata::Client) => {
                if deg < 1 || deg > 2 {
                    proof {
                        assert(graph.is_client(a as NodeId));
                        if graph.inv_client_degree() {
                            assert(1 <= graph.nbrs(a as NodeId).len() <= 2);
                        }
                    }
                    return Err(NetworkError::ValidationError(ValidationIssue::ClientDegree));
                }
            }
            Some(NodeMetadata::Server) => {
                if deg < 2 {
                    proof {
                        assert(graph.is_server(a as NodeId));
                        if graph.inv_server_degree() {
                            assert(graph.nbrs(a as NodeId).len() >= 2);
                        }
                    }
                    return Err(NetworkError::ValidationError(ValidationIssue::ServerDegree));
                }
            }
            _ => {}
        }
        a = a + 1;
    }
    Ok(())
}

/// Checks that no client or server is directly adjacent to another client or
/// server.
pub fn validate_no_host_direct_connections(graph: &GraphState) -> (r: Result<(), NetworkError>)
    requires
        graph.wf(),
    ensures
        r is Ok <==> graph.inv_hosts_apart(),
        r is Err ==> r == Err::<(), NetworkError>(NetworkError::ValidationError(
            ValidationIssue::HostsAdjacent,
        )),
{
    let mut a: usize = 0;
    while a < ID_SPACE
        invariant
            graph.wf(),
            a <= ID_SPACE,
            forall|x: NodeId, k: int|
                x < a && graph.is_host(x) && 0 <= k < graph.nbrs(x).len() ==> !graph.is_host(
                    #[trigger] graph.nbrs(x)[k],
                ),
        decreases ID_SPACE - a,
    {
        let is_host = match &graph.node_info[a] {
            Some(NodeMetadata::Client) | Some(NodeMetadata::Server) => true,
            _ => false,
        };
        if is_host {
            let row = &graph.adjacency[a];
            let mut t: usize = 0;
            while t < row.len()
                invariant
                    graph.wf(),
                    a < ID_SPACE,
                    graph.is_host(a as NodeId),
                    row@ == graph.nbrs(a as NodeId),
                    t <= row@.len(),
                    forall|k: int| 0 <= k < t ==> !graph.is_host(#[trigger] row@[k]),
                decreases row@.len() - t,
            {
                let nbr = row[t];
                let nbr_is_host = match &graph.node_info[nbr as usize] {
                    Some(NodeMetadata::Client) | Some(NodeMetadata::Server) => true,
                    _ => false,
                };
                if nbr_is_host {
                    proof {
                        assert(graph.is_host(a as NodeId));
                        assert(graph.nbrs(a as NodeId)[t as int] == nbr);
                        assert(graph.nbrs(a as NodeId).contains(nbr));
                        assert(graph.is_host(nbr));
                        if graph.inv_hosts_apart() {
                            assert(!graph.is_host(nbr));
                        }
                    }
                    return Err(NetworkError::ValidationError(ValidationIssue::HostsAdjacent));
                }
                t = t + 1;
            }
        }
        a = a + 1;
    }
    proof {
        assert forall|x: NodeId, b: NodeId|
            graph.is_host(x) && #[trigger] graph.nbrs(x).contains(b) implies !graph.is_host(
            b,
        ) by {
            let k = choose|k: int| 0 <= k < graph.nbrs(x).len() && graph.nbrs(x)[k] == b;
            assert(!graph.is_host(graph.nbrs(x)[k]));
        }
    }
    Ok(())
}

/// Checks that the graph is nonempty and connected.  Needs bidirectionality,
/// which lets connectivity be established from a single search.
pub fn validate_connected_graph(graph: &GraphState) -> (r: Result<(), NetworkError>)
    requires
        graph.wf(),
        graph.inv_bidirectional(),
    ensures
        r is Ok <==> graph.nonempty() && graph.inv_connected(),
        r is Err ==> (r matches Err(NetworkError::ValidationError(e)) && (e
            == ValidationIssue::EmptyGraph || e == ValidationIssue::NotConnected)),
{
    let mut start: usize = 0;
    while start < ID_SPACE && graph.node_info[start].is_none()
        invariant
            graph.wf(),
            start <= ID_SPACE,
            forall|x: NodeId| x < start ==> !graph.has_node(x),
        decreases ID_SPACE - start,
    {
        start = start + 1;
    }
    if start == ID_SPACE {
        proof {
            assert(forall|x: NodeId| !graph.has_node(x));
        }
        return Err(NetworkError::ValidationError(ValidationIssue::EmptyGraph));
    }
    let s = start as NodeId;
    let visited = graph.bfs_reach(s, false);
    let mut b: usize = 0;
    while b < ID_SPACE
        invariant
            graph.wf(),
            b <= ID_SPACE,
            graph.has_node(s),
            visited@.len() == ID_SPACE,
            forall|x: NodeId| #[trigger] visited@[x as int] == graph.reaches(false, s, x),
            forall|x: NodeId| x < b && graph.has_node(x) ==> graph.reaches(false, s, x),
        decreases ID_SPACE - b,
    {
        if graph.node_info[b].is_some() && !visited[b] {
            proof {
                assert(!graph.reaches(false, s, b as NodeId));
                if graph.inv_connected() {
                    assert(graph.reaches(false, s, b as NodeId));
                }
            }
            return Err(NetworkError::ValidationError(ValidationIssue::NotConnected));
        }
        b = b + 1;
    }
    proof {
        assert forall|x: NodeId, y: NodeId|
            graph.has_node(x) && graph.has_node(y) implies #[trigger] graph.reaches(
            false,
            x,
            y,
        ) by {
            assert(graph.reaches(false, s, x));
            assert(graph.reaches(false, s, y));
            graph.lemma_reaches_sym(false, s, x);
            graph.lemma_reaches_trans(false, x, s, y);
        }
    }
    Ok(())
}

/// Whether the metadata slot at `i` holds a drone.
fn is_drone_slot(graph: &GraphState, i: usize) -> (r: bool)
    requires
        graph.wf(),
        i < ID_SPACE,
    ensures
        r == graph.is_drone(i as NodeId),
{
    match &graph.node_info[i] {
        Some(NodeMetadata::Drone(_)) => true,
        _ => false,
    }
}

/// Checks that the sub-graph induced by the drones alone is nonempty and
/// connected (strict mode).
pub fn validate_network_connected_without_hosts(graph: &GraphState) -> (r: Result<
    (),
    NetworkError,
>)
    requires
        graph.wf(),
        graph.inv_bidirectional(),
    ensures
        r is Ok <==> graph.inv_drone_connected(),
        r is Err ==> (r matches Err(NetworkError::ValidationError(e)) && (e
            == ValidationIssue::NoDrones || e == ValidationIssue::DroneNetSplit)),
{
    let mut start: usize = 0;
    while start < ID_SPACE && !is_drone_slot(graph, start)
        invariant
            graph.wf(),
            start <= ID_SPACE,
            forall|x: NodeId| x < start ==> !graph.is_drone(x),
        decreases ID_SPACE - start,
    {
        start = start + 1;
    }
    if start == ID_SPACE {
        proof {
            assert(forall|x: NodeId| !graph.is_drone(x));
        }
        return Err(NetworkError::ValidationError(ValidationIssue::NoDrones));
    }
    let s = start as NodeId;
    let visited = graph.bfs_reach(s, true);
    let mut b: usize = 0;
    while b < ID_SPACE
        invariant
            graph.wf(),
            b <= ID_SPACE,
            graph.is_drone(s),
            visited@.len() == ID_SPACE,
            forall|x: NodeId| #[trigger] visited@[x as int] == graph.reaches(true, s, x),
            forall|x: NodeId| x < b && graph.is_drone(x) ==> graph.reaches(true, s, x),
        decreases ID_SPACE - b,
    {
        let is_drone = match &graph.node_info[b] {
            Some(NodeMetadata::Drone(_)) => true,
            _ => false,
        };
        if is_drone && !visited[b] {
            proof {
                assert(!graph.reaches(true, s, b as NodeId));
                if graph.inv_drone_connected() {
                    assert(graph.reaches(true, s, b as NodeId));
                }
            }
            return Err(NetworkError::ValidationError(ValidationIssue::DroneNetSplit));
        }
        b = b + 1;
    }
    proof {
        assert forall|x: NodeId, y: NodeId|
            graph.is_drone(x) && graph.is_drone(y) implies #[trigger] graph.reaches(
            true,
            x,
            y,
        ) by {
            assert(graph.reaches(true, s, x));
            assert(graph.reaches(true, s, y));
            graph.lemma_reaches_sym(true, s, x);
            graph.lemma_reaches_trans(true, x, s, y);
        }
    }
    Ok(())
}

/// Validates the whole graph: every structural invariant, connectivity, and
/// in strict mode the connectivity of the drone sub-graph.
pub fn validate_graph(graph: &GraphState, strict: bool) -> (r: Result<(), NetworkError>)
    requires
        graph.wf(),
    ensures
        r is Ok <==> graph.valid(strict),
        r is Err ==> r matches Err(NetworkError::ValidationError(_)),
{
    validate_bidirectionality(graph)?;
    validate_no_multiple_connections(graph)?;
    validate_no_self_loops(graph)?;
    validate_neighbors_exist(graph)?;
    validate_clients_and_servers(graph)?;
    validate_no_host_direct_connections(graph)?;
    validate_connected_graph(graph)?;
    if strict {
        validate_network_connected_without_hosts(graph)?;
    }
    Ok(())
}

} // verus!
