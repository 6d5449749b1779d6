//! The dependency graph: action nodes in an arena, and edges as pairs of
//! indices into it. An edge `(u, v)` means that `u` must complete before `v`
//! starts.

use vstd::prelude::*;
use crate::action::{ActionNode, ActionView};

verus! {

/// The mathematical value of a [`DepGraph`].
pub struct GraphView {
    pub nodes: Seq<ActionView>,
    pub edges: Seq<(usize, usize)>,
}

impl GraphView {
    /// Every edge joins two nodes of the graph.
    pub open spec fn wf(self) -> bool {
        forall|k: int|
            0 <= k < self.edges.len() ==> (#[trigger] self.edges[k]).0 < self.nodes.len()
                && self.edges[k].1 < self.nodes.len()
    }

    /// There is an edge from `u` to `v`.
    pub open spec fn has_edge(self, u: int, v: int) -> bool {
        exists|k: int|
            0 <= k < self.edges.len() && (#[trigger] self.edges[k]).0 == u && self.edges[k].1 == v
    }

    /// `path` walks along edges of the graph.
    pub open spec fn is_path(self, path: Seq<int>) -> bool {
        &&& path.len() > 0
        &&& forall|i: int| 0 <= i < path.len() ==> 0 <= #[trigger] path[i] < self.nodes.len()
        &&& forall|i: int|
            0 <= i < path.len() - 1 ==> self.has_edge(#[trigger] path[i], path[i + 1])
    }

    /// `v` is `u` or depends on it, directly or through other nodes.
    pub open spec fn reaches(self, u: int, v: int) -> bool {
        exists|path: Seq<int>| #[trigger]
            self.is_path(path) && path.first() == u && path.last() == v
    }

    /// `v` is a persistent node or depends on one.
    pub open spec fn behind_persistent(self, v: int) -> bool {
        exists|p: int|
            0 <= p < self.nodes.len() && self.nodes[p].is_persistent() && #[trigger] self.reaches(
                p,
                v,
            )
    }

    /// `rank` numbers the nodes so that every edge leads to a higher number.
    pub open spec fn ranked_by(self, rank: Seq<nat>) -> bool {
        &&& rank.len() == self.nodes.len()
        &&& forall|k: int|
            0 <= k < self.edges.len() ==> rank[(#[trigger] self.edges[k]).0 as int]
                < rank[self.edges[k].1 as int]
    }

    /// No node depends on itself: the nodes can be numbered along the edges.
    pub open spec fn acyclic(self) -> bool {
        exists|rank: Seq<nat>| #[trigger] self.ranked_by(rank)
    }

    /// Every edge leads from a node to one that was inserted later.
    pub open spec fn forward(self) -> bool {
        forall|k: int|
            0 <= k < self.edges.len() ==> (#[trigger] self.edges[k]).0 < self.edges[k].1
    }

    /// The graph with one more node at the end.
    pub open spec fn with_node(self, node: ActionView) -> GraphView {
        GraphView { nodes: self.nodes.push(node), edges: self.edges }
    }

    /// The graph with one more edge at the end.
    pub open spec fn with_edge(self, from: usize, to: usize) -> GraphView {
        GraphView { nodes: self.nodes, edges: self.edges.push((from, to)) }
    }

    /// The first `nodes` nodes and the first `edges` edges of the graph.
    pub open spec fn prefix(self, nodes: int, edges: int) -> GraphView {
        GraphView { nodes: self.nodes.take(nodes), edges: self.edges.take(edges) }
    }

    /// `self` is `other` with nodes and edges added at the end.
    pub open spec fn extends(self, other: GraphView) -> bool {
        &&& other.nodes.len() <= self.nodes.len()
        &&& other.edges.len() <= self.edges.len()
        &&& self.prefix(other.nodes.len() as int, other.edges.len() as int) == other
    }
}

/// A graph whose edges lead forward in the order of insertion has no cycle:
/// the index of a node is its rank.
pub proof fn lemma_forward_is_acyclic(g: GraphView)
    requires
        g.wf(),
        g.forward(),
    ensures
        g.acyclic(),
{
    let rank = Seq::new(g.nodes.len(), |v: int| v as nat);
    assert(g.ranked_by(rank));
}

/// Growth adds up: what extends an extension of a graph extends the graph.
pub proof fn lemma_extends_twice(a: GraphView, b: GraphView, c: GraphView)
    requires
        b.extends(a),
        c.extends(b),
    ensures
        c.extends(a),
{
    let n = a.nodes.len() as int;
    let m = a.edges.len() as int;
    assert(c.nodes.take(n) =~= c.nodes.take(b.nodes.len() as int).take(n));
    assert(c.edges.take(m) =~= c.edges.take(b.edges.len() as int).take(m));
    assert(c.prefix(b.nodes.len() as int, b.edges.len() as int).nodes == b.nodes);
    assert(c.prefix(b.nodes.len() as int, b.edges.len() as int).edges == b.edges);
    assert(a.nodes == b.nodes.take(n));
    assert(a.edges == b.edges.take(m));
    assert(c.prefix(n, m) =~= a);
}

/// A graph extends itself.
pub proof fn lemma_extends_self(a: GraphView)
    ensures
        a.extends(a),
{
    assert(a.nodes.take(a.nodes.len() as int) =~= a.nodes);
    assert(a.edges.take(a.edges.len() as int) =~= a.edges);
}

/// A directed graph of action nodes.
pub struct DepGraph {
    nodes: Vec<ActionNode>,
    edges: Vec<(usize, usize)>,
}

impl View for DepGraph {
    type V = GraphView;

    closed spec fn view(&self) -> GraphView {
        GraphView { nodes: self.nodes.deep_view(), edges: self.edges@ }
    }
}

impl DepGraph {
    #[verifier::type_invariant]
    spec fn inv(self) -> bool {
        self@.wf()
    }

    /// The graph without nodes.
    pub fn new() -> (out: DepGraph)
        ensures
            out@.nodes.len() == 0,
            out@.edges.len() == 0,
            out@.wf(),
    {
        DepGraph { nodes: Vec::new(), edges: Vec::new() }
    }

    /// The graph of the given nodes and edges, if every edge joins two of the
    /// nodes.
    pub fn from_parts(nodes: Vec<ActionNode>, edges: Vec<(usize, usize)>) -> (out: Option<DepGraph>)
        ensures
            out is Some <==> (GraphView { nodes: nodes.deep_view(), edges: edges@ }).wf(),
            out matches Some(g) ==> g@ == (GraphView { nodes: nodes.deep_view(), edges: edges@ }),
    {
        let ghost model = GraphView { nodes: nodes.deep_view(), edges: edges@ };
        let mut k: usize = 0;
        while k < edges.len()
            invariant
                k <= edges.len(),
                model == (GraphView { nodes: nodes.deep_view(), edges: edges@ }),
                forall|j: int|
                    0 <= j < k ==> (#[trigger] edges@[j]).0 < nodes.len() && edges@[j].1
                        < nodes.len(),
            decreases edges.len() - k,
        {
            let e = edges[k];
            if e.0 >= nodes.len() || e.1 >= nodes.len() {
                assert(!model.wf()) by {
                    assert(model.edges[k as int] == e);
                }
                return None;
            }
            k += 1;
        }
        Some(DepGraph { nodes, edges })
    }

    /// The number of nodes.
    pub fn node_count(&self) -> (out: usize)
        ensures
            out == self@.nodes.len(),
            self@.wf(),
    {
        proof {
            use_type_invariant(self);
        }
        self.nodes.len()
    }

    /// The node at index `i`.
    pub fn node(&self, i: usize) -> (out: &ActionNode)
        requires
            i < self@.nodes.len(),
        ensures
            out@ == self@.nodes[i as int],
    {
        &self.nodes[i]
    }

    /// The number of edges.
    pub fn edge_count(&self) -> (out: usize)
        ensures
            out == self@.edges.len(),
            self@.wf(),
    {
        proof {
            use_type_invariant(self);
        }
        self.edges.len()
    }

    /// The edge at index `k`: the node that comes first, then the node that
    /// waits for it.
    pub fn edge(&self, k: usize) -> (out: (usize, usize))
        requires
            k < self@.edges.len(),
        ensures
            out == self@.edges[k as int],
            out.0 < self@.nodes.len(),
            out.1 < self@.nodes.len(),
    {
        proof {
            use_type_invariant(self);
        }
        self.edges[k]
    }

    /// The graph of the given nodes and edges.
    pub(crate) fn assemble(nodes: Vec<ActionNode>, edges: Vec<(usize, usize)>) -> (out: DepGraph)
        requires
            (GraphView { nodes: nodes.deep_view(), edges: edges@ }).wf(),
        ensures
            out@ == (GraphView { nodes: nodes.deep_view(), edges: edges@ }),
    {
        DepGraph { nodes, edges }
    }
}

} // verus!
