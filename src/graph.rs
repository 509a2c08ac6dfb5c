//! The owning graph container: an index-addressed arena of nodes, a flat
//! list of edges, and for each edge the arena indices of its endpoints.

use vstd::prelude::*;
use crate::text::{concat, same_text};
use crate::digraph::{arc_graph_add_edge, arc_graph_add_node, arc_graph_arcs, arc_graph_new, arc_graph_order, ArcGraph};
use crate::types::{Edge, Node};

verus! {

/// Failures of graph operations.
#[derive(Debug)]
pub enum GraphError {
    /// A referenced node id is not in the graph; holds the id.
    NotFound(String),
    /// Data that would break the graph's rules, such as an edge whose
    /// endpoint is unknown; holds a message.
    InvalidData(String),
}

impl GraphError {
    /// Whether this is a not-found error.
    pub fn is_not_found(&self) -> (r: bool)
        ensures
            r == (*self is NotFound),
    {
        match self {
            GraphError::NotFound(_) => true,
            _ => false,
        }
    }

    /// Whether this is an invalid-data error.
    pub fn is_invalid_data(&self) -> (r: bool)
        ensures
            r == (*self is InvalidData),
    {
        match self {
            GraphError::InvalidData(_) => true,
            _ => false,
        }
    }
}

/// Node ids in a sequence of nodes are pairwise distinct.
pub open spec fn ids_unique(nodes: Seq<Node>) -> bool {
    forall|i: int, j: int|
        0 <= i < nodes.len() && 0 <= j < nodes.len() && i != j ==> (#[trigger] nodes[i]).id@
            != (#[trigger] nodes[j]).id@
}

/// Some node in the sequence has the id.
pub open spec fn seq_has_id(nodes: Seq<Node>, id: Seq<char>) -> bool {
    exists|i: int| 0 <= i < nodes.len() && (#[trigger] nodes[i]).id@ == id
}

/// Endpoint index pairs as integer pairs.
pub open spec fn int_pairs(s: Seq<(usize, usize)>) -> Seq<(int, int)> {
    s.map_values(|p: (usize, usize)| (p.0 as int, p.1 as int))
}

/// The arena: nodes in insertion order, the edges between them, for each
/// edge the indices of its endpoints, and the same structure as a
/// petgraph graph for the graph algorithms of that crate.
#[derive(Debug)]
pub struct GraphData {
    /// Nodes, addressed by index.
    pub nodes: Vec<Node>,
    /// Edges in insertion order.
    pub edges: Vec<Edge>,
    /// For edge `k`, the indices of its source and target nodes.
    pub arcs: Vec<(usize, usize)>,
    /// One petgraph node per node and one arc per edge, by index.
    pub graph: ArcGraph,
}

impl GraphData {
    /// The arena is consistent: ids are unique, and each edge's endpoint
    /// indices name nodes whose ids are the edge's endpoints.
    pub open spec fn wf(&self) -> bool {
        &&& ids_unique(self.nodes@)
        &&& self.arcs@.len() == self.edges@.len()
        &&& arc_graph_order(self.graph) == self.nodes@.len()
        &&& arc_graph_arcs(self.graph) == int_pairs(self.arcs@)
        &&& forall|k: int|
            #![trigger self.arcs@[k]]
            0 <= k < self.arcs@.len() ==> {
                &&& self.arcs@[k].0 < self.nodes@.len()
                &&& self.arcs@[k].1 < self.nodes@.len()
                &&& self.nodes@[self.arcs@[k].0 as int].id@ == self.edges@[k].from@
                &&& self.nodes@[self.arcs@[k].1 as int].id@ == self.edges@[k].to@
            }
    }

    /// Whether a node with this id is present.
    pub open spec fn has_id(&self, id: Seq<char>) -> bool {
        seq_has_id(self.nodes@, id)
    }

    /// The index of the node with this id (meaningful when present).
    pub open spec fn index_of(&self, id: Seq<char>) -> int {
        choose|i: int| 0 <= i < self.nodes@.len() && (#[trigger] self.nodes@[i]).id@ == id
    }

    /// Number of nodes.
    pub open spec fn n(&self) -> int {
        self.nodes@.len() as int
    }

    /// Source index of edge `k`.
    pub open spec fn src(&self, k: int) -> int {
        self.arcs@[k].0 as int
    }

    /// Target index of edge `k`.
    pub open spec fn dst(&self, k: int) -> int {
        self.arcs@[k].1 as int
    }

    /// An empty graph.
    pub fn new() -> (r: GraphData)
        ensures
            r.wf(),
            r.nodes@.len() == 0,
            r.edges@.len() == 0,
    {
        let g = GraphData { nodes: Vec::new(), edges: Vec::new(), arcs: Vec::new(), graph: arc_graph_new() };
        assert(int_pairs(g.arcs@) =~= Seq::<(int, int)>::empty());
        g
    }

    /// The index of the node with this id, if present.
    pub fn get_index(&self, id: &str) -> (r: Option<usize>)
        requires
            self.wf(),
        ensures
            r matches Some(i) ==> i < self.nodes@.len() && self.nodes@[i as int].id@ == id@
                && i == self.index_of(id@),
            r is None <==> !self.has_id(id@),
    {
        let mut i: usize = 0;
        while i < self.nodes.len()
            invariant
                self.wf(),
                i <= self.nodes@.len(),
                forall|j: int| 0 <= j < i ==> (#[trigger] self.nodes@[j]).id@ != id@,
            decreases self.nodes.len() - i,
        {
            if same_text(&self.nodes[i].id, id) {
                proof {
                    let j = self.index_of(id@);
                    assert(0 <= j < self.nodes@.len() && self.nodes@[j].id@ == id@);
                    assert(ids_unique(self.nodes@));
                    if j != i as int {
                        assert(self.nodes@[j].id@ != self.nodes@[i as int].id@);
                    }
                }
                return Some(i);
            }
            i = i + 1;
        }
        None
    }

    /// Whether a node with this id is present.
    pub fn contains_node(&self, id: &str) -> (r: bool)
        requires
            self.wf(),
        ensures
            r == self.has_id(id@),
    {
        self.get_index(id).is_some()
    }

    /// The node with this id, if present.
    pub fn get_node(&self, id: &str) -> (r: Option<&Node>)
        requires
            self.wf(),
        ensures
            r matches Some(n) ==> n.id@ == id@ && exists|i: int|
                0 <= i < self.nodes@.len() && self.nodes@[i] == *n,
            r is None <==> !self.has_id(id@),
    {
        match self.get_index(id) {
            Some(i) => Some(&self.nodes[i]),
            None => None,
        }
    }

    /// Number of nodes.
    pub fn node_count(&self) -> (r: usize)
        ensures
            r == self.nodes@.len(),
    {
        self.nodes.len()
    }

    /// Number of edges.
    pub fn edge_count(&self) -> (r: usize)
        ensures
            r == self.edges@.len(),
    {
        self.edges.len()
    }

    /// The nodes, in insertion order.
    pub fn iter_nodes(&self) -> (r: &[Node])
        ensures
            r@ == self.nodes@,
    {
        self.nodes.as_slice()
    }

    /// The edges, in insertion order.
    pub fn iter_edges(&self) -> (r: &[Edge])
        ensures
            r@ == self.edges@,
    {
        self.edges.as_slice()
    }

    /// The ids of all nodes, in insertion order.
    pub fn node_ids(&self) -> (r: Vec<String>)
        ensures
            r@.len() == self.nodes@.len(),
            forall|i: int| 0 <= i < r@.len() ==> (#[trigger] r@[i]) == self.nodes@[i].id,
    {
        let mut r: Vec<String> = Vec::new();
        let mut i: usize = 0;
        while i < self.nodes.len()
            invariant
                i <= self.nodes@.len(),
                r@.len() == i,
                forall|j: int| 0 <= j < i ==> (#[trigger] r@[j]) == self.nodes@[j].id,
            decreases self.nodes.len() - i,
        {
            r.push(self.nodes[i].id.clone());
            i = i + 1;
        }
        r
    }

    /// Inserts a node, or replaces the node that has the same id in place.
    /// Returns the node's index.
    pub fn add_node(&mut self, node: Node) -> (r: usize)
        requires
            old(self).wf(),
        ensures
            final(self).wf(),
            final(self).edges@ == old(self).edges@,
            final(self).arcs@ == old(self).arcs@,
            old(self).has_id(node.id@) ==> r < old(self).nodes@.len()
                && old(self).nodes@[r as int].id@ == node.id@
                && final(self).nodes@ == old(self).nodes@.update(r as int, node),
            !old(self).has_id(node.id@) ==> r == old(self).nodes@.len()
                && final(self).nodes@ == old(self).nodes@.push(node),
    {
        match self.get_index(node.id.as_str()) {
            Some(i) => {
                self.nodes.set(i, node);
                i
            },
            None => {
                let i = self.nodes.len();
                self.nodes.push(node);
                arc_graph_add_node(&mut self.graph);
                proof {
                    assert forall|k: int| 0 <= k < self.arcs@.len() implies
                        self.nodes@[#[trigger] self.arcs@[k].0 as int] == old(self).nodes@[self.arcs@[k].0 as int]
                    by {}
                }
                i
            },
        }
    }

    /// Adds an edge between two present nodes. An edge with an unknown
    /// endpoint is refused and the graph is left as it was.
    pub fn add_edge(&mut self, edge: Edge) -> (r: Result<(), GraphError>)
        requires
            old(self).wf(),
        ensures
            final(self).wf(),
            final(self).nodes@ == old(self).nodes@,
            r is Ok <==> old(self).has_id(edge.from@) && old(self).has_id(edge.to@),
            r is Ok ==> final(self).edges@ == old(self).edges@.push(edge)
                && final(self).arcs@.len() == old(self).arcs@.len() + 1
                && final(self).arcs@.subrange(0, old(self).arcs@.len() as int) == old(self).arcs@,
            r is Err ==> final(self).edges@ == old(self).edges@ && final(self).arcs@ == old(self).arcs@,
            r matches Err(e) ==> e is InvalidData,
    {
        let a = self.get_index(edge.from.as_str());
        let b = self.get_index(edge.to.as_str());
        match (a, b) {
            (Some(i), Some(j)) => {
                self.edges.push(edge);
                arc_graph_add_edge(&mut self.graph, i, j);
                self.arcs.push((i, j));
                proof {
                    assert(int_pairs(self.arcs@) =~= int_pairs(old(self).arcs@).push((i as int, j as int)));
                    assert(self.arcs@.subrange(0, old(self).arcs@.len() as int) =~= old(self).arcs@);
                    assert forall|k: int| 0 <= k < self.arcs@.len() implies {
                        &&& self.arcs@[k].0 < self.nodes@.len()
                        &&& self.arcs@[k].1 < self.nodes@.len()
                        &&& self.nodes@[self.arcs@[k].0 as int].id@ == self.edges@[k].from@
                        &&& self.nodes@[self.arcs@[k].1 as int].id@ == self.edges@[k].to@
                    } by {
                        if k < old(self).arcs@.len() {
                            assert(self.arcs@[k] == old(self).arcs@[k]);
                            assert(self.edges@[k] == old(self).edges@[k]);
                        }
                    }
                }
                Ok(())
            },
            (None, _) => Err(GraphError::InvalidData(concat("Edge source not found: ", edge.from.as_str()))),
            (_, None) => Err(GraphError::InvalidData(concat("Edge target not found: ", edge.to.as_str()))),
        }
    }
}

} // verus!
