//! Snapshots of a graph: the flat form that is written out, the rebuild of
//! the arena from it (edges with a missing endpoint are dropped), and the
//! freshness test on a snapshot's content hash.

use vstd::prelude::*;
use crate::graph::{seq_has_id, GraphData};
use crate::text::{copy_opt, decimal, decimal_string, opt_view};
use crate::types::{same_node, Edge, Node};

verus! {

/// Version recorded in the metadata of snapshots written by this library.
pub const BUILDER_VERSION: &'static str = "0.1.0";

/// Facts about how a snapshot was made.
#[derive(Debug)]
pub struct GraphMetadata {
    /// When the graph was built, as Unix seconds in decimal.
    pub built_at: String,
    /// Version of the builder.
    pub builder_version: String,
    /// Hash of the source content, for freshness checks.
    pub content_hash: Option<String>,
    /// Number of source files processed.
    pub source_file_count: Option<usize>,
}

/// Relies on `std::time::SystemTime::now`: the current time as whole
/// seconds since the Unix epoch, or zero for a clock set before it.
#[verifier::external_body]
fn unix_seconds_now() -> (r: u64) {
    match std::time::SystemTime::now().duration_since(std::time::UNIX_EPOCH) {
        Ok(d) => d.as_secs(),
        Err(_) => 0,
    }
}

impl GraphMetadata {
    /// Metadata for a graph built at `seconds` past the Unix epoch by this
    /// library's builder, without hash or file count.
    pub fn built_at_seconds(seconds: u64) -> (r: GraphMetadata)
        ensures
            r.built_at@ == decimal(seconds as nat),
            r.builder_version@ == BUILDER_VERSION@,
            r.content_hash is None,
            r.source_file_count is None,
    {
        GraphMetadata {
            built_at: decimal_string(seconds),
            builder_version: BUILDER_VERSION.to_owned(),
            content_hash: None,
            source_file_count: None,
        }
    }
}

impl Default for GraphMetadata {
    /// Metadata stamped with the current time.
    fn default() -> (r: GraphMetadata)
        ensures
            exists|s: nat| r.built_at@ == decimal(s),
            r.builder_version@ == BUILDER_VERSION@,
            r.content_hash is None,
            r.source_file_count is None,
    {
        GraphMetadata::built_at_seconds(unix_seconds_now())
    }
}

impl Clone for GraphMetadata {
    fn clone(&self) -> (r: Self)
        ensures
            r == *self,
    {
        GraphMetadata {
            built_at: self.built_at.clone(),
            builder_version: self.builder_version.clone(),
            content_hash: copy_opt(&self.content_hash),
            source_file_count: self.source_file_count,
        }
    }
}

/// The flat form of a graph: its nodes, its edges and optional metadata.
#[derive(Debug)]
pub struct SerializableGraph {
    /// All nodes.
    pub nodes: Vec<Node>,
    /// All edges.
    pub edges: Vec<Edge>,
    /// How the snapshot was made.
    pub metadata: Option<GraphMetadata>,
}

/// `ns` with `n` inserted: it replaces the node of the same id in place,
/// or is appended.
pub open spec fn upsert(ns: Seq<Node>, n: Node) -> Seq<Node> {
    if seq_has_id(ns, n.id@) {
        ns.update(choose|i: int| 0 <= i < ns.len() && (#[trigger] ns[i]).id@ == n.id@, n)
    } else {
        ns.push(n)
    }
}

/// The nodes of an empty graph after inserting `s` in order.
pub open spec fn upsert_all(s: Seq<Node>) -> Seq<Node>
    decreases s.len(),
{
    if s.len() == 0 {
        seq![]
    } else {
        upsert(upsert_all(s.drop_last()), s.last())
    }
}

/// The edges of `es` whose endpoints are both ids in `ns`, in order.
pub open spec fn kept_edges(ns: Seq<Node>, es: Seq<Edge>) -> Seq<Edge>
    decreases es.len(),
{
    if es.len() == 0 {
        seq![]
    } else if seq_has_id(ns, es.last().from@) && seq_has_id(ns, es.last().to@) {
        kept_edges(ns, es.drop_last()).push(es.last())
    } else {
        kept_edges(ns, es.drop_last())
    }
}

impl GraphData {
    /// The flat form of this graph, taking its nodes and edges as they are.
    pub fn into_serializable(self, metadata: Option<GraphMetadata>) -> (r: SerializableGraph)
        ensures
            r.nodes@ == self.nodes@,
            r.edges@ == self.edges@,
            r.metadata == metadata,
    {
        SerializableGraph { nodes: self.nodes, edges: self.edges, metadata }
    }

    /// The flat form of this graph, with copies of its nodes and edges.
    pub fn to_serializable(&self, metadata: Option<GraphMetadata>) -> (r: SerializableGraph)
        ensures
            r.nodes@.len() == self.nodes@.len(),
            forall|i: int| 0 <= i < self.nodes@.len() ==> same_node(#[trigger] r.nodes@[i], self.nodes@[i]),
            r.edges@ == self.edges@,
            r.metadata == metadata,
    {
        let mut nodes: Vec<Node> = Vec::new();
        let mut i: usize = 0;
        while i < self.nodes.len()
            invariant
                i <= self.nodes@.len(),
                nodes@.len() == i,
                forall|j: int| 0 <= j < i ==> same_node(#[trigger] nodes@[j], self.nodes@[j]),
            decreases self.nodes.len() - i,
        {
            nodes.push(self.nodes[i].clone());
            i = i + 1;
        }
        let mut edges: Vec<Edge> = Vec::new();
        let mut k: usize = 0;
        while k < self.edges.len()
            invariant
                k <= self.edges@.len(),
                edges@ == self.edges@.subrange(0, k as int),
            decreases self.edges.len() - k,
        {
            edges.push(self.edges[k].clone());
            k = k + 1;
        }
        SerializableGraph { nodes, edges, metadata }
    }
}

/// The items of `v` in reverse order.
fn reversed<T>(v: Vec<T>) -> (r: Vec<T>)
    ensures
        r@ == v@.reverse(),
{
    let ghost all = v@;
    let mut v = v;
    let mut r: Vec<T> = Vec::new();
    while v.len() > 0
        invariant
            v@.len() <= all.len(),
            forall|i: int| 0 <= i < v@.len() ==> #[trigger] v@[i] == all[i],
            r@.len() + v@.len() == all.len(),
            forall|i: int| 0 <= i < r@.len() ==> #[trigger] r@[i] == all[all.len() - 1 - i],
        decreases v.len(),
    {
        let ghost before = v@;
        let x = v.pop().unwrap();
        proof {
            assert(x == before[before.len() - 1]);
            assert forall|i: int| 0 <= i < v@.len() implies #[trigger] v@[i] == all[i] by {
                assert(v@[i] == before[i]);
            }
        }
        r.push(x);
    }
    proof {
        assert(r@ =~= all.reverse());
    }
    r
}

/// Rebuilds the arena from a flat graph: nodes are inserted in order (a
/// later node replaces an earlier one of the same id), then every edge
/// whose endpoints are both present is added; the others are dropped
/// without error.
pub fn graph_from_serializable(sg: SerializableGraph) -> (r: GraphData)
    ensures
        r.wf(),
        r.nodes@ == upsert_all(sg.nodes@),
        r.edges@ == kept_edges(r.nodes@, sg.edges@),
{
    let mut graph = GraphData::new();
    let SerializableGraph { nodes, edges, metadata: _ } = sg;
    let ghost all_nodes = nodes@;
    let ghost all_edges = edges@;
    // Taking items from the back keeps the moves cheap; reversing first
    // keeps the insertion order.
    let mut nodes = reversed(nodes);
    let mut edges = reversed(edges);
    proof {
        assert(nodes@ =~= all_nodes.subrange(0, all_nodes.len() as int).reverse());
        assert(edges@ =~= all_edges.subrange(0, all_edges.len() as int).reverse());
    }
    let mut i: usize = 0;
    let total = nodes.len();
    while nodes.len() > 0
        invariant
            graph.wf(),
            graph.edges@.len() == 0,
            total == all_nodes.len(),
            nodes@.len() + i == total,
            nodes@ == all_nodes.subrange(i as int, total as int).reverse(),
            graph.nodes@ == upsert_all(all_nodes.subrange(0, i as int)),
        decreases nodes.len(),
    {
        let ghost before = nodes@;
        let node = nodes.pop().unwrap();
        proof {
            assert(node == all_nodes[i as int]);
            assert(all_nodes.subrange(0, i as int + 1).drop_last() =~= all_nodes.subrange(0, i as int));
            assert(nodes@ =~= all_nodes.subrange(i as int + 1, total as int).reverse());
        }
        graph.add_node(node);
        i = i + 1;
    }
    proof {
        assert(all_nodes.subrange(0, total as int) =~= all_nodes);
    }
    let ghost final_nodes = graph.nodes@;
    let mut k: usize = 0;
    let etotal = edges.len();
    while edges.len() > 0
        invariant
            graph.wf(),
            graph.nodes@ == final_nodes,
            etotal == all_edges.len(),
            edges@.len() + k == etotal,
            edges@ == all_edges.subrange(k as int, etotal as int).reverse(),
            graph.edges@ == kept_edges(final_nodes, all_edges.subrange(0, k as int)),
        decreases edges.len(),
    {
        let edge = edges.pop().unwrap();
        proof {
            assert(edge == all_edges[k as int]);
            assert(all_edges.subrange(0, k as int + 1).drop_last() =~= all_edges.subrange(0, k as int));
            assert(edges@ =~= all_edges.subrange(k as int + 1, etotal as int).reverse());
        }
        let _ = graph.add_edge(edge);
        k = k + 1;
    }
    proof {
        assert(all_edges.subrange(0, etotal as int) =~= all_edges);
    }
    graph
}

/// Whether a snapshot with this metadata is fresh for `content_hash`: it
/// records a content hash, and that hash equals `content_hash`.
pub fn metadata_is_fresh(metadata: &Option<GraphMetadata>, content_hash: &str) -> (r: bool)
    ensures
        r == (metadata matches Some(m) && opt_view(m.content_hash) == Some(content_hash@)),
{
    match metadata {
        Some(m) => match &m.content_hash {
            Some(h) => crate::text::same_text(h, content_hash),
            None => false,
        },
        None => false,
    }
}

/// Whether a snapshot read from a cache is fresh for `content_hash`. A
/// snapshot that could not be read or parsed (`None`) is never fresh.
pub fn snapshot_is_fresh(snapshot: &Option<SerializableGraph>, content_hash: &str) -> (r: bool)
    ensures
        r == (snapshot matches Some(sg) && sg.metadata matches Some(m) && opt_view(m.content_hash) == Some(
            content_hash@,
        )),
{
    match snapshot {
        Some(sg) => metadata_is_fresh(&sg.metadata, content_hash),
        None => false,
    }
}

// ---------------------------------------------------------------------------
// Laws
// ---------------------------------------------------------------------------

proof fn lemma_upsert_all_distinct(s: Seq<Node>)
    requires
        crate::graph::ids_unique(s),
    ensures
        upsert_all(s) == s,
    decreases s.len(),
{
    if s.len() > 0 {
        let p = s.drop_last();
        assert(crate::graph::ids_unique(p)) by {
            assert forall|i: int, j: int| 0 <= i < p.len() && 0 <= j < p.len() && i != j implies (#[trigger] p[i]).id@
                != (#[trigger] p[j]).id@ by {
                assert(p[i] == s[i] && p[j] == s[j]);
            }
        }
        lemma_upsert_all_distinct(p);
        assert(!seq_has_id(p, s.last().id@)) by {
            if seq_has_id(p, s.last().id@) {
                let i = choose|i: int| 0 <= i < p.len() && (#[trigger] p[i]).id@ == s.last().id@;
                assert(s[i] == p[i]);
                assert(s[i].id@ != s[s.len() - 1].id@);
            }
        }
        assert(p.push(s.last()) =~= s);
    }
}

proof fn lemma_kept_all(ns: Seq<Node>, es: Seq<Edge>)
    requires
        forall|k: int| 0 <= k < es.len() ==> seq_has_id(ns, (#[trigger] es[k]).from@) && seq_has_id(ns, es[k].to@),
    ensures
        kept_edges(ns, es) == es,
    decreases es.len(),
{
    if es.len() > 0 {
        let p = es.drop_last();
        assert forall|k: int| 0 <= k < p.len() implies seq_has_id(ns, (#[trigger] p[k]).from@) && seq_has_id(ns, p[k].to@) by {
            assert(p[k] == es[k]);
        }
        lemma_kept_all(ns, p);
        assert(es[es.len() - 1] == es.last());
        assert(p.push(es.last()) =~= es);
    }
}

/// Rebuilding a graph from its own nodes and edges gives back the same
/// nodes in the same order and every edge, since a consistent graph has
/// unique ids and no edge with a missing endpoint.
pub proof fn snapshot_round_trip(g: GraphData)
    requires
        g.wf(),
    ensures
        upsert_all(g.nodes@) == g.nodes@,
        kept_edges(upsert_all(g.nodes@), g.edges@) == g.edges@,
{
    lemma_upsert_all_distinct(g.nodes@);
    assert forall|k: int| 0 <= k < g.edges@.len() implies seq_has_id(g.nodes@, (#[trigger] g.edges@[k]).from@)
        && seq_has_id(g.nodes@, g.edges@[k].to@) by {
        assert(g.arcs@[k].0 < g.nodes@.len() && g.arcs@[k].1 < g.nodes@.len());
        assert(g.nodes@[g.src(k)].id@ == g.edges@[k].from@);
        assert(g.nodes@[g.dst(k)].id@ == g.edges@[k].to@);
    }
    lemma_kept_all(g.nodes@, g.edges@);
}

/// Loading never keeps an edge with a missing endpoint: each kept edge has
/// both endpoints among the nodes, and an edge whose source or target is
/// absent is not kept.
pub proof fn dangling_edges_dropped(ns: Seq<Node>, es: Seq<Edge>)
    ensures
        forall|k: int|
            0 <= k < kept_edges(ns, es).len() ==> seq_has_id(ns, (#[trigger] kept_edges(ns, es)[k]).from@)
                && seq_has_id(ns, kept_edges(ns, es)[k].to@),
        kept_edges(ns, es).len() <= es.len(),
    decreases es.len(),
{
    if es.len() > 0 {
        dangling_edges_dropped(ns, es.drop_last());
        let p = kept_edges(ns, es.drop_last());
        if seq_has_id(ns, es.last().from@) && seq_has_id(ns, es.last().to@) {
            assert forall|k: int| 0 <= k < p.len() + 1 implies seq_has_id(ns, (#[trigger] p.push(es.last())[k]).from@)
                && seq_has_id(ns, p.push(es.last())[k].to@) by {
                if k < p.len() {
                    assert(p.push(es.last())[k] == p[k]);
                }
            }
        }
    }
}

} // verus!
