//! A simple extractor for tests: its node data is an id, a title and a
//! category; its edge data lists prerequisite and related ids.

use vstd::prelude::*;
use crate::text::copy_opt;
use crate::types::{Edge, EdgeOrigin, Node, Relationship, DEFAULT_WEIGHT};

verus! {

/// Node data of the simple extractor.
#[derive(Debug)]
pub struct MockNodeData {
    /// Node id.
    pub id: String,
    /// Node title.
    pub title: String,
    /// Optional category.
    pub category: Option<String>,
}

/// Edge data of the simple extractor.
#[derive(Debug)]
pub struct MockEdgeData {
    /// Ids this node lists as prerequisites.
    pub prerequisites: Vec<String>,
    /// Ids this node lists as related.
    pub related: Vec<String>,
}

/// The simple extractor.
#[derive(Debug, Clone, Copy)]
pub struct MockExtractor;

/// `e` is an edge of default weight, from parsed content, from `from` to
/// `to` with relationship `rel`.
pub open spec fn plain_edge(e: Edge, from: Seq<char>, to: Seq<char>, rel: Relationship) -> bool {
    &&& e.from@ == from
    &&& e.to@ == to
    &&& e.relationship == rel
    &&& e.weight == DEFAULT_WEIGHT
    &&& e.origin == EdgeOrigin::Frontmatter
}

impl MockExtractor {
    /// The extractor's name.
    pub fn name(&self) -> (r: &'static str)
        ensures
            r@ == "mock"@,
    {
        "mock"
    }

    /// The node for extracted node data.
    pub fn to_graph_node(&self, data: &MockNodeData) -> (r: Node)
        ensures
            r.id == data.id,
            r.title == data.title,
            r.category == data.category,
            r.source_id is None,
            r.is_canonical,
            r.canonical_id is None,
            r.metadata@.len() == 0,
    {
        Node {
            id: data.id.clone(),
            title: data.title.clone(),
            category: copy_opt(&data.category),
            source_id: None,
            is_canonical: true,
            canonical_id: None,
            metadata: Vec::new(),
        }
    }

    /// The edges for extracted edge data: one prerequisite edge from
    /// `from_id` to each listed prerequisite, then one relates-to edge to
    /// each related id.
    pub fn to_graph_edges(&self, from_id: &str, data: &MockEdgeData) -> (r: Vec<Edge>)
        ensures
            r@.len() == data.prerequisites@.len() + data.related@.len(),
            forall|i: int|
                0 <= i < data.prerequisites@.len() ==> plain_edge(
                    #[trigger] r@[i],
                    from_id@,
                    data.prerequisites@[i]@,
                    Relationship::Prerequisite,
                ),
            forall|i: int|
                0 <= i < data.related@.len() ==> plain_edge(
                    #[trigger] r@[data.prerequisites@.len() + i],
                    from_id@,
                    data.related@[i]@,
                    Relationship::RelatesTo,
                ),
    {
        let mut r: Vec<Edge> = Vec::new();
        let mut i: usize = 0;
        while i < data.prerequisites.len()
            invariant
                i <= data.prerequisites@.len(),
                r@.len() == i,
                forall|j: int| 0 <= j < i ==> plain_edge(#[trigger] r@[j], from_id@, data.prerequisites@[j]@, Relationship::Prerequisite),
            decreases data.prerequisites.len() - i,
        {
            r.push(Edge::new(from_id, data.prerequisites[i].as_str(), Relationship::Prerequisite));
            i = i + 1;
        }
        let n = data.prerequisites.len();
        let mut j: usize = 0;
        while j < data.related.len()
            invariant
                n == data.prerequisites@.len(),
                j <= data.related@.len(),
                r@.len() == n + j,
                forall|k: int| 0 <= k < n ==> plain_edge(#[trigger] r@[k], from_id@, data.prerequisites@[k]@, Relationship::Prerequisite),
                forall|k: int| 0 <= k < j ==> plain_edge(#[trigger] r@[n + k], from_id@, data.related@[k]@, Relationship::RelatesTo),
            decreases data.related.len() - j,
        {
            r.push(Edge::new(from_id, data.related[j].as_str(), Relationship::RelatesTo));
            proof {
                assert(r@[n + j] == r@[r@.len() - 1]);
            }
            j = j + 1;
        }
        r
    }
}

} // verus!
