//! Read-model records returned to callers of graph queries.

use vstd::prelude::*;
use crate::text::copy_opt;
use crate::types::{meta_has_key, relationship_name, Edge, Node};

verus! {

/// Summary of a node.
#[derive(Debug)]
pub struct NodeSummary {
    /// Node id.
    pub id: String,
    /// Node title.
    pub title: String,
    /// Optional category.
    pub category: Option<String>,
    /// The node's `description` annotation, if any.
    pub description: Option<String>,
}

/// `d` is the value of the node's `description` annotation, or `None`
/// when it has none.
pub open spec fn description_of(n: Node, d: Option<String>) -> bool {
    match d {
        Some(v) => exists|i: int|
            0 <= i < n.metadata@.len() && (#[trigger] n.metadata@[i]).0@ == "description"@ && n.metadata@[i].1@ == v@,
        None => !meta_has_key(n.metadata@, "description"@),
    }
}

/// What a summary of `n` holds.
pub open spec fn summarizes(s: NodeSummary, n: Node) -> bool {
    &&& s.id == n.id
    &&& s.title == n.title
    &&& s.category == n.category
    &&& description_of(n, s.description)
}

impl NodeSummary {
    /// The summary of a node.
    pub fn of(node: &Node) -> (r: NodeSummary)
        ensures
            summarizes(r, *node),
    {
        NodeSummary {
            id: node.id.clone(),
            title: node.title.clone(),
            category: copy_opt(&node.category),
            description: node.metadata_value("description"),
        }
    }
}

impl<'a> From<&'a Node> for NodeSummary {
    fn from(node: &'a Node) -> (r: NodeSummary)
        ensures
            summarizes(r, *node),
    {
        NodeSummary::of(node)
    }
}

impl<'a> vstd::std_specs::convert::FromSpecImpl<&'a Node> for NodeSummary {
    open spec fn obeys_from_spec() -> bool {
        false
    }

    open spec fn from_spec(v: &'a Node) -> NodeSummary {
        arbitrary()
    }
}

/// Summary of an edge.
#[derive(Debug)]
pub struct EdgeInfo {
    /// Source node id.
    pub from: String,
    /// Target node id.
    pub to: String,
    /// Relationship label.
    pub relationship: String,
    /// Edge weight, in thousandths of a unit.
    pub weight: u32,
}

impl EdgeInfo {
    /// The summary of an edge.
    pub fn of(edge: &Edge) -> (r: EdgeInfo)
        ensures
            r.from == edge.from,
            r.to == edge.to,
            r.relationship@ == relationship_name(edge.relationship),
            r.weight == edge.weight,
    {
        EdgeInfo {
            from: edge.from.clone(),
            to: edge.to.clone(),
            relationship: edge.relationship.name(),
            weight: edge.weight,
        }
    }
}

impl<'a> From<&'a Edge> for EdgeInfo {
    fn from(edge: &'a Edge) -> (r: EdgeInfo)
        ensures
            r.from == edge.from,
            r.to == edge.to,
            r.relationship@ == relationship_name(edge.relationship),
            r.weight == edge.weight,
    {
        EdgeInfo::of(edge)
    }
}

impl<'a> vstd::std_specs::convert::FromSpecImpl<&'a Edge> for EdgeInfo {
    open spec fn obeys_from_spec() -> bool {
        false
    }

    open spec fn from_spec(v: &'a Edge) -> EdgeInfo {
        arbitrary()
    }
}

/// Response for a related-concepts query.
#[derive(Debug)]
pub struct RelatedConceptsResponse {
    /// The concept asked about.
    pub source: NodeSummary,
    /// Related concepts grouped by relationship label.
    pub related: Vec<RelatedGroup>,
    /// Number of related concepts over all groups.
    pub total_count: usize,
}

/// Concepts that share a relationship label.
#[derive(Debug)]
pub struct RelatedGroup {
    /// The relationship label.
    pub relationship: String,
    /// Concepts in this group.
    pub concepts: Vec<NodeSummary>,
}

/// Response for a path query.
#[derive(Debug)]
pub struct PathResponse {
    /// Source node.
    pub from: NodeSummary,
    /// Target node.
    pub to: NodeSummary,
    /// Path nodes in order, both endpoints included.
    pub path: Vec<PathStep>,
    /// Whether a path was found.
    pub found: bool,
    /// Number of edges on the path.
    pub length: usize,
}

/// One step of a path.
#[derive(Debug)]
pub struct PathStep {
    /// The node at this step.
    pub node: NodeSummary,
    /// Label of the edge to the next node; `None` for the last node.
    pub relationship_to_next: Option<String>,
}

/// Response for a prerequisites query.
#[derive(Debug)]
pub struct PrerequisitesResponse {
    /// Target concept.
    pub target: NodeSummary,
    /// Prerequisites in learning order.
    pub prerequisites: Vec<PrerequisiteInfo>,
    /// Number of prerequisites.
    pub count: usize,
    /// Whether cycles were detected among prerequisites.
    pub has_cycles: bool,
}

/// One prerequisite.
#[derive(Debug)]
pub struct PrerequisiteInfo {
    /// The prerequisite node.
    pub node: NodeSummary,
    /// Depth in the dependency tree (1 for a direct prerequisite).
    pub depth: usize,
}

/// Response for a neighborhood query.
#[derive(Debug)]
pub struct NeighborhoodResponse {
    /// Center node.
    pub center: NodeSummary,
    /// Nodes in the neighborhood.
    pub nodes: Vec<NeighborInfo>,
    /// Edges in the neighborhood.
    pub edges: Vec<EdgeInfo>,
    /// Radius used for the query.
    pub radius: usize,
}

/// One node of a neighborhood.
#[derive(Debug)]
pub struct NeighborInfo {
    /// The neighbor node.
    pub node: NodeSummary,
    /// Hops from the center.
    pub distance: usize,
}

/// Response for a graph-info query.
#[derive(Debug)]
pub struct GraphInfoResponse {
    /// Number of nodes.
    pub node_count: usize,
    /// Number of edges.
    pub edge_count: usize,
    /// Categories with counts.
    pub categories: Vec<CategoryCount>,
    /// Relationship labels with counts.
    pub relationships: Vec<RelationshipCount>,
}

/// A category with its node count.
#[derive(Debug)]
pub struct CategoryCount {
    /// The category name.
    pub category: String,
    /// Number of nodes in it.
    pub count: usize,
}

/// A relationship label with its edge count.
#[derive(Debug)]
pub struct RelationshipCount {
    /// The relationship label.
    pub relationship: String,
    /// Number of edges with it.
    pub count: usize,
}

} // verus!
