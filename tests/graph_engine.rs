use fabryk_graph::builder::{add_staged_edges, record_extraction_error, BuildStats, ErrorHandling, ManualEdge};
use fabryk_graph::extractor::{MockEdgeData, MockExtractor, MockNodeData};
use fabryk_graph::graph::GraphData;
use fabryk_graph::persistence::{graph_from_serializable, snapshot_is_fresh, GraphMetadata, SerializableGraph};
use fabryk_graph::prereqs::prerequisites_sorted;
use fabryk_graph::query::{EdgeInfo, NodeSummary};
use fabryk_graph::shortest::shortest_path;
use fabryk_graph::stats::{calculate_centrality, compute_stats, quick_summary, top_nodes_by_degree, DegreeDirection};
use fabryk_graph::types::{Edge, EdgeOrigin, Node, Relationship, DEFAULT_WEIGHT};
use fabryk_graph::ureach::{find_bridges, get_related, group_related, neighborhood};
use fabryk_graph::validation::validate_graph;

fn create_stats_graph() -> GraphData {
    let mut graph = GraphData::new();

    graph.add_node(Node::new("a", "A").with_category("basics"));
    graph.add_node(Node::new("b", "B").with_category("basics"));
    graph.add_node(Node::new("c", "C").with_category("advanced"));
    graph.add_node(Node::new("d", "D"));
    graph.add_node(Node::new("orphan", "Orphan").with_category("basics"));

    graph
        .add_edge(Edge::new("a", "b", Relationship::Prerequisite))
        .unwrap();
    graph
        .add_edge(Edge::new("b", "c", Relationship::Prerequisite))
        .unwrap();
    graph
        .add_edge(Edge::new("a", "c", Relationship::RelatesTo))
        .unwrap();
    graph
        .add_edge(Edge::new("c", "d", Relationship::LeadsTo))
        .unwrap();

    graph
}

fn abc_graph() -> GraphData {
    let mut graph = GraphData::new();
    graph.add_node(Node::new("a", "A"));
    graph.add_node(Node::new("b", "B"));
    graph.add_node(Node::new("c", "C"));
    graph.add_edge(Edge::new("a", "b", Relationship::Prerequisite)).unwrap();
    graph.add_edge(Edge::new("b", "c", Relationship::Prerequisite)).unwrap();
    graph.add_edge(Edge::new("a", "c", Relationship::RelatesTo)).unwrap();
    graph
}

fn ids(nodes: &[Node]) -> Vec<String> {
    nodes.iter().map(|n| n.id.clone()).collect()
}

// Tests carried over.

#[test]
fn test_metadata_default() {
    let meta = GraphMetadata::default();
    assert!(!meta.built_at.is_empty());
    assert!(!meta.builder_version.is_empty());
    assert!(meta.content_hash.is_none());
    assert!(meta.source_file_count.is_none());
}

#[test]
fn test_node_summary_from_node() {
    let node = Node::new("test-id", "Test Title")
        .with_category("test-cat")
        .with_metadata("description", "A test concept");

    let summary = NodeSummary::from(&node);

    assert_eq!(summary.id, "test-id");
    assert_eq!(summary.title, "Test Title");
    assert_eq!(summary.category, Some("test-cat".to_string()));
    assert_eq!(summary.description, Some("A test concept".to_string()));
}

#[test]
fn test_node_summary_from_node_no_description() {
    let node = Node::new("x", "X");
    let summary = NodeSummary::from(&node);

    assert_eq!(summary.id, "x");
    assert!(summary.description.is_none());
    assert!(summary.category.is_none());
}

#[test]
fn test_quick_summary() {
    let graph = create_stats_graph();
    let summary = quick_summary(&graph);

    assert_eq!(summary, "5 nodes, 4 edges");
}

#[test]
fn test_quick_summary_empty() {
    let graph = GraphData::new();
    let summary = quick_summary(&graph);

    assert_eq!(summary, "0 nodes, 0 edges");
}

#[test]
fn test_mock_extractor_to_graph_node() {
    let extractor = MockExtractor;
    let node_data = MockNodeData {
        id: "test-id".to_string(),
        title: "Test Title".to_string(),
        category: Some("test-cat".to_string()),
    };

    let node = extractor.to_graph_node(&node_data);

    assert_eq!(node.id, "test-id");
    assert_eq!(node.title, "Test Title");
    assert_eq!(node.category, Some("test-cat".to_string()));
}

#[test]
fn test_mock_extractor_to_graph_node_no_category() {
    let extractor = MockExtractor;
    let node_data = MockNodeData {
        id: "x".to_string(),
        title: "X".to_string(),
        category: None,
    };

    let node = extractor.to_graph_node(&node_data);
    assert!(node.category.is_none());
}

#[test]
fn test_mock_extractor_to_graph_edges() {
    let extractor = MockExtractor;
    let edge_data = MockEdgeData {
        prerequisites: vec!["a".to_string(), "b".to_string()],
        related: vec!["x".to_string()],
    };

    let edges = extractor.to_graph_edges("from-node", &edge_data);

    assert_eq!(edges.len(), 3);

    assert!(edges
        .iter()
        .any(|e| e.to == "a" && e.relationship == Relationship::Prerequisite));
    assert!(edges
        .iter()
        .any(|e| e.to == "b" && e.relationship == Relationship::Prerequisite));
    assert!(edges
        .iter()
        .any(|e| e.to == "x" && e.relationship == Relationship::RelatesTo));

    assert!(edges.iter().all(|e| e.from == "from-node"));
}

#[test]
fn test_mock_extractor_to_graph_edges_empty() {
    let extractor = MockExtractor;
    let edge_data = MockEdgeData {
        prerequisites: vec![],
        related: vec![],
    };

    let edges = extractor.to_graph_edges("from-node", &edge_data);
    assert!(edges.is_empty());
}

// Own tests.

#[test]
fn scenario_abc_queries() {
    let graph = abc_graph();
    let path = shortest_path(&graph, "a", "c").unwrap();
    assert!(path.found);
    assert_eq!(ids(&path.path), vec!["a".to_string(), "c".to_string()]);
    assert_eq!(path.total_weight, DEFAULT_WEIGHT as u128);
    assert_eq!(path.edges.len(), 1);

    let pre = prerequisites_sorted(&graph, "c").unwrap();
    assert_eq!(ids(&pre.ordered), vec!["a".to_string(), "b".to_string()]);
    assert!(!pre.has_cycles);
    assert_eq!(pre.target.id, "c");

    let result = validate_graph(&graph);
    assert!(result.errors.is_empty());
    assert!(result.warnings.is_empty());
}

#[test]
fn shortest_path_prefers_lighter_route() {
    let mut graph = GraphData::new();
    for id in ["s", "m", "t"] {
        graph.add_node(Node::new(id, id));
    }
    graph.add_edge(Edge::new("s", "t", Relationship::RelatesTo).with_weight(5000)).unwrap();
    graph.add_edge(Edge::new("s", "m", Relationship::RelatesTo).with_weight(1000)).unwrap();
    graph.add_edge(Edge::new("m", "t", Relationship::RelatesTo).with_weight(1500)).unwrap();
    let r = shortest_path(&graph, "s", "t").unwrap();
    assert!(r.found);
    assert_eq!(r.total_weight, 2500);
    assert_eq!(ids(&r.path), vec!["s".to_string(), "m".to_string(), "t".to_string()]);
    assert_eq!(r.edges[1].to, "t");
}

#[test]
fn shortest_path_unreachable_and_missing() {
    let graph = abc_graph();
    let r = shortest_path(&graph, "c", "a").unwrap();
    assert!(!r.found);
    assert!(r.path.is_empty());
    assert!(r.edges.is_empty());
    assert_eq!(r.total_weight, 0);
    assert!(shortest_path(&graph, "a", "zzz").unwrap_err().is_not_found());
    assert!(shortest_path(&graph, "zzz", "a").unwrap_err().is_not_found());
}

#[test]
fn shortest_path_to_self_is_empty_walk() {
    let graph = abc_graph();
    let r = shortest_path(&graph, "b", "b").unwrap();
    assert!(r.found);
    assert_eq!(ids(&r.path), vec!["b".to_string()]);
    assert_eq!(r.total_weight, 0);
}

#[test]
fn prerequisites_with_cycle_terminate() {
    let mut graph = abc_graph();
    graph.add_edge(Edge::new("c", "a", Relationship::Prerequisite)).unwrap();
    let pre = prerequisites_sorted(&graph, "c").unwrap();
    assert!(pre.has_cycles);
    let mut got = ids(&pre.ordered);
    got.sort();
    assert_eq!(got, vec!["a".to_string(), "b".to_string()]);
    assert!(prerequisites_sorted(&graph, "nope").unwrap_err().is_not_found());
}

#[test]
fn prerequisites_deep_chain_in_order() {
    let mut graph = GraphData::new();
    for id in ["a", "b", "c", "d", "x"] {
        graph.add_node(Node::new(id, id));
    }
    graph.add_edge(Edge::new("c", "d", Relationship::Prerequisite)).unwrap();
    graph.add_edge(Edge::new("b", "c", Relationship::Prerequisite)).unwrap();
    graph.add_edge(Edge::new("a", "b", Relationship::Prerequisite)).unwrap();
    graph.add_edge(Edge::new("a", "c", Relationship::Prerequisite)).unwrap();
    graph.add_edge(Edge::new("x", "d", Relationship::RelatesTo)).unwrap();
    let pre = prerequisites_sorted(&graph, "d").unwrap();
    assert_eq!(ids(&pre.ordered), vec!["a".to_string(), "b".to_string(), "c".to_string()]);
}

#[test]
fn neighborhood_radius_and_filter() {
    let graph = create_stats_graph();
    let n0 = neighborhood(&graph, "a", 0, None).unwrap();
    assert!(n0.nodes.is_empty());
    let n1 = neighborhood(&graph, "a", 1, None).unwrap();
    assert_eq!(ids(&n1.nodes), vec!["b".to_string(), "c".to_string()]);
    assert_eq!(n1.distances, vec![1, 1]);
    let n2 = neighborhood(&graph, "a", 2, None).unwrap();
    assert_eq!(ids(&n2.nodes), vec!["b".to_string(), "c".to_string(), "d".to_string()]);
    assert_eq!(n2.distances, vec![1, 1, 2]);
    let nf = neighborhood(&graph, "d", 5, Some(Relationship::Prerequisite)).unwrap();
    assert!(nf.nodes.is_empty());
    let iso = neighborhood(&graph, "orphan", 3, None).unwrap();
    assert!(iso.nodes.is_empty());
    assert!(neighborhood(&graph, "zzz", 1, None).is_err());
}

#[test]
fn bridges_found() {
    let graph = create_stats_graph();
    let bridges = find_bridges(&graph);
    assert_eq!(bridges.len(), 1);
    assert_eq!(bridges[0].from, "c");
    assert_eq!(bridges[0].to, "d");
}

#[test]
fn centrality_scores() {
    let graph = create_stats_graph();
    let scores = calculate_centrality(&graph);
    assert_eq!(scores.len(), 5);
    assert_eq!(scores[2].id, "c");
    assert_eq!(scores[2].degree, 3);
    assert_eq!(scores[2].score, 1000);
    assert_eq!(scores[0].score, 666);
    assert_eq!(scores[4].score, 0);
}

#[test]
fn related_lists_incident_edges() {
    let graph = abc_graph();
    let related = get_related(&graph, "b").unwrap();
    assert_eq!(related.len(), 2);
    assert_eq!(related[0].node.id, "a");
    assert!(!related[0].outgoing);
    assert_eq!(related[1].node.id, "c");
    assert!(related[1].outgoing);
    assert!(related[1].relationship == Relationship::Prerequisite);
}

#[test]
fn stats_counts_and_degrees() {
    let graph = create_stats_graph();
    let stats = compute_stats(&graph);
    assert_eq!(stats.node_count, 5);
    assert_eq!(stats.edge_count, 4);
    assert_eq!(stats.orphan_count, 1);
    assert_eq!(stats.total_degree, 8);
    assert_eq!(stats.max_in_degree, 2);
    assert_eq!(stats.max_out_degree, 2);
    assert_eq!(stats.most_depended_on, Some("c".to_string()));
    assert_eq!(stats.most_dependencies, Some("a".to_string()));
    let cats: Vec<(String, usize)> = stats.category_distribution.clone();
    assert_eq!(cats, vec![("basics".to_string(), 3), ("advanced".to_string(), 1), ("uncategorized".to_string(), 1)]);
    let rels = stats.relationship_distribution.clone();
    assert_eq!(rels, vec![("prerequisite".to_string(), 2), ("relates_to".to_string(), 1), ("leads_to".to_string(), 1)]);
    let empty = compute_stats(&GraphData::new());
    assert!(empty.most_depended_on.is_none());
    assert_eq!(empty.max_in_degree, 0);
}

#[test]
fn top_nodes_ranking() {
    let graph = create_stats_graph();
    let top_in = top_nodes_by_degree(&graph, 2, DegreeDirection::In);
    assert_eq!(top_in.len(), 2);
    assert_eq!(top_in[0], ("c".to_string(), 2));
    assert_eq!(top_in[1], ("b".to_string(), 1));
    let top_out = top_nodes_by_degree(&graph, 2, DegreeDirection::Out);
    assert_eq!(top_out[0], ("a".to_string(), 2));
    let all = top_nodes_by_degree(&graph, 10, DegreeDirection::Both);
    assert_eq!(all.len(), 5);
    assert_eq!(all[4], ("orphan".to_string(), 0));
    assert!(top_nodes_by_degree(&GraphData::new(), 5, DegreeDirection::Both).is_empty());
}

#[test]
fn snapshot_round_trip_keeps_everything() {
    let mut built = GraphData::new();
    built.add_node(Node::new("a", "A").with_category("cat").with_source("src").with_metadata("key", "value"));
    built.add_node(Node::new("b", "B").as_variant_of("canonical-b"));
    built
        .add_edge(
            Edge::new("a", "b", Relationship::Custom("test-rel".to_string()))
                .with_weight(420)
                .with_origin(EdgeOrigin::Manual),
        )
        .unwrap();
    let sg = built.to_serializable(None);
    let loaded = graph_from_serializable(sg);
    assert_eq!(loaded.node_count(), 2);
    assert_eq!(loaded.edge_count(), 1);
    let a = loaded.get_node("a").unwrap();
    assert_eq!(a.category, Some("cat".to_string()));
    assert_eq!(a.source_id, Some("src".to_string()));
    assert_eq!(a.metadata_value("key"), Some("value".to_string()));
    let b = loaded.get_node("b").unwrap();
    assert!(!b.is_canonical);
    assert_eq!(b.canonical_id, Some("canonical-b".to_string()));
    assert_eq!(loaded.edges[0].weight, 420);
    assert_eq!(loaded.edges[0].origin, EdgeOrigin::Manual);
}

#[test]
fn load_drops_dangling_edges() {
    let sg = SerializableGraph {
        nodes: vec![Node::new("a", "A")],
        edges: vec![Edge::new("a", "missing", Relationship::Prerequisite), Edge::new("a", "a", Relationship::RelatesTo)],
        metadata: None,
    };
    let graph = graph_from_serializable(sg);
    assert_eq!(graph.node_count(), 1);
    assert_eq!(graph.edge_count(), 1);
    assert_eq!(graph.edges[0].to, "a");
}

#[test]
fn load_later_duplicate_node_wins() {
    let sg = SerializableGraph {
        nodes: vec![Node::new("a", "First"), Node::new("a", "Second")],
        edges: vec![],
        metadata: None,
    };
    let graph = graph_from_serializable(sg);
    assert_eq!(graph.node_count(), 1);
    assert_eq!(graph.get_node("a").unwrap().title, "Second");
}

#[test]
fn cache_freshness_by_hash() {
    let mut graph = GraphData::new();
    graph.add_node(Node::new("a", "A"));
    graph.add_node(Node::new("b", "B"));
    let mut meta = GraphMetadata::default();
    meta.content_hash = Some("h1".to_string());
    let snapshot = Some(graph.to_serializable(Some(meta)));
    assert!(snapshot_is_fresh(&snapshot, "h1"));
    assert!(!snapshot_is_fresh(&snapshot, "h2"));
    assert!(!snapshot_is_fresh(&None, "h1"));
    let bare = Some(graph.to_serializable(None));
    assert!(!snapshot_is_fresh(&bare, "h1"));
}

#[test]
fn metadata_built_at_is_decimal() {
    let meta = GraphMetadata::built_at_seconds(1700000000);
    assert_eq!(meta.built_at, "1700000000");
}

#[test]
fn add_edge_refuses_unknown_endpoint() {
    let mut graph = GraphData::new();
    graph.add_node(Node::new("a", "A"));
    let err = graph.add_edge(Edge::new("a", "b", Relationship::RelatesTo)).unwrap_err();
    assert!(err.is_invalid_data());
    assert_eq!(graph.edge_count(), 0);
}

#[test]
fn add_node_replaces_in_place() {
    let mut graph = GraphData::new();
    assert_eq!(graph.add_node(Node::new("a", "A")), 0);
    assert_eq!(graph.add_node(Node::new("b", "B")), 1);
    assert_eq!(graph.add_node(Node::new("a", "A2")), 0);
    assert_eq!(graph.node_count(), 2);
    assert_eq!(graph.get_node("a").unwrap().title, "A2");
    assert_eq!(graph.node_ids(), vec!["a".to_string(), "b".to_string()]);
    assert_eq!(graph.get_index("b"), Some(1));
    assert!(!graph.contains_node("c"));
}

#[test]
fn build_staged_edges_report_dangling() {
    let mut graph = GraphData::new();
    graph.add_node(Node::new("a", "A"));
    graph.add_node(Node::new("b", "B"));
    let mut stats = BuildStats::new();
    let staged = vec![
        Edge::new("a", "b", Relationship::Prerequisite),
        Edge::new("a", "future", Relationship::RelatesTo),
        ManualEdge { from: "b".to_string(), to: "a".to_string(), relationship: Relationship::LeadsTo }.to_edge(),
    ];
    add_staged_edges(&mut graph, staged, &mut stats);
    assert_eq!(graph.edge_count(), 2);
    assert_eq!(stats.edges_created, 2);
    assert_eq!(stats.dangling_refs, vec!["a -> future".to_string()]);
    assert_eq!(graph.edges[1].origin, EdgeOrigin::Manual);
}

#[test]
fn extraction_error_policies() {
    let mut stats = BuildStats::new();
    assert!(record_extraction_error(ErrorHandling::FailFast, &mut stats, "f.md".to_string(), "bad".to_string()));
    assert!(stats.errors.is_empty());
    assert!(!record_extraction_error(ErrorHandling::CollectErrors, &mut stats, "g.md".to_string(), "worse".to_string()));
    assert_eq!(stats.errors.len(), 1);
    assert_eq!(stats.errors[0].file, "g.md");
    assert_eq!(stats.files_skipped, 1);
}

#[test]
fn edge_info_labels() {
    let edge = Edge::new("a", "b", Relationship::Prerequisite).with_weight(800);
    let info = EdgeInfo::from(&edge);
    assert_eq!(info.relationship, "prerequisite");
    assert_eq!(info.weight, 800);
    let custom = EdgeInfo::from(&Edge::new("a", "b", Relationship::Custom("implies".to_string())));
    assert_eq!(custom.relationship, "implies");
    assert_eq!(Relationship::RelatesTo.name(), "relates_to");
    assert_eq!(Relationship::LeadsTo.name(), "leads_to");
}

#[test]
fn related_grouped_by_label() {
    let mut graph = abc_graph();
    graph.add_node(Node::new("d", "D"));
    graph.add_edge(Edge::new("d", "a", Relationship::LeadsTo)).unwrap();
    graph.add_edge(Edge::new("a", "d", Relationship::Prerequisite)).unwrap();
    let related = get_related(&graph, "a").unwrap();
    assert_eq!(related.len(), 4);
    let groups = group_related(&related);
    assert_eq!(groups.len(), 3);
    assert_eq!(groups[0].0, "prerequisite");
    assert_eq!(groups[0].1, vec![0, 3]);
    assert_eq!(groups[1].0, "relates_to");
    assert_eq!(groups[1].1, vec![1]);
    assert_eq!(groups[2].0, "leads_to");
    assert_eq!(related[groups[2].1[0]].node.id, "d");
}
