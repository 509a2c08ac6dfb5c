use fabryk_graph::graph::GraphData;
use fabryk_graph::types::{Edge, Node, Relationship};
use fabryk_graph::validation::{is_valid, validate_graph, ValidationIssue, ValidationResult};

fn create_valid_graph() -> GraphData {
    let mut graph = GraphData::new();

    graph.add_node(Node::new("a", "A").with_category("basics"));
    graph.add_node(Node::new("b", "B").with_category("basics"));
    graph.add_node(Node::new("c", "C").with_category("advanced"));

    graph
        .add_edge(Edge::new("a", "b", Relationship::Prerequisite))
        .unwrap();
    graph
        .add_edge(Edge::new("b", "c", Relationship::LeadsTo))
        .unwrap();

    graph
}

#[test]
fn test_validate_valid_graph() {
    let graph = create_valid_graph();
    let result = validate_graph(&graph);

    assert!(result.valid);
    assert!(result.errors.is_empty());
    assert!(result.warnings.is_empty());
}

#[test]
fn test_validate_empty_graph() {
    let graph = GraphData::new();
    let result = validate_graph(&graph);

    assert!(result.valid);
    assert!(result.errors.is_empty());
}

#[test]
fn test_is_valid_helper() {
    let graph = create_valid_graph();
    assert!(is_valid(&graph));
}

#[test]
fn test_orphan_detection() {
    let mut graph = create_valid_graph();
    graph.add_node(Node::new("orphan", "Orphan"));

    let result = validate_graph(&graph);

    assert!(result.valid);
    assert_eq!(result.warnings.len(), 1);
    assert_eq!(result.warnings[0].code, "ORPHAN_NODES");
    assert!(result.warnings[0].nodes.contains(&"orphan".to_string()));
}

#[test]
fn test_no_orphans() {
    let graph = create_valid_graph();
    let result = validate_graph(&graph);

    assert!(result.warnings.iter().all(|w| w.code != "ORPHAN_NODES"));
}

#[test]
fn test_self_loop_detection() {
    let mut graph = GraphData::new();
    graph.add_node(Node::new("a", "A"));
    graph.add_node(Node::new("b", "B"));

    graph
        .add_edge(Edge::new("a", "b", Relationship::Prerequisite))
        .unwrap();
    graph
        .add_edge(Edge::new("a", "a", Relationship::RelatesTo))
        .unwrap();

    let result = validate_graph(&graph);

    assert!(!result.valid);
    assert!(result.errors.iter().any(|e| e.code == "SELF_LOOPS"));
    assert_eq!(
        result
            .errors
            .iter()
            .find(|e| e.code == "SELF_LOOPS")
            .unwrap()
            .edges
            .len(),
        1
    );
}

#[test]
fn test_no_self_loops() {
    let graph = create_valid_graph();
    let result = validate_graph(&graph);

    assert!(!result.errors.iter().any(|e| e.code == "SELF_LOOPS"));
}

#[test]
fn test_duplicate_edge_detection() {
    let mut graph = GraphData::new();
    graph.add_node(Node::new("a", "A"));
    graph.add_node(Node::new("b", "B"));

    graph
        .add_edge(Edge::new("a", "b", Relationship::Prerequisite))
        .unwrap();
    graph
        .add_edge(Edge::new("a", "b", Relationship::Prerequisite))
        .unwrap();

    let result = validate_graph(&graph);

    assert!(result.warnings.iter().any(|w| w.code == "DUPLICATE_EDGES"));
}

#[test]
fn test_different_relationship_not_duplicate() {
    let mut graph = GraphData::new();
    graph.add_node(Node::new("a", "A"));
    graph.add_node(Node::new("b", "B"));

    graph
        .add_edge(Edge::new("a", "b", Relationship::Prerequisite))
        .unwrap();
    graph
        .add_edge(Edge::new("a", "b", Relationship::RelatesTo))
        .unwrap();

    let result = validate_graph(&graph);

    assert!(!result.warnings.iter().any(|w| w.code == "DUPLICATE_EDGES"));
}

#[test]
fn test_prerequisite_cycle_detection() {
    let mut graph = GraphData::new();
    graph.add_node(Node::new("a", "A"));
    graph.add_node(Node::new("b", "B"));

    graph
        .add_edge(Edge::new("a", "b", Relationship::Prerequisite))
        .unwrap();
    graph
        .add_edge(Edge::new("b", "a", Relationship::Prerequisite))
        .unwrap();

    let result = validate_graph(&graph);

    assert!(!result.valid);
    assert!(result.errors.iter().any(|e| e.code == "PREREQUISITE_CYCLE"));
}

#[test]
fn test_non_prerequisite_cycle_ok() {
    let mut graph = GraphData::new();
    graph.add_node(Node::new("a", "A"));
    graph.add_node(Node::new("b", "B"));

    graph
        .add_edge(Edge::new("a", "b", Relationship::RelatesTo))
        .unwrap();
    graph
        .add_edge(Edge::new("b", "a", Relationship::RelatesTo))
        .unwrap();

    let result = validate_graph(&graph);

    assert!(!result.errors.iter().any(|e| e.code == "PREREQUISITE_CYCLE"));
}

#[test]
fn test_no_prerequisite_cycles() {
    let graph = create_valid_graph();
    let result = validate_graph(&graph);

    assert!(!result.errors.iter().any(|e| e.code == "PREREQUISITE_CYCLE"));
}

#[test]
fn test_valid_canonical_reference() {
    let mut graph = GraphData::new();
    graph.add_node(Node::new("canonical", "Canonical Concept"));
    graph.add_node(Node::new("variant", "Variant").as_variant_of("canonical"));

    let result = validate_graph(&graph);

    assert!(!result
        .errors
        .iter()
        .any(|e| e.code == "INVALID_CANONICAL_REF"));
}

#[test]
fn test_missing_canonical_reference() {
    let mut graph = GraphData::new();
    graph.add_node(Node::new("variant", "Variant").as_variant_of("missing-canonical"));

    let result = validate_graph(&graph);

    assert!(!result.valid);
    assert!(result
        .errors
        .iter()
        .any(|e| e.code == "INVALID_CANONICAL_REF"));
}

#[test]
fn test_non_canonical_without_canonical_id() {
    let mut graph = GraphData::new();
    let mut node = Node::new("bad", "Bad Node");
    node.is_canonical = false;
    node.canonical_id = None;
    graph.add_node(node);

    let result = validate_graph(&graph);

    assert!(!result.valid);
    assert!(result
        .errors
        .iter()
        .any(|e| e.code == "INVALID_CANONICAL_REF"));
}

#[test]
fn test_validation_result_new() {
    let result = ValidationResult::new();

    assert!(result.valid);
    assert!(result.errors.is_empty());
    assert!(result.warnings.is_empty());
    assert!(result.info.is_empty());
    assert_eq!(result.total_issues(), 0);
}

#[test]
fn test_validation_result_add_error() {
    let mut result = ValidationResult::new();
    result.add_error(ValidationIssue::new("TEST", "test error"));

    assert!(!result.valid);
    assert_eq!(result.errors.len(), 1);
    assert_eq!(result.total_issues(), 1);
}

#[test]
fn test_validation_result_add_warning() {
    let mut result = ValidationResult::new();
    result.add_warning(ValidationIssue::new("TEST", "test warning"));

    assert!(result.valid);
    assert_eq!(result.warnings.len(), 1);
    assert_eq!(result.total_issues(), 1);
}

#[test]
fn test_validation_result_add_info() {
    let mut result = ValidationResult::new();
    result.add_info(ValidationIssue::new("TEST", "test info"));

    assert!(result.valid);
    assert_eq!(result.info.len(), 1);
    assert_eq!(result.total_issues(), 0);
}

#[test]
fn test_validation_result_default() {
    let result = ValidationResult::default();
    assert!(result.valid);
}

#[test]
fn test_validation_issue_builder() {
    let issue = ValidationIssue::new("CODE", "message")
        .with_nodes(vec!["a".to_string(), "b".to_string()])
        .with_edges(vec!["a -> b".to_string()]);

    assert_eq!(issue.code, "CODE");
    assert_eq!(issue.message, "message");
    assert_eq!(issue.nodes.len(), 2);
    assert_eq!(issue.edges.len(), 1);
}

// Own tests: messages, the self-loop scenario, determinism.

#[test]
fn self_loop_scenario_names_edge() {
    let mut graph = GraphData::new();
    graph.add_node(Node::new("a", "A"));
    graph.add_edge(Edge::new("a", "a", Relationship::RelatesTo)).unwrap();

    let result = validate_graph(&graph);
    assert!(!result.valid);
    let loops: Vec<&ValidationIssue> = result.errors.iter().filter(|e| e.code == "SELF_LOOPS").collect();
    assert_eq!(loops.len(), 1);
    assert_eq!(loops[0].edges, vec!["a -> a".to_string()]);
    assert_eq!(loops[0].message, "1 edge(s) are self-loops");
}

#[test]
fn adding_self_loop_adds_one_error_only() {
    let mut graph = GraphData::new();
    graph.add_node(Node::new("a", "A"));
    graph.add_node(Node::new("b", "B").as_variant_of("zzz"));
    graph.add_edge(Edge::new("a", "b", Relationship::RelatesTo)).unwrap();
    let before = validate_graph(&graph);
    graph.add_edge(Edge::new("b", "b", Relationship::LeadsTo)).unwrap();
    let after = validate_graph(&graph);
    assert_eq!(after.errors.len(), before.errors.len() + 1);
    assert_eq!(after.errors.iter().filter(|e| e.code == "SELF_LOOPS").count(), 1);
    let canon_before: Vec<&ValidationIssue> = before.errors.iter().filter(|e| e.code == "INVALID_CANONICAL_REF").collect();
    let canon_after: Vec<&ValidationIssue> = after.errors.iter().filter(|e| e.code == "INVALID_CANONICAL_REF").collect();
    assert_eq!(canon_before.len(), 1);
    assert_eq!(canon_after.len(), 1);
    assert_eq!(canon_before[0].nodes, canon_after[0].nodes);
    assert_eq!(canon_after[0].nodes, vec!["b references missing canonical zzz".to_string()]);
}

#[test]
fn validation_is_repeatable() {
    let mut graph = create_valid_graph();
    graph.add_node(Node::new("x", "X"));
    graph.add_edge(Edge::new("c", "c", Relationship::Prerequisite)).unwrap();
    let r1 = validate_graph(&graph);
    let r2 = validate_graph(&graph);
    assert_eq!(r1.valid, r2.valid);
    assert_eq!(r1.errors.len(), r2.errors.len());
    for (a, b) in r1.errors.iter().zip(r2.errors.iter()) {
        assert_eq!(a.code, b.code);
        assert_eq!(a.message, b.message);
        assert_eq!(a.edges, b.edges);
    }
    assert_eq!(r1.warnings.len(), r2.warnings.len());
    // A prerequisite self-loop is a cycle too.
    assert!(r1.errors.iter().any(|e| e.code == "PREREQUISITE_CYCLE"));
}

#[test]
fn duplicate_and_orphan_messages() {
    let mut graph = GraphData::new();
    graph.add_node(Node::new("a", "A"));
    graph.add_node(Node::new("b", "B"));
    graph.add_node(Node::new("o1", "O1"));
    graph.add_node(Node::new("o2", "O2"));
    graph.add_edge(Edge::new("a", "b", Relationship::Custom("implies".to_string()))).unwrap();
    graph.add_edge(Edge::new("a", "b", Relationship::Custom("implies".to_string()))).unwrap();
    let result = validate_graph(&graph);
    assert!(result.valid);
    assert_eq!(result.warnings.len(), 2);
    assert_eq!(result.warnings[0].code, "ORPHAN_NODES");
    assert_eq!(result.warnings[0].message, "2 node(s) have no connections");
    assert_eq!(result.warnings[0].nodes, vec!["o1".to_string(), "o2".to_string()]);
    assert_eq!(result.warnings[1].code, "DUPLICATE_EDGES");
    assert_eq!(result.warnings[1].message, "1 duplicate edge(s) found");
    assert_eq!(result.warnings[1].edges, vec!["a -[implies]-> b".to_string()]);
}

#[test]
fn non_canonical_without_id_message() {
    let mut graph = GraphData::new();
    let mut node = Node::new("bad", "Bad");
    node.is_canonical = false;
    graph.add_node(node);
    let result = validate_graph(&graph);
    let issue = result.errors.iter().find(|e| e.code == "INVALID_CANONICAL_REF").unwrap();
    assert_eq!(issue.message, "1 invalid canonical reference(s)");
    assert_eq!(issue.nodes, vec!["bad is non-canonical but has no canonical_id".to_string()]);
}
