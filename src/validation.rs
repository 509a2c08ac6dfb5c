//! Structural integrity checks: orphan nodes, self-loops, duplicate edges,
//! prerequisite cycles and canonical references.

use vstd::prelude::*;
use crate::digraph::{
    arc_graph_degree, lemma_arc_count, arc_graph_add_edge, arc_graph_add_node, arc_graph_arcs, arc_graph_new, arc_graph_order,
    arc_graph_toposort, has_topological_order, ArcGraph,
};
use crate::graph::{int_pairs, GraphData};
use crate::text::{decimal, decimal_string, lemma_views_push, views};
use crate::types::{relationship_name, Edge};

verus! {

/// What an issue holds, as character sequences.
pub struct IssueView {
    pub code: Seq<char>,
    pub message: Seq<char>,
    pub nodes: Seq<Seq<char>>,
    pub edges: Seq<Seq<char>>,
}

/// What a validation result holds.
pub struct ResultView {
    pub valid: bool,
    pub errors: Seq<IssueView>,
    pub warnings: Seq<IssueView>,
    pub info: Seq<IssueView>,
}

/// A problem found in a graph.
#[derive(Debug)]
pub struct ValidationIssue {
    /// Stable issue code.
    pub code: String,
    /// Human-readable message.
    pub message: String,
    /// Affected node ids or descriptions.
    pub nodes: Vec<String>,
    /// Affected edge descriptions.
    pub edges: Vec<String>,
}

impl View for ValidationIssue {
    type V = IssueView;

    open spec fn view(&self) -> IssueView {
        IssueView {
            code: self.code@,
            message: self.message@,
            nodes: views(self.nodes@),
            edges: views(self.edges@),
        }
    }
}

/// The views of a sequence of issues.
pub open spec fn issue_views(s: Seq<ValidationIssue>) -> Seq<IssueView> {
    s.map_values(|i: ValidationIssue| i@)
}

proof fn lemma_issue_views_push(s: Seq<ValidationIssue>, x: ValidationIssue)
    ensures
        issue_views(s.push(x)) == issue_views(s).push(x@),
{
    assert(issue_views(s.push(x)) =~= issue_views(s).push(x@));
}

impl ValidationIssue {
    /// An issue with a code and a message, naming no node or edge.
    pub fn new(code: &str, message: &str) -> (r: ValidationIssue)
        ensures
            r@ == (IssueView { code: code@, message: message@, nodes: seq![], edges: seq![] }),
    {
        let r = ValidationIssue {
            code: code.to_owned(),
            message: message.to_owned(),
            nodes: Vec::new(),
            edges: Vec::new(),
        };
        assert(views(r.nodes@) =~= seq![]);
        assert(views(r.edges@) =~= seq![]);
        r
    }

    /// The same issue naming these nodes.
    pub fn with_nodes(self, nodes: Vec<String>) -> (r: ValidationIssue)
        ensures
            r@ == (IssueView { nodes: views(nodes@), ..self@ }),
    {
        ValidationIssue { nodes, ..self }
    }

    /// The same issue naming these edges.
    pub fn with_edges(self, edges: Vec<String>) -> (r: ValidationIssue)
        ensures
            r@ == (IssueView { edges: views(edges@), ..self@ }),
    {
        ValidationIssue { edges, ..self }
    }
}

/// The outcome of validating a graph: errors make it invalid, warnings and
/// informational findings do not.
#[derive(Debug)]
pub struct ValidationResult {
    /// Whether no error was found.
    pub valid: bool,
    /// Problems that make the graph invalid.
    pub errors: Vec<ValidationIssue>,
    /// Problems that do not.
    pub warnings: Vec<ValidationIssue>,
    /// Informational findings.
    pub info: Vec<ValidationIssue>,
}

impl View for ValidationResult {
    type V = ResultView;

    open spec fn view(&self) -> ResultView {
        ResultView {
            valid: self.valid,
            errors: issue_views(self.errors@),
            warnings: issue_views(self.warnings@),
            info: issue_views(self.info@),
        }
    }
}

impl ValidationResult {
    /// An empty, valid result.
    pub fn new() -> (r: ValidationResult)
        ensures
            r@ == (ResultView { valid: true, errors: seq![], warnings: seq![], info: seq![] }),
    {
        let r = ValidationResult { valid: true, errors: Vec::new(), warnings: Vec::new(), info: Vec::new() };
        assert(issue_views(r.errors@) =~= seq![]);
        assert(issue_views(r.warnings@) =~= seq![]);
        assert(issue_views(r.info@) =~= seq![]);
        r
    }

    /// Records an error; the result becomes invalid.
    pub fn add_error(&mut self, issue: ValidationIssue)
        ensures
            final(self)@ == (ResultView {
                valid: false,
                errors: old(self)@.errors.push(issue@),
                ..old(self)@
            }),
    {
        proof { lemma_issue_views_push(self.errors@, issue); }
        self.valid = false;
        self.errors.push(issue);
    }

    /// Records a warning; validity is unchanged.
    pub fn add_warning(&mut self, issue: ValidationIssue)
        ensures
            final(self)@ == (ResultView { warnings: old(self)@.warnings.push(issue@), ..old(self)@ }),
    {
        proof { lemma_issue_views_push(self.warnings@, issue); }
        self.warnings.push(issue);
    }

    /// Records an informational finding; validity is unchanged.
    pub fn add_info(&mut self, issue: ValidationIssue)
        ensures
            final(self)@ == (ResultView { info: old(self)@.info.push(issue@), ..old(self)@ }),
    {
        proof { lemma_issue_views_push(self.info@, issue); }
        self.info.push(issue);
    }

    /// Number of errors and warnings; informational findings do not count.
    pub fn total_issues(&self) -> (r: usize)
        requires
            self.errors@.len() + self.warnings@.len() <= usize::MAX,
        ensures
            r == self.errors@.len() + self.warnings@.len(),
    {
        self.errors.len() + self.warnings.len()
    }
}

impl Default for ValidationResult {
    fn default() -> (r: ValidationResult)
        ensures
            r@ == (ResultView { valid: true, errors: seq![], warnings: seq![], info: seq![] }),
    {
        ValidationResult::new()
    }
}

// ---------------------------------------------------------------------------
// What each check finds
// ---------------------------------------------------------------------------

/// Node `i` is the endpoint of some edge.
pub open spec fn touched(g: GraphData, i: int) -> bool {
    exists|k: int| 0 <= k < g.arcs@.len() && (g.src(k) == i || g.dst(k) == i)
}

/// Ids of the untouched nodes among the first `m`, in order.
pub open spec fn orphans_upto(g: GraphData, m: int) -> Seq<Seq<char>>
    decreases m,
{
    if m <= 0 {
        seq![]
    } else if touched(g, m - 1) {
        orphans_upto(g, m - 1)
    } else {
        orphans_upto(g, m - 1).push(g.nodes@[m - 1].id@)
    }
}

/// Ids of the nodes with no incident edge, in insertion order.
pub open spec fn orphan_ids(g: GraphData) -> Seq<Seq<char>> {
    orphans_upto(g, g.nodes@.len() as int)
}

/// The description `from -> to` of edge `k`.
pub open spec fn edge_desc(g: GraphData, k: int) -> Seq<char> {
    g.edges@[k].from@ + " -> "@ + g.edges@[k].to@
}

/// Descriptions of the self-loops among the first `m` edges, in order.
pub open spec fn self_loops_upto(g: GraphData, m: int) -> Seq<Seq<char>>
    decreases m,
{
    if m <= 0 {
        seq![]
    } else if g.edges@[m - 1].from@ == g.edges@[m - 1].to@ {
        self_loops_upto(g, m - 1).push(edge_desc(g, m - 1))
    } else {
        self_loops_upto(g, m - 1)
    }
}

/// Descriptions of all self-loops, in edge order.
pub open spec fn self_loop_descs(g: GraphData) -> Seq<Seq<char>> {
    self_loops_upto(g, g.edges@.len() as int)
}

/// Edges `k` and `j` share source, target and relationship label.
pub open spec fn same_triple(g: GraphData, k: int, j: int) -> bool {
    &&& g.edges@[k].from@ == g.edges@[j].from@
    &&& g.edges@[k].to@ == g.edges@[j].to@
    &&& relationship_name(g.edges@[k].relationship) == relationship_name(g.edges@[j].relationship)
}

/// Edge `j` repeats the triple of an earlier edge.
pub open spec fn repeats_earlier(g: GraphData, j: int) -> bool {
    exists|k: int| 0 <= k < j && #[trigger] same_triple(g, k, j)
}

/// The description `from -[label]-> to` of edge `k`.
pub open spec fn labelled_desc(g: GraphData, k: int) -> Seq<char> {
    g.edges@[k].from@ + " -["@ + relationship_name(g.edges@[k].relationship) + "]-> "@
        + g.edges@[k].to@
}

/// Descriptions of the repeated edges among the first `m`, in order.
pub open spec fn duplicates_upto(g: GraphData, m: int) -> Seq<Seq<char>>
    decreases m,
{
    if m <= 0 {
        seq![]
    } else if repeats_earlier(g, m - 1) {
        duplicates_upto(g, m - 1).push(labelled_desc(g, m - 1))
    } else {
        duplicates_upto(g, m - 1)
    }
}

/// Descriptions of every edge that repeats an earlier edge's triple.
pub open spec fn duplicate_descs(g: GraphData) -> Seq<Seq<char>> {
    duplicates_upto(g, g.edges@.len() as int)
}

/// The finding for node `i` if it is a variant without a valid canonical
/// node.
pub open spec fn canonical_problem(g: GraphData, i: int) -> Option<Seq<char>> {
    let n = g.nodes@[i];
    if n.is_canonical {
        None
    } else {
        match n.canonical_id {
            Some(c) => if g.has_id(c@) {
                None
            } else {
                Some(n.id@ + " references missing canonical "@ + c@)
            },
            None => Some(n.id@ + " is non-canonical but has no canonical_id"@),
        }
    }
}

/// Canonical-reference findings among the first `m` nodes, in order.
pub open spec fn canonical_upto(g: GraphData, m: int) -> Seq<Seq<char>>
    decreases m,
{
    if m <= 0 {
        seq![]
    } else {
        match canonical_problem(g, m - 1) {
            Some(d) => canonical_upto(g, m - 1).push(d),
            None => canonical_upto(g, m - 1),
        }
    }
}

/// All canonical-reference findings, in node order.
pub open spec fn canonical_findings(g: GraphData) -> Seq<Seq<char>> {
    canonical_upto(g, g.nodes@.len() as int)
}

/// Endpoint indices of the prerequisite edges among the first `m`, in order.
pub open spec fn prereq_arcs_upto(g: GraphData, m: int) -> Seq<(int, int)>
    decreases m,
{
    if m <= 0 {
        seq![]
    } else if g.edges@[m - 1].relationship is Prerequisite {
        prereq_arcs_upto(g, m - 1).push((g.src(m - 1), g.dst(m - 1)))
    } else {
        prereq_arcs_upto(g, m - 1)
    }
}

/// Endpoint indices of all prerequisite edges, in edge order.
pub open spec fn prereq_arcs(g: GraphData) -> Seq<(int, int)> {
    prereq_arcs_upto(g, g.edges@.len() as int)
}

/// The prerequisite edges contain a directed cycle.
pub open spec fn has_prerequisite_cycle(g: GraphData) -> bool {
    !has_topological_order(g.nodes@.len() as int, prereq_arcs(g))
}

/// An issue naming these nodes, with a message that starts with their count.
pub open spec fn counted_node_issue(code: Seq<char>, tail: Seq<char>, items: Seq<Seq<char>>) -> Seq<IssueView> {
    if items.len() == 0 {
        seq![]
    } else {
        seq![IssueView { code, message: decimal(items.len()) + tail, nodes: items, edges: seq![] }]
    }
}

/// An issue naming these edges, with a message that starts with their count.
pub open spec fn counted_edge_issue(code: Seq<char>, tail: Seq<char>, items: Seq<Seq<char>>) -> Seq<IssueView> {
    if items.len() == 0 {
        seq![]
    } else {
        seq![IssueView { code, message: decimal(items.len()) + tail, nodes: seq![], edges: items }]
    }
}

/// The orphan warning, if any.
pub open spec fn orphan_issue(g: GraphData) -> Seq<IssueView> {
    counted_node_issue("ORPHAN_NODES"@, " node(s) have no connections"@, orphan_ids(g))
}

/// The self-loop error, if any.
pub open spec fn self_loop_issue(g: GraphData) -> Seq<IssueView> {
    counted_edge_issue("SELF_LOOPS"@, " edge(s) are self-loops"@, self_loop_descs(g))
}

/// The duplicate-edge warning, if any.
pub open spec fn duplicate_issue(g: GraphData) -> Seq<IssueView> {
    counted_edge_issue("DUPLICATE_EDGES"@, " duplicate edge(s) found"@, duplicate_descs(g))
}

/// The prerequisite-cycle error, if any.
pub open spec fn cycle_issue(g: GraphData) -> Seq<IssueView> {
    if has_prerequisite_cycle(g) {
        seq![
            IssueView {
                code: "PREREQUISITE_CYCLE"@,
                message: "Cycle detected in prerequisite relationships"@,
                nodes: seq![],
                edges: seq![],
            },
        ]
    } else {
        seq![]
    }
}

/// The canonical-reference error, if any.
pub open spec fn canonical_issue(g: GraphData) -> Seq<IssueView> {
    counted_node_issue("INVALID_CANONICAL_REF"@, " invalid canonical reference(s)"@, canonical_findings(g))
}

/// The full outcome of validating `g`.
pub open spec fn validation_of(g: GraphData) -> ResultView {
    let errors = self_loop_issue(g) + cycle_issue(g) + canonical_issue(g);
    ResultView {
        valid: errors.len() == 0,
        errors,
        warnings: orphan_issue(g) + duplicate_issue(g),
        info: seq![],
    }
}

} // verus!

verus! {

// ---------------------------------------------------------------------------
// The checks
// ---------------------------------------------------------------------------

/// Ids of the nodes that no edge touches.
fn orphan_list(g: &GraphData) -> (r: Vec<String>)
    requires
        g.wf(),
    ensures
        views(r@) == orphan_ids(*g),
{
    let mut r: Vec<String> = Vec::new();
    let mut i: usize = 0;
    while i < g.nodes.len()
        invariant
            g.wf(),
            i <= g.nodes@.len(),
            views(r@) == orphans_upto(*g, i as int),
        decreases g.nodes.len() - i,
    {
        let incoming = arc_graph_degree(&g.graph, i, true);
        let outgoing = arc_graph_degree(&g.graph, i, false);
        proof {
            let arcs = int_pairs(g.arcs@);
            lemma_arc_count(arcs, i as int, true);
            lemma_arc_count(arcs, i as int, false);
            if touched(*g, i as int) {
                let k = choose|k: int| 0 <= k < g.arcs@.len() && (g.src(k) == i || g.dst(k) == i);
                assert(arcs[k] == (g.src(k), g.dst(k)));
            } else {
                assert forall|k: int| 0 <= k < arcs.len() implies (#[trigger] arcs[k]).1 != i as int && arcs[k].0 != i as int by {
                    assert(arcs[k] == (g.src(k), g.dst(k)));
                }
            }
        }
        if incoming == 0 && outgoing == 0 {
            let id = g.nodes[i].id.clone();
            proof { lemma_views_push(r@, id); }
            r.push(id);
        }
        i = i + 1;
    }
    r
}

/// Descriptions of the self-loops.
fn self_loop_list(g: &GraphData) -> (r: Vec<String>)
    ensures
        views(r@) == self_loop_descs(*g),
{
    let mut r: Vec<String> = Vec::new();
    let mut k: usize = 0;
    while k < g.edges.len()
        invariant
            k <= g.edges@.len(),
            views(r@) == self_loops_upto(*g, k as int),
        decreases g.edges.len() - k,
    {
        let e = &g.edges[k];
        if e.from == e.to {
            let mut s = e.from.clone();
            s.append(" -> ");
            s.append(e.to.as_str());
            proof { lemma_views_push(r@, s); }
            r.push(s);
        }
        k = k + 1;
    }
    r
}

/// Whether edge `j` repeats the triple of an earlier edge.
fn repeats_earlier_edge(g: &GraphData, j: usize) -> (r: bool)
    requires
        j < g.edges@.len(),
    ensures
        r == repeats_earlier(*g, j as int),
{
    let name_j = g.edges[j].relationship.name();
    let mut k: usize = 0;
    while k < j
        invariant
            j < g.edges@.len(),
            k <= j,
            name_j@ == relationship_name(g.edges@[j as int].relationship),
            forall|kk: int| 0 <= kk < k ==> !(#[trigger] same_triple(*g, kk, j as int)),
        decreases j - k,
    {
        let name_k = g.edges[k].relationship.name();
        if g.edges[k].from == g.edges[j].from && g.edges[k].to == g.edges[j].to && name_k == name_j {
            assert(same_triple(*g, k as int, j as int));
            return true;
        }
        k = k + 1;
    }
    false
}

/// Descriptions of the edges that repeat an earlier edge's triple.
fn duplicate_list(g: &GraphData) -> (r: Vec<String>)
    ensures
        views(r@) == duplicate_descs(*g),
{
    let mut r: Vec<String> = Vec::new();
    let mut j: usize = 0;
    while j < g.edges.len()
        invariant
            j <= g.edges@.len(),
            views(r@) == duplicates_upto(*g, j as int),
        decreases g.edges.len() - j,
    {
        if repeats_earlier_edge(g, j) {
            let e = &g.edges[j];
            let mut s = e.from.clone();
            s.append(" -[");
            let name = e.relationship.name();
            s.append(name.as_str());
            s.append("]-> ");
            s.append(e.to.as_str());
            proof { lemma_views_push(r@, s); }
            r.push(s);
        }
        j = j + 1;
    }
    r
}

/// Findings for variants without a valid canonical node.
fn canonical_list(g: &GraphData) -> (r: Vec<String>)
    requires
        g.wf(),
    ensures
        views(r@) == canonical_findings(*g),
{
    let mut r: Vec<String> = Vec::new();
    let mut i: usize = 0;
    while i < g.nodes.len()
        invariant
            g.wf(),
            i <= g.nodes@.len(),
            views(r@) == canonical_upto(*g, i as int),
        decreases g.nodes.len() - i,
    {
        let node = &g.nodes[i];
        if !node.is_canonical {
            match &node.canonical_id {
                Some(c) => {
                    if !g.contains_node(c.as_str()) {
                        let mut s = node.id.clone();
                        s.append(" references missing canonical ");
                        s.append(c.as_str());
                        proof { lemma_views_push(r@, s); }
                        r.push(s);
                    }
                },
                None => {
                    let mut s = node.id.clone();
                    s.append(" is non-canonical but has no canonical_id");
                    proof { lemma_views_push(r@, s); }
                    r.push(s);
                },
            }
        }
        i = i + 1;
    }
    r
}

/// The prerequisite edges of `g` as an index-only petgraph graph over all
/// of its nodes.
pub(crate) fn prerequisite_arc_graph(g: &GraphData) -> (pg: ArcGraph)
    requires
        g.wf(),
    ensures
        arc_graph_order(pg) == g.nodes@.len(),
        arc_graph_arcs(pg) == prereq_arcs(*g),
{
    let mut pg = arc_graph_new();
    let mut i: usize = 0;
    while i < g.nodes.len()
        invariant
            i <= g.nodes@.len(),
            arc_graph_order(pg) == i,
            arc_graph_arcs(pg) == Seq::<(int, int)>::empty(),
        decreases g.nodes.len() - i,
    {
        arc_graph_add_node(&mut pg);
        i = i + 1;
    }
    let mut k: usize = 0;
    while k < g.edges.len()
        invariant
            g.wf(),
            k <= g.edges@.len(),
            arc_graph_order(pg) == g.nodes@.len(),
            arc_graph_arcs(pg) == prereq_arcs_upto(*g, k as int),
        decreases g.edges.len() - k,
    {
        if g.edges[k].relationship.is_prerequisite() {
            let (a, b) = g.arcs[k];
            arc_graph_add_edge(&mut pg, a, b);
        }
        k = k + 1;
    }
    pg
}

/// Whether the prerequisite edges form a cycle, by petgraph's topological
/// sort.
pub fn prerequisite_cycle_exists(g: &GraphData) -> (r: bool)
    requires
        g.wf(),
    ensures
        r == has_prerequisite_cycle(*g),
{
    let pg = prerequisite_arc_graph(g);
    arc_graph_toposort(&pg).is_none()
}

/// An issue with a code, a message made of `items.len()` and `tail`, and
/// the items as nodes or as edges.
fn counted_issue(code: &str, tail: &str, items: Vec<String>, as_nodes: bool) -> (r: ValidationIssue)
    ensures
        r@.code == code@,
        r@.message == decimal(items@.len()) + tail@,
        as_nodes ==> r@.nodes == views(items@) && r@.edges == Seq::<Seq<char>>::empty(),
        !as_nodes ==> r@.edges == views(items@) && r@.nodes == Seq::<Seq<char>>::empty(),
{
    let mut message = decimal_string(items.len() as u64);
    message.append(tail);
    let issue = ValidationIssue::new(code, message.as_str());
    if as_nodes {
        issue.with_nodes(items)
    } else {
        issue.with_edges(items)
    }
}

/// Validates a graph. Errors: self-loops, prerequisite cycles and invalid
/// canonical references; warnings: orphan nodes and duplicate edges. The
/// result is valid exactly when it holds no error.
pub fn validate_graph(graph: &GraphData) -> (r: ValidationResult)
    requires
        graph.wf(),
    ensures
        r@ == validation_of(*graph),
{
    let mut result = ValidationResult::new();

    let orphans = orphan_list(graph);
    if orphans.len() > 0 {
        result.add_warning(counted_issue("ORPHAN_NODES", " node(s) have no connections", orphans, true));
    }
    let loops = self_loop_list(graph);
    if loops.len() > 0 {
        result.add_error(counted_issue("SELF_LOOPS", " edge(s) are self-loops", loops, false));
    }
    let duplicates = duplicate_list(graph);
    if duplicates.len() > 0 {
        result.add_warning(counted_issue("DUPLICATE_EDGES", " duplicate edge(s) found", duplicates, false));
    }
    if prerequisite_cycle_exists(graph) {
        result.add_error(ValidationIssue::new("PREREQUISITE_CYCLE", "Cycle detected in prerequisite relationships"));
    }
    let invalid = canonical_list(graph);
    if invalid.len() > 0 {
        result.add_error(counted_issue("INVALID_CANONICAL_REF", " invalid canonical reference(s)", invalid, true));
    }
    proof {
        let g = *graph;
        let v = validation_of(g);
        assert(result@.errors =~= v.errors);
        assert(result@.warnings =~= v.warnings);
        assert(result@.info =~= v.info);
    }
    result
}

/// Whether the graph has no validation error.
pub fn is_valid(graph: &GraphData) -> (r: bool)
    requires
        graph.wf(),
    ensures
        r == validation_of(*graph).valid,
{
    validate_graph(graph).valid
}

} // verus!

verus! {

// ---------------------------------------------------------------------------
// Laws
// ---------------------------------------------------------------------------

/// Two graphs that agree on their first `m` edges and endpoint indices find
/// the same self-loops, duplicates and prerequisite arcs among them.
proof fn lemma_edge_prefix_agree(g1: GraphData, g2: GraphData, m: int)
    requires
        0 <= m <= g1.edges@.len(),
        m <= g2.edges@.len(),
        m <= g1.arcs@.len(),
        m <= g2.arcs@.len(),
        forall|k: int| 0 <= k < m ==> g1.edges@[k] == g2.edges@[k] && g1.arcs@[k] == g2.arcs@[k],
    ensures
        self_loops_upto(g1, m) == self_loops_upto(g2, m),
        duplicates_upto(g1, m) == duplicates_upto(g2, m),
        prereq_arcs_upto(g1, m) == prereq_arcs_upto(g2, m),
    decreases m,
{
    if m > 0 {
        lemma_edge_prefix_agree(g1, g2, m - 1);
        assert forall|k: int| 0 <= k < m - 1 implies (#[trigger] same_triple(g1, k, m - 1) <==> same_triple(g2, k, m - 1)) by {
            assert(g1.edges@[k] == g2.edges@[k]);
            assert(g1.edges@[m - 1] == g2.edges@[m - 1]);
        }
        assert(repeats_earlier(g1, m - 1) == repeats_earlier(g2, m - 1)) by {
            if repeats_earlier(g1, m - 1) {
                let k = choose|k: int| 0 <= k < m - 1 && #[trigger] same_triple(g1, k, m - 1);
                assert(same_triple(g2, k, m - 1));
            }
            if repeats_earlier(g2, m - 1) {
                let k = choose|k: int| 0 <= k < m - 1 && #[trigger] same_triple(g2, k, m - 1);
                assert(same_triple(g1, k, m - 1));
            }
        }
        assert(g1.edges@[m - 1] == g2.edges@[m - 1]);
        assert(g1.arcs@[m - 1] == g2.arcs@[m - 1]);
    }
}

/// Two graphs with the same nodes find the same canonical-reference
/// problems among their first `m` nodes.
proof fn lemma_canonical_agree(g1: GraphData, g2: GraphData, m: int)
    requires
        g1.nodes@ == g2.nodes@,
        0 <= m <= g1.nodes@.len(),
    ensures
        canonical_upto(g1, m) == canonical_upto(g2, m),
    decreases m,
{
    if m > 0 {
        lemma_canonical_agree(g1, g2, m - 1);
        assert(canonical_problem(g1, m - 1) == canonical_problem(g2, m - 1));
    }
}

/// Two graphs with the same nodes and endpoint indices find the same
/// orphans among their first `m` nodes.
proof fn lemma_orphans_agree(g1: GraphData, g2: GraphData, m: int)
    requires
        g1.nodes@ == g2.nodes@,
        g1.arcs@ == g2.arcs@,
        0 <= m <= g1.nodes@.len(),
    ensures
        orphans_upto(g1, m) == orphans_upto(g2, m),
    decreases m,
{
    if m > 0 {
        lemma_orphans_agree(g1, g2, m - 1);
        let i = m - 1;
        if touched(g1, i) {
            let k = choose|k: int| 0 <= k < g1.arcs@.len() && (g1.src(k) == i || g1.dst(k) == i);
            assert(g2.src(k) == g1.src(k) && g2.dst(k) == g1.dst(k));
        }
        if touched(g2, i) {
            let k = choose|k: int| 0 <= k < g2.arcs@.len() && (g2.src(k) == i || g2.dst(k) == i);
            assert(g2.src(k) == g1.src(k) && g2.dst(k) == g1.dst(k));
        }
        assert(touched(g1, i) == touched(g2, i));
    }
}

/// Validation is a function of the graph alone: two graphs with the same
/// nodes, edges and endpoint indices get the same result.
pub proof fn validation_is_deterministic(g1: GraphData, g2: GraphData)
    requires
        g1.nodes@ == g2.nodes@,
        g1.edges@ == g2.edges@,
        g1.arcs@ == g2.arcs@,
        g1.arcs@.len() == g1.edges@.len(),
    ensures
        validation_of(g1) == validation_of(g2),
{
    lemma_edge_prefix_agree(g1, g2, g1.edges@.len() as int);
    lemma_canonical_agree(g1, g2, g1.nodes@.len() as int);
    lemma_orphans_agree(g1, g2, g1.nodes@.len() as int);
}

/// Adding a self-loop to a graph adds its description `a -> a` to the
/// self-loop list, so the result holds exactly one `SELF_LOOPS` error and
/// is invalid; the canonical-reference check is unaffected, and so is the
/// cycle check when the new edge is not a prerequisite.
pub proof fn self_loop_adds_one_error(before: GraphData, after: GraphData, e: Edge)
    requires
        before.wf(),
        after.wf(),
        e.from@ == e.to@,
        after.nodes@ == before.nodes@,
        after.edges@ == before.edges@.push(e),
        after.arcs@.len() == before.arcs@.len() + 1,
        after.arcs@.subrange(0, before.arcs@.len() as int) == before.arcs@,
    ensures
        self_loop_descs(after) == self_loop_descs(before).push(e.from@ + " -> "@ + e.to@),
        !validation_of(after).valid,
        validation_of(after).errors[0].code == "SELF_LOOPS"@,
        validation_of(after).errors[0].edges == self_loop_descs(after),
        forall|i: int|
            1 <= i < validation_of(after).errors.len() ==> (#[trigger] validation_of(after).errors[i]).code
                != "SELF_LOOPS"@,
        canonical_issue(after) == canonical_issue(before),
        !(e.relationship is Prerequisite) ==> cycle_issue(after) == cycle_issue(before),
{
    let m = before.edges@.len() as int;
    assert forall|k: int| 0 <= k < m implies before.edges@[k] == after.edges@[k] && before.arcs@[k]
        == after.arcs@[k] by {
        assert(after.arcs@.subrange(0, m)[k] == after.arcs@[k]);
    }
    lemma_edge_prefix_agree(before, after, m);
    assert(after.edges@[m] == e);
    assert(self_loops_upto(after, m + 1) == self_loops_upto(after, m).push(edge_desc(after, m)));
    lemma_canonical_agree(before, after, before.nodes@.len() as int);
    reveal_strlit("SELF_LOOPS");
    reveal_strlit("PREREQUISITE_CYCLE");
    reveal_strlit("INVALID_CANONICAL_REF");
    let errs = validation_of(after).errors;
    assert(errs == self_loop_issue(after) + cycle_issue(after) + canonical_issue(after));
    assert(self_loop_issue(after).len() == 1);
    assert forall|i: int| 1 <= i < errs.len() implies (#[trigger] errs[i]).code != "SELF_LOOPS"@ by {
        assert(errs[i].code[0] != 'S');
    }
    if !(e.relationship is Prerequisite) {
        assert(prereq_arcs_upto(after, m + 1) == prereq_arcs_upto(after, m));
    }
}

} // verus!

verus! {

/// Number of nodes that no edge touches.
pub fn orphan_count(g: &GraphData) -> (r: usize)
    requires
        g.wf(),
    ensures
        r == orphan_ids(*g).len(),
{
    let list = orphan_list(g);
    list.len()
}

} // verus!
