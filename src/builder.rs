//! The decisions of a graph build: what to do with a file that could not
//! be extracted, and adding the staged edges once every node is known,
//! with edges to unknown nodes reported instead of failing the build.

use vstd::prelude::*;
use crate::graph::{seq_has_id, GraphData};
use crate::persistence::kept_edges;
use crate::text::lemma_views_push;
use crate::types::{Edge, EdgeOrigin, Relationship, DEFAULT_WEIGHT};

verus! {

/// What a build does when a file cannot be extracted.
#[derive(Clone, Copy, Debug, PartialEq, Eq, Structural)]
pub enum ErrorHandling {
    /// Abort the build on the first error.
    FailFast,
    /// Record the error, skip the file and go on.
    CollectErrors,
}

/// A file that could not be extracted.
#[derive(Debug)]
pub struct BuildError {
    /// Path of the file.
    pub file: String,
    /// What went wrong.
    pub message: String,
}

/// What a build did.
#[derive(Debug)]
pub struct BuildStats {
    /// Nodes inserted.
    pub nodes_created: usize,
    /// Edges added.
    pub edges_created: usize,
    /// Files that contributed to the graph.
    pub files_processed: usize,
    /// Files skipped because of an error.
    pub files_skipped: usize,
    /// The errors that were recorded.
    pub errors: Vec<BuildError>,
    /// Edges whose endpoint was missing, as `from -> to`.
    pub dangling_refs: Vec<String>,
}

impl BuildStats {
    /// Statistics of a build that has not started.
    pub fn new() -> (r: BuildStats)
        ensures
            r.nodes_created == 0,
            r.edges_created == 0,
            r.files_processed == 0,
            r.files_skipped == 0,
            r.errors@.len() == 0,
            r.dangling_refs@.len() == 0,
    {
        BuildStats {
            nodes_created: 0,
            edges_created: 0,
            files_processed: 0,
            files_skipped: 0,
            errors: Vec::new(),
            dangling_refs: Vec::new(),
        }
    }
}

/// An edge supplied by the caller rather than extracted from content.
#[derive(Debug)]
pub struct ManualEdge {
    /// Source node id.
    pub from: String,
    /// Target node id.
    pub to: String,
    /// Kind of relationship.
    pub relationship: Relationship,
}

impl ManualEdge {
    /// The graph edge for this supplied edge: default weight, manual origin.
    pub fn to_edge(self) -> (r: Edge)
        ensures
            r.from == self.from,
            r.to == self.to,
            r.relationship == self.relationship,
            r.weight == DEFAULT_WEIGHT,
            r.origin == EdgeOrigin::Manual,
    {
        Edge { from: self.from, to: self.to, relationship: self.relationship, weight: DEFAULT_WEIGHT, origin: EdgeOrigin::Manual }
    }
}

/// Handles a file whose extraction failed. With `FailFast` the build must
/// stop (`true`) and nothing is recorded; with `CollectErrors` the error
/// is recorded, the file counts as skipped, and the build goes on.
pub fn record_extraction_error(
    policy: ErrorHandling,
    stats: &mut BuildStats,
    file: String,
    message: String,
) -> (abort: bool)
    requires
        old(stats).files_skipped < usize::MAX,
    ensures
        abort == (policy == ErrorHandling::FailFast),
        abort ==> final(stats).errors@ == old(stats).errors@ && final(stats).files_skipped == old(stats).files_skipped,
        !abort ==> final(stats).errors@ == old(stats).errors@.push(BuildError { file, message })
            && final(stats).files_skipped == old(stats).files_skipped + 1,
        final(stats).nodes_created == old(stats).nodes_created,
        final(stats).edges_created == old(stats).edges_created,
        final(stats).files_processed == old(stats).files_processed,
        final(stats).dangling_refs@ == old(stats).dangling_refs@,
{
    match policy {
        ErrorHandling::FailFast => true,
        ErrorHandling::CollectErrors => {
            stats.errors.push(BuildError { file, message });
            stats.files_skipped = stats.files_skipped + 1;
            false
        },
    }
}

/// Descriptions `from -> to` of the edges of `es` that are not kept
/// against nodes `ns`, in order.
pub open spec fn dangling_descs(ns: Seq<crate::types::Node>, es: Seq<Edge>) -> Seq<Seq<char>>
    decreases es.len(),
{
    if es.len() == 0 {
        seq![]
    } else if seq_has_id(ns, es.last().from@) && seq_has_id(ns, es.last().to@) {
        dangling_descs(ns, es.drop_last())
    } else {
        dangling_descs(ns, es.drop_last()).push(es.last().from@ + " -> "@ + es.last().to@)
    }
}

/// Adds the staged edges once every node is in the graph. An edge with a
/// missing endpoint is not added and does not fail the build: it is
/// reported in `dangling_refs`.
pub fn add_staged_edges(graph: &mut GraphData, staged: Vec<Edge>, stats: &mut BuildStats)
    requires
        old(graph).wf(),
        old(stats).edges_created + staged@.len() <= usize::MAX,
    ensures
        final(graph).wf(),
        final(graph).nodes@ == old(graph).nodes@,
        final(graph).edges@ == old(graph).edges@ + kept_edges(old(graph).nodes@, staged@),
        crate::text::views(final(stats).dangling_refs@) == crate::text::views(old(stats).dangling_refs@)
            + dangling_descs(old(graph).nodes@, staged@),
        final(stats).edges_created == old(stats).edges_created + kept_edges(old(graph).nodes@, staged@).len(),
        final(stats).nodes_created == old(stats).nodes_created,
        final(stats).files_processed == old(stats).files_processed,
        final(stats).files_skipped == old(stats).files_skipped,
        final(stats).errors@ == old(stats).errors@,
{
    let ghost all = staged@;
    let ghost ns = graph.nodes@;
    let ghost old_edges = graph.edges@;
    let ghost old_refs = crate::text::views(stats.dangling_refs@);
    let ghost created0 = stats.edges_created;
    let mut staged = staged;
    let mut pending: Vec<Edge> = Vec::new();
    // Move the staged edges into `pending` in reverse, so that popping
    // yields them in order.
    while staged.len() > 0
        invariant
            staged@.len() <= all.len(),
            forall|i: int| 0 <= i < staged@.len() ==> #[trigger] staged@[i] == all[i],
            pending@.len() + staged@.len() == all.len(),
            forall|i: int| 0 <= i < pending@.len() ==> #[trigger] pending@[i] == all[all.len() - 1 - i],
        decreases staged.len(),
    {
        let ghost before = staged@;
        let e = staged.pop().unwrap();
        proof {
            assert(e == before[before.len() - 1]);
            assert forall|i: int| 0 <= i < staged@.len() implies #[trigger] staged@[i] == all[i] by {
                assert(staged@[i] == before[i]);
            }
        }
        pending.push(e);
    }
    let mut done: usize = 0;
    while pending.len() > 0
        invariant
            graph.wf(),
            graph.nodes@ == ns,
            done <= all.len(),
            pending@.len() + done == all.len(),
            forall|i: int| 0 <= i < pending@.len() ==> #[trigger] pending@[i] == all[all.len() - 1 - i],
            graph.edges@ == old_edges + kept_edges(ns, all.subrange(0, done as int)),
            crate::text::views(stats.dangling_refs@) == old_refs + dangling_descs(ns, all.subrange(0, done as int)),
            stats.edges_created == created0 + kept_edges(ns, all.subrange(0, done as int)).len(),
            created0 + all.len() <= usize::MAX,
            stats.nodes_created == old(stats).nodes_created,
            stats.files_processed == old(stats).files_processed,
            stats.files_skipped == old(stats).files_skipped,
            stats.errors@ == old(stats).errors@,
        decreases pending.len(),
    {
        let ghost before = pending@;
        let e = pending.pop().unwrap();
        proof {
            assert(e == all[done as int]);
            assert(all.subrange(0, done as int + 1).drop_last() =~= all.subrange(0, done as int));
            assert forall|i: int| 0 <= i < pending@.len() implies #[trigger] pending@[i] == all[all.len() - 1 - i] by {
                assert(pending@[i] == before[i]);
            }
            crate::persistence::dangling_edges_dropped(ns, all.subrange(0, done as int));
        }
        let mut desc = e.from.clone();
        desc.append(" -> ");
        desc.append(e.to.as_str());
        let ghost d = desc;
        let ghost ee = e;
        match graph.add_edge(e) {
            Ok(()) => {
                stats.edges_created = stats.edges_created + 1;
                proof {
                    assert(graph.edges@ =~= old_edges + kept_edges(ns, all.subrange(0, done as int + 1)));
                }
            },
            Err(_) => {
                proof {
                    lemma_views_push(stats.dangling_refs@, d);
                }
                stats.dangling_refs.push(desc);
                proof {
                    assert(crate::text::views(stats.dangling_refs@) =~= old_refs + dangling_descs(ns, all.subrange(0, done as int + 1)));
                }
            },
        }
        done = done + 1;
    }
    proof {
        assert(all.subrange(0, all.len() as int) =~= all);
    }
}

} // verus!
