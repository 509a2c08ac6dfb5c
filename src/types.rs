//! The graph data model: nodes, labelled edges and the owning arena.

use vstd::prelude::*;
use crate::text::{copy_opt, same_text};

verus! {

/// Weight of an edge built without an explicit weight: one unit, counted in
/// thousandths.
pub const DEFAULT_WEIGHT: u32 = 1000;

/// The kind of a directed relationship between two nodes.
#[derive(Debug)]
pub enum Relationship {
    /// The source must be understood before the target.
    Prerequisite,
    /// The two concepts are related.
    RelatesTo,
    /// The source naturally leads on to the target.
    LeadsTo,
    /// A domain-specific relationship, named by its string.
    Custom(String),
}

/// The label of a relationship: lowercase with underscores, or the custom
/// name itself.
pub open spec fn relationship_name(r: Relationship) -> Seq<char> {
    match r {
        Relationship::Prerequisite => "prerequisite"@,
        Relationship::RelatesTo => "relates_to"@,
        Relationship::LeadsTo => "leads_to"@,
        Relationship::Custom(s) => s@,
    }
}

/// Two relationships are the same when they are the same built-in kind, or
/// both custom with the same name.
pub open spec fn same_relationship(a: Relationship, b: Relationship) -> bool {
    match (a, b) {
        (Relationship::Prerequisite, Relationship::Prerequisite) => true,
        (Relationship::RelatesTo, Relationship::RelatesTo) => true,
        (Relationship::LeadsTo, Relationship::LeadsTo) => true,
        (Relationship::Custom(x), Relationship::Custom(y)) => x@ == y@,
        _ => false,
    }
}

impl Relationship {
    /// The relationship's label.
    pub fn name(&self) -> (r: String)
        ensures
            r@ == relationship_name(*self),
    {
        match self {
            Relationship::Prerequisite => "prerequisite".to_owned(),
            Relationship::RelatesTo => "relates_to".to_owned(),
            Relationship::LeadsTo => "leads_to".to_owned(),
            Relationship::Custom(s) => s.clone(),
        }
    }

    /// Whether this is the prerequisite relationship.
    pub fn is_prerequisite(&self) -> (r: bool)
        ensures
            r == (*self is Prerequisite),
    {
        match self {
            Relationship::Prerequisite => true,
            _ => false,
        }
    }
}

impl Clone for Relationship {
    fn clone(&self) -> (r: Self)
        ensures
            r == *self,
    {
        match self {
            Relationship::Prerequisite => Relationship::Prerequisite,
            Relationship::RelatesTo => Relationship::RelatesTo,
            Relationship::LeadsTo => Relationship::LeadsTo,
            Relationship::Custom(s) => Relationship::Custom(s.clone()),
        }
    }
}

impl PartialEq for Relationship {
    fn eq(&self, other: &Relationship) -> (r: bool)
        ensures
            r == same_relationship(*self, *other),
    {
        match (self, other) {
            (Relationship::Prerequisite, Relationship::Prerequisite) => true,
            (Relationship::RelatesTo, Relationship::RelatesTo) => true,
            (Relationship::LeadsTo, Relationship::LeadsTo) => true,
            (Relationship::Custom(x), Relationship::Custom(y)) => *x == *y,
            _ => false,
        }
    }
}

impl vstd::std_specs::cmp::PartialEqSpecImpl for Relationship {
    open spec fn obeys_eq_spec() -> bool {
        true
    }

    open spec fn eq_spec(&self, other: &Relationship) -> bool {
        same_relationship(*self, *other)
    }
}

/// Where an edge came from; informational only.
#[derive(Debug, Clone, Copy, PartialEq, Eq, Structural)]
pub enum EdgeOrigin {
    /// Derived from parsed content.
    Frontmatter,
    /// Added explicitly.
    Manual,
    /// Inferred by tooling.
    Inferred,
}

/// A graph vertex.
#[derive(Debug)]
pub struct Node {
    /// Unique, stable identifier.
    pub id: String,
    /// Display label.
    pub title: String,
    /// Free-form grouping tag.
    pub category: Option<String>,
    /// Reference to the source material.
    pub source_id: Option<String>,
    /// Whether this node is the authoritative form of its concept.
    pub is_canonical: bool,
    /// For a variant, the id of its canonical node.
    pub canonical_id: Option<String>,
    /// Key/value annotations, keys unique.
    pub metadata: Vec<(String, String)>,
}

/// The keys of an annotation list.
pub open spec fn meta_has_key(m: Seq<(String, String)>, k: Seq<char>) -> bool {
    exists|i: int| 0 <= i < m.len() && (#[trigger] m[i]).0@ == k
}

/// An annotation list whose keys are pairwise distinct.
pub open spec fn meta_keys_unique(m: Seq<(String, String)>) -> bool {
    forall|i: int, j: int|
        0 <= i < m.len() && 0 <= j < m.len() && i != j ==> (#[trigger] m[i]).0@ != (#[trigger] m[j]).0@
}

/// Returns an exact copy of an annotation list.
fn copy_metadata(m: &Vec<(String, String)>) -> (r: Vec<(String, String)>)
    ensures
        r@ == m@,
{
    let mut r: Vec<(String, String)> = Vec::new();
    let mut i: usize = 0;
    while i < m.len()
        invariant
            i <= m.len(),
            r@ == m@.subrange(0, i as int),
        decreases m.len() - i,
    {
        let k = m[i].0.clone();
        let v = m[i].1.clone();
        r.push((k, v));
        i = i + 1;
    }
    r
}

/// Two nodes hold the same fields and the same annotations.
pub open spec fn same_node(a: Node, b: Node) -> bool {
    &&& a.id == b.id
    &&& a.title == b.title
    &&& a.category == b.category
    &&& a.source_id == b.source_id
    &&& a.is_canonical == b.is_canonical
    &&& a.canonical_id == b.canonical_id
    &&& a.metadata@ == b.metadata@
}

impl Clone for Node {
    fn clone(&self) -> (r: Self)
        ensures
            same_node(r, *self),
    {
        Node {
            id: self.id.clone(),
            title: self.title.clone(),
            category: copy_opt(&self.category),
            source_id: copy_opt(&self.source_id),
            is_canonical: self.is_canonical,
            canonical_id: copy_opt(&self.canonical_id),
            metadata: copy_metadata(&self.metadata),
        }
    }
}

impl Node {
    /// A canonical node with the given id and title and nothing else.
    pub fn new(id: &str, title: &str) -> (r: Node)
        ensures
            r.id@ == id@,
            r.title@ == title@,
            r.category is None,
            r.source_id is None,
            r.is_canonical,
            r.canonical_id is None,
            r.metadata@.len() == 0,
    {
        Node {
            id: id.to_owned(),
            title: title.to_owned(),
            category: None,
            source_id: None,
            is_canonical: true,
            canonical_id: None,
            metadata: Vec::new(),
        }
    }

    /// The same node with the given category.
    pub fn with_category(self, category: &str) -> (r: Node)
        ensures
            r == (Node { category: r.category, ..self }),
            r.category matches Some(c) && c@ == category@,
    {
        Node { category: Some(category.to_owned()), ..self }
    }

    /// The same node with the given source reference.
    pub fn with_source(self, source_id: &str) -> (r: Node)
        ensures
            r == (Node { source_id: r.source_id, ..self }),
            r.source_id matches Some(c) && c@ == source_id@,
    {
        Node { source_id: Some(source_id.to_owned()), ..self }
    }

    /// The same node marked as a variant of `canonical_id`.
    pub fn as_variant_of(self, canonical_id: &str) -> (r: Node)
        ensures
            r == (Node { is_canonical: false, canonical_id: r.canonical_id, ..self }),
            r.canonical_id matches Some(c) && c@ == canonical_id@,
    {
        Node { is_canonical: false, canonical_id: Some(canonical_id.to_owned()), ..self }
    }

    /// The position of annotation `key`, if present.
    pub fn metadata_position(&self, key: &str) -> (r: Option<usize>)
        ensures
            r matches Some(i) ==> i < self.metadata@.len() && self.metadata@[i as int].0@ == key@,
            r is None ==> !meta_has_key(self.metadata@, key@),
    {
        let mut i: usize = 0;
        while i < self.metadata.len()
            invariant
                i <= self.metadata@.len(),
                forall|j: int| 0 <= j < i ==> (#[trigger] self.metadata@[j]).0@ != key@,
            decreases self.metadata.len() - i,
        {
            if same_text(&self.metadata[i].0, key) {
                return Some(i);
            }
            i = i + 1;
        }
        None
    }

    /// The value of annotation `key`, if present.
    pub fn metadata_value(&self, key: &str) -> (r: Option<String>)
        ensures
            r matches Some(v) ==> exists|i: int|
                0 <= i < self.metadata@.len() && (#[trigger] self.metadata@[i]).0@ == key@
                    && self.metadata@[i].1@ == v@,
            r is None ==> !meta_has_key(self.metadata@, key@),
    {
        match self.metadata_position(key) {
            Some(i) => Some(self.metadata[i].1.clone()),
            None => None,
        }
    }

    /// The same node with annotation `key` set to `value`, replacing any
    /// earlier value of that key.
    pub fn with_metadata(self, key: &str, value: &str) -> (r: Node)
        ensures
            r == (Node { metadata: r.metadata, ..self }),
            meta_has_key(self.metadata@, key@) ==> exists|i: int|
                0 <= i < self.metadata@.len() && (#[trigger] self.metadata@[i]).0@ == key@
                    && r.metadata@.len() == self.metadata@.len()
                    && r.metadata@[i].0@ == key@ && r.metadata@[i].1@ == value@
                    && forall|j: int| 0 <= j < r.metadata@.len() && j != i ==> r.metadata@[j] == self.metadata@[j],
            !meta_has_key(self.metadata@, key@) ==> r.metadata@.len() == self.metadata@.len() + 1
                && r.metadata@.subrange(0, self.metadata@.len() as int) == self.metadata@
                && r.metadata@.last().0@ == key@ && r.metadata@.last().1@ == value@,
            meta_keys_unique(self.metadata@) ==> meta_keys_unique(r.metadata@),
    {
        let mut node = self;
        match node.metadata_position(key) {
            Some(i) => {
                node.metadata.set(i, (key.to_owned(), value.to_owned()));
            },
            None => {
                node.metadata.push((key.to_owned(), value.to_owned()));
            },
        }
        node
    }
}

/// A directed, labelled relationship between two node ids.
#[derive(Debug)]
pub struct Edge {
    /// Id of the source node.
    pub from: String,
    /// Id of the target node.
    pub to: String,
    /// Kind of relationship.
    pub relationship: Relationship,
    /// Traversal cost in thousandths of a unit; lower is closer.
    pub weight: u32,
    /// Provenance of the edge.
    pub origin: EdgeOrigin,
}

impl Clone for Edge {
    fn clone(&self) -> (r: Self)
        ensures
            r == *self,
    {
        Edge {
            from: self.from.clone(),
            to: self.to.clone(),
            relationship: self.relationship.clone(),
            weight: self.weight,
            origin: self.origin,
        }
    }
}

impl Edge {
    /// An edge of the default weight that came from parsed content.
    pub fn new(from: &str, to: &str, relationship: Relationship) -> (r: Edge)
        ensures
            r.from@ == from@,
            r.to@ == to@,
            r.relationship == relationship,
            r.weight == DEFAULT_WEIGHT,
            r.origin == EdgeOrigin::Frontmatter,
    {
        Edge {
            from: from.to_owned(),
            to: to.to_owned(),
            relationship,
            weight: DEFAULT_WEIGHT,
            origin: EdgeOrigin::Frontmatter,
        }
    }

    /// The same edge with another weight.
    pub fn with_weight(self, weight: u32) -> (r: Edge)
        ensures
            r == (Edge { weight, ..self }),
    {
        Edge { weight, ..self }
    }

    /// The same edge with another origin.
    pub fn with_origin(self, origin: EdgeOrigin) -> (r: Edge)
        ensures
            r == (Edge { origin, ..self }),
    {
        Edge { origin, ..self }
    }
}

} // verus!
