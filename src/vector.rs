//! Records of vector indexing: documents to embed, index metadata and its
//! freshness test, build statistics.

use vstd::prelude::*;
use crate::text::same_text;

verus! {

/// A map from string keys to string values, in insertion order, keys
/// unique.
#[derive(Debug)]
pub struct StringMap {
    entries: Vec<(String, String)>,
}

/// The map holds key `k`, with value `v`.
pub open spec fn map_has(m: Seq<(String, String)>, k: Seq<char>, v: Seq<char>) -> bool {
    exists|i: int| 0 <= i < m.len() && (#[trigger] m[i]).0@ == k && m[i].1@ == v
}

impl StringMap {
    /// The entries, in insertion order.
    pub closed spec fn entries(&self) -> Seq<(String, String)> {
        self.entries@
    }

    /// Keys are pairwise distinct.
    pub open spec fn wf(&self) -> bool {
        forall|i: int, j: int|
            0 <= i < self.entries().len() && 0 <= j < self.entries().len() && i != j ==> (#[trigger] self.entries()[i]).0@
                != (#[trigger] self.entries()[j]).0@
    }

    /// An empty map.
    pub fn new() -> (r: StringMap)
        ensures
            r.wf(),
            r.entries().len() == 0,
    {
        StringMap { entries: Vec::new() }
    }

    /// Number of keys.
    pub fn len(&self) -> (r: usize)
        ensures
            r == self.entries().len(),
    {
        self.entries.len()
    }

    /// Whether there are no keys.
    pub fn is_empty(&self) -> (r: bool)
        ensures
            r == (self.entries().len() == 0),
    {
        self.entries.len() == 0
    }

    fn position(&self, key: &str) -> (r: Option<usize>)
        ensures
            r matches Some(i) ==> i < self.entries().len() && self.entries()[i as int].0@ == key@,
            r is None ==> forall|i: int| 0 <= i < self.entries().len() ==> (#[trigger] self.entries()[i]).0@ != key@,
    {
        let mut i: usize = 0;
        while i < self.entries.len()
            invariant
                i <= self.entries@.len(),
                forall|j: int| 0 <= j < i ==> (#[trigger] self.entries@[j]).0@ != key@,
            decreases self.entries.len() - i,
        {
            if same_text(&self.entries[i].0, key) {
                return Some(i);
            }
            i = i + 1;
        }
        None
    }

    /// The value of `key`, if present.
    pub fn get(&self, key: &str) -> (r: Option<&String>)
        requires
            self.wf(),
        ensures
            r matches Some(v) ==> map_has(self.entries(), key@, v@),
            r is None ==> forall|i: int| 0 <= i < self.entries().len() ==> (#[trigger] self.entries()[i]).0@ != key@,
    {
        match self.position(key) {
            Some(i) => Some(&self.entries[i].1),
            None => None,
        }
    }

    /// Sets `key` to `value`, replacing an earlier value of the key.
    pub fn insert(&mut self, key: &str, value: &str)
        requires
            old(self).wf(),
        ensures
            final(self).wf(),
            map_has(final(self).entries(), key@, value@),
            forall|k: Seq<char>, v: Seq<char>| k != key@ ==> (map_has(final(self).entries(), k, v) <==> map_has(
                old(self).entries(),
                k,
                v,
            )),
            old(self).entries().len() <= final(self).entries().len() <= old(self).entries().len() + 1,
    {
        let ghost before = self.entries@;
        match self.position(key) {
            Some(i) => {
                self.entries.set(i, (key.to_owned(), value.to_owned()));
                proof {
                    assert(self.entries@[i as int].0@ == key@);
                    assert forall|k: Seq<char>, v: Seq<char>| k != key@ implies (map_has(self.entries@, k, v) <==> map_has(before, k, v)) by {
                        if map_has(self.entries@, k, v) {
                            let j = choose|j: int| 0 <= j < self.entries@.len() && (#[trigger] self.entries@[j]).0@ == k && self.entries@[j].1@ == v;
                            assert(before[j] == self.entries@[j]);
                        }
                        if map_has(before, k, v) {
                            let j = choose|j: int| 0 <= j < before.len() && (#[trigger] before[j]).0@ == k && before[j].1@ == v;
                            assert(before[j] == self.entries@[j]);
                        }
                    }
                }
            },
            None => {
                self.entries.push((key.to_owned(), value.to_owned()));
                proof {
                    let last = self.entries@.len() - 1;
                    assert(self.entries@[last].0@ == key@);
                    assert forall|k: Seq<char>, v: Seq<char>| k != key@ implies (map_has(self.entries@, k, v) <==> map_has(before, k, v)) by {
                        if map_has(self.entries@, k, v) {
                            let j = choose|j: int| 0 <= j < self.entries@.len() && (#[trigger] self.entries@[j]).0@ == k && self.entries@[j].1@ == v;
                            assert(before[j] == self.entries@[j]);
                        }
                        if map_has(before, k, v) {
                            let j = choose|j: int| 0 <= j < before.len() && (#[trigger] before[j]).0@ == k && before[j].1@ == v;
                            assert(before[j] == self.entries@[j]);
                        }
                    }
                }
            },
        }
    }
}

/// A document prepared for embedding.
#[derive(Debug)]
pub struct VectorDocument {
    /// Unique document id.
    pub id: String,
    /// Text to embed.
    pub text: String,
    /// Optional category for filtering.
    pub category: Option<String>,
    /// Key/value annotations.
    pub metadata: StringMap,
}

impl VectorDocument {
    /// A document with an id and a text, no category and no annotations.
    pub fn new(id: &str, text: &str) -> (r: VectorDocument)
        ensures
            r.id@ == id@,
            r.text@ == text@,
            r.category is None,
            r.metadata.wf(),
            r.metadata.entries().len() == 0,
    {
        VectorDocument { id: id.to_owned(), text: text.to_owned(), category: None, metadata: StringMap::new() }
    }

    /// The same document with the given category.
    pub fn with_category(self, category: &str) -> (r: VectorDocument)
        ensures
            r.id == self.id,
            r.text == self.text,
            r.metadata == self.metadata,
            r.category matches Some(c) && c@ == category@,
    {
        VectorDocument { category: Some(category.to_owned()), ..self }
    }

    /// The same document with annotation `key` set to `value`.
    pub fn with_metadata(self, key: &str, value: &str) -> (r: VectorDocument)
        requires
            self.metadata.wf(),
        ensures
            r.id == self.id,
            r.text == self.text,
            r.category == self.category,
            r.metadata.wf(),
            map_has(r.metadata.entries(), key@, value@),
            forall|k: Seq<char>, v: Seq<char>| k != key@ ==> (map_has(r.metadata.entries(), k, v) <==> map_has(
                self.metadata.entries(),
                k,
                v,
            )),
    {
        let mut doc = self;
        doc.metadata.insert(key, value);
        doc
    }
}

/// Metadata stored beside a vector index.
#[derive(Debug)]
pub struct IndexMetadata {
    /// Content hash at build time.
    pub content_hash: String,
    /// Number of documents indexed.
    pub document_count: usize,
    /// Embedding dimension.
    pub embedding_dimension: usize,
    /// Build timestamp.
    pub built_at: String,
    /// Embedding provider name.
    pub provider: String,
    /// Embedding model name.
    pub model: String,
}

/// Whether an index is fresh: its metadata could be read (`Some`) and
/// records exactly `current_hash`.
pub fn is_index_fresh(metadata: &Option<IndexMetadata>, current_hash: &str) -> (r: bool)
    ensures
        r == (metadata matches Some(m) && m.content_hash@ == current_hash@),
{
    match metadata {
        Some(m) => same_text(&m.content_hash, current_hash),
        None => false,
    }
}

/// A file that could not be indexed.
#[derive(Debug)]
pub struct BuildError {
    /// Path of the file.
    pub file: String,
    /// What went wrong.
    pub message: String,
}

/// Statistics of a vector index build.
#[derive(Debug)]
pub struct VectorIndexStats {
    /// Documents indexed.
    pub documents_indexed: usize,
    /// Files processed.
    pub files_processed: usize,
    /// Files skipped because of errors.
    pub files_skipped: usize,
    /// Embedding dimension.
    pub embedding_dimension: usize,
    /// Content hash.
    pub content_hash: String,
    /// Build duration in milliseconds.
    pub build_duration_ms: u64,
    /// Errors encountered.
    pub errors: Vec<BuildError>,
    /// Whether the result came from a cache.
    pub from_cache: bool,
}

/// An embedding provider for tests that derives vectors from the text.
#[derive(Debug)]
pub struct MockEmbeddingProvider {
    dimension: usize,
}

impl MockEmbeddingProvider {
    /// A provider of vectors of the given dimension.
    pub fn new(dimension: usize) -> (r: MockEmbeddingProvider)
        ensures
            r.spec_dimension() == dimension,
    {
        MockEmbeddingProvider { dimension }
    }

    /// The dimension of the vectors.
    pub closed spec fn spec_dimension(&self) -> usize {
        self.dimension
    }

    /// The dimension of the vectors.
    pub fn dimension(&self) -> (r: usize)
        ensures
            r == self.spec_dimension(),
    {
        self.dimension
    }

    /// The provider's name.
    pub fn name(&self) -> (r: &'static str)
        ensures
            r@ == "mock"@,
    {
        "mock"
    }
}

} // verus!
