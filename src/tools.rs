//! Argument and listing records of the content tools.

use vstd::prelude::*;

verus! {

/// Arguments for listing items.
#[derive(Debug)]
pub struct ListItemsArgs {
    /// Optional category filter.
    pub category: Option<String>,
    /// Maximum number of results.
    pub limit: Option<usize>,
}

/// Arguments for fetching one item.
#[derive(Debug)]
pub struct GetItemArgs {
    /// Item id.
    pub id: String,
}

/// Arguments for fetching a chapter of a source.
#[derive(Debug)]
pub struct GetChapterArgs {
    /// Source id.
    pub source_id: String,
    /// Chapter id.
    pub chapter: String,
    /// Optional section within the chapter.
    pub section: Option<String>,
}

/// Arguments for listing the chapters of a source.
#[derive(Debug)]
pub struct ListChaptersArgs {
    /// Source id.
    pub source_id: String,
}

/// A content category.
#[derive(Debug)]
pub struct CategoryInfo {
    /// Category id.
    pub id: String,
    /// Display name.
    pub name: String,
    /// Number of items in it.
    pub count: usize,
    /// Optional description.
    pub description: Option<String>,
}

/// A chapter of a source.
#[derive(Debug)]
pub struct ChapterInfo {
    /// Chapter id.
    pub id: String,
    /// Chapter title.
    pub title: String,
    /// Chapter number, if any.
    pub number: Option<String>,
    /// Whether its content is available.
    pub available: bool,
}

} // verus!
