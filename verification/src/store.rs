//! The records of the note store, and what is decided about them outside the
//! database itself.

use crate::text::owned;
use vstd::prelude::*;

verus! {

/// The name of the collection that a new store starts with.
pub const DEFAULT_COLLECTION_NAME: &'static str = "Default Collection";

/// The description of the collection that a new store starts with.
pub const DEFAULT_COLLECTION_DESCRIPTION: &'static str = "Your default collection of documents";

/// A collection of documents.
#[derive(Debug, PartialEq, Eq)]
pub struct Collection {
    pub id: i64,
    pub name: String,
    pub description: Option<String>,
    pub created_at: String,
    pub updated_at: String,
}

/// A document: a markdown text with a name, in one collection.
#[derive(Debug, PartialEq, Eq)]
pub struct StoredDocument {
    pub id: i64,
    pub collection_id: i64,
    pub name: String,
    pub content: String,
    pub created_at: String,
    pub updated_at: String,
}

/// Name and description of the collection to create when a store is opened
/// that holds `count` collections: the default collection for an empty store,
/// none otherwise.
pub fn default_collection(count: i64) -> (r: Option<(String, String)>)
    ensures
        count == 0 ==> (r matches Some(pair) && pair.0@ == DEFAULT_COLLECTION_NAME@ && pair.1@
            == DEFAULT_COLLECTION_DESCRIPTION@),
        count != 0 ==> r is None,
{
    if count == 0 {
        Some((owned(DEFAULT_COLLECTION_NAME), owned(DEFAULT_COLLECTION_DESCRIPTION)))
    } else {
        None
    }
}

/// Whether a deletion that changed `changes` rows found the record it was to
/// delete.
pub fn existed(changes: usize) -> (r: bool)
    ensures
        r == (changes > 0),
{
    changes > 0
}

} // verus!
