//! Saved queries: named query strings the user keeps across runs. Reading
//! and writing the file that holds them is the application's job; this
//! module keeps the collection.

use vstd::prelude::*;

verus! {

/// A single saved query with a human-readable name.
#[derive(Debug, Clone)]
pub struct SavedQuery {
    /// Display name for the query.
    pub name: String,
    /// The query string (LogQL, KQL, etc.).
    pub query: String,
}

/// Collection of saved queries.
#[derive(Debug)]
pub struct SavedQueries {
    /// The list of saved queries.
    pub queries: Vec<SavedQuery>,
}

impl Default for SavedQueries {
    fn default() -> (r: Self)
        ensures
            r.queries@.len() == 0,
    {
        SavedQueries { queries: Vec::new() }
    }
}

impl SavedQueries {
    /// Add a new saved query (duplicate names are allowed).
    pub fn add(&mut self, name: String, query: String)
        ensures
            final(self).queries@ == old(self).queries@.push(SavedQuery { name, query }),
    {
        self.queries.push(SavedQuery { name, query });
    }

    /// Remove a saved query by index (no-op if out of bounds).
    pub fn remove(&mut self, index: usize)
        ensures
            index < old(self).queries@.len() ==> final(self).queries@ == old(self).queries@.remove(
                index as int,
            ),
            index >= old(self).queries@.len() ==> final(self).queries@ == old(self).queries@,
    {
        if index < self.queries.len() {
            self.queries.remove(index);
        }
    }
}

/// Removing the query just added (the last one) gives back the queries as
/// they were.
pub proof fn law_add_then_remove_last(queries: Seq<SavedQuery>, q: SavedQuery)
    ensures
        queries.push(q).remove(queries.len() as int) == queries,
{
    assert(queries.push(q).remove(queries.len() as int) =~= queries);
}

} // verus!
