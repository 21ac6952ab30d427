//! Saved views: a query together with its time range and optional source,
//! kept by name like a bookmark. Reading and writing the file that holds
//! them is the application's job; this module keeps the collection.

use vstd::prelude::*;
use crate::text::str_eq;

verus! {

/// A single saved view capturing a complete query context.
#[derive(Debug, Clone)]
pub struct SavedView {
    /// Human-readable name for this view.
    pub name: String,
    /// The query string (LogQL, KQL, etc.).
    pub query: String,
    /// Time range to apply, in minutes.
    pub time_range_minutes: u64,
    /// Optional source name to switch to when loading this view.
    pub source: Option<String>,
}

/// Position of the first view named `name`, if any.
pub open spec fn first_named(views: Seq<SavedView>, name: Seq<char>) -> Option<int> {
    if exists|i: int| 0 <= i < views.len() && (#[trigger] views[i]).name@ == name {
        let i = choose|i: int|
            0 <= i < views.len() && (#[trigger] views[i]).name@ == name && forall|j: int|
                0 <= j < i ==> (#[trigger] views[j]).name@ != name;
        Some(i)
    } else {
        None
    }
}

/// Collection of saved views.
#[derive(Debug)]
pub struct SavedViews {
    /// The list of saved views.
    pub views: Vec<SavedView>,
}

impl Default for SavedViews {
    fn default() -> (r: Self)
        ensures
            r.views@.len() == 0,
    {
        SavedViews { views: Vec::new() }
    }
}

/// Position of the first view of `views` named `name`.
fn position_of(views: &Vec<SavedView>, name: &str) -> (r: Option<usize>)
    ensures
        match r {
            Some(i) => i < views@.len() && views@[i as int].name@ == name@ && forall|j: int|
                0 <= j < i ==> (#[trigger] views@[j]).name@ != name@,
            None => forall|j: int| 0 <= j < views@.len() ==> (#[trigger] views@[j]).name@ != name@,
        },
{
    let mut i: usize = 0;
    while i < views.len()
        invariant
            i <= views.len(),
            forall|j: int| 0 <= j < i ==> (#[trigger] views@[j]).name@ != name@,
        decreases views.len() - i,
    {
        if str_eq(views[i].name.as_str(), name) {
            return Some(i);
        }
        i += 1;
    }
    None
}

/// The position found by a scan is the first named one.
proof fn lemma_first_named(views: Seq<SavedView>, name: Seq<char>, r: Option<usize>)
    requires
        match r {
            Some(i) => i < views.len() && views[i as int].name@ == name && forall|j: int|
                0 <= j < i ==> (#[trigger] views[j]).name@ != name,
            None => forall|j: int| 0 <= j < views.len() ==> (#[trigger] views[j]).name@ != name,
        },
    ensures
        match r {
            Some(i) => first_named(views, name) == Some(i as int),
            None => first_named(views, name) is None,
        },
{
    if let Some(i) = r {
        let w = i as int;
        assert(0 <= w < views.len() && views[w].name@ == name);
        let c = choose|c: int|
            0 <= c < views.len() && (#[trigger] views[c]).name@ == name && forall|j: int|
                0 <= j < c ==> (#[trigger] views[j]).name@ != name;
        if c < w {
            assert(views[c].name@ != name);
        }
        if c > w {
            assert(views[w].name@ != name);
        }
    }
}

impl SavedViews {
    /// Add a new saved view.
    pub fn add(&mut self, view: SavedView)
        ensures
            final(self).views@ == old(self).views@.push(view),
    {
        self.views.push(view);
    }

    /// Remove the first saved view named `name`; no-op when there is none.
    pub fn remove(&mut self, name: &str)
        ensures
            match first_named(old(self).views@, name@) {
                Some(i) => final(self).views@ == old(self).views@.remove(i),
                None => final(self).views@ == old(self).views@,
            },
    {
        let pos = position_of(&self.views, name);
        proof {
            lemma_first_named(self.views@, name@, pos);
        }
        if let Some(pos) = pos {
            self.views.remove(pos);
        }
    }

    /// Find the first saved view named `name`.
    pub fn get(&self, name: &str) -> (r: Option<&SavedView>)
        ensures
            match first_named(self.views@, name@) {
                Some(i) => r == Some(&self.views@[i]),
                None => r is None,
            },
    {
        let pos = position_of(&self.views, name);
        proof {
            lemma_first_named(self.views@, name@, pos);
        }
        match pos {
            Some(i) => Some(&self.views[i]),
            None => None,
        }
    }
}

/// Adding a view under a name that no saved view has makes it the view
/// found by that name, and removing that name again gives back the views
/// as they were.
pub proof fn law_add_then_find_and_remove(views: Seq<SavedView>, v: SavedView)
    requires
        first_named(views, v.name@) is None,
    ensures
        first_named(views.push(v), v.name@) == Some(views.len() as int),
        views.push(v).remove(views.len() as int) == views,
{
    let w = views.push(v);
    let n = views.len() as int;
    assert(w[n].name@ == v.name@);
    assert forall|j: int| 0 <= j < n implies (#[trigger] w[j]).name@ != v.name@ by {
        assert(w[j] == views[j]);
        if views[j].name@ == v.name@ {
            assert(exists|i: int| 0 <= i < views.len() && (#[trigger] views[i]).name@ == v.name@);
        }
    }
    let c = choose|c: int|
        0 <= c < w.len() && (#[trigger] w[c]).name@ == v.name@ && forall|j: int|
            0 <= j < c ==> (#[trigger] w[j]).name@ != v.name@;
    if c < n {
        assert(w[c].name@ != v.name@);
    }
    assert(w.remove(n) =~= views);
}

} // verus!
