//! The autocomplete dropdown shown below the query bar: a list of
//! suggestions filtered by what has been typed, with a highlighted choice.

use vstd::prelude::*;
use crate::text::{chars_of, contains_chars, has_infix, has_prefix, lowercase, starts_with_chars,
    string_views, to_lowercase};
use crate::theme::Theme;

verus! {

/// Most suggestions the dropdown shows at once.
pub const MAX_VISIBLE: usize = 8;

/// The items whose lowercase form starts with `fl`, in order.
pub open spec fn prefix_matches(items: Seq<Seq<char>>, fl: Seq<char>) -> Seq<Seq<char>>
    decreases items.len(),
{
    if items.len() == 0 {
        Seq::empty()
    } else {
        let rest = prefix_matches(items.drop_last(), fl);
        if has_prefix(lowercase(items.last()), fl) {
            rest.push(items.last())
        } else {
            rest
        }
    }
}

/// The items whose lowercase form contains `fl` but does not start with
/// it, in order.
pub open spec fn infix_matches(items: Seq<Seq<char>>, fl: Seq<char>) -> Seq<Seq<char>>
    decreases items.len(),
{
    if items.len() == 0 {
        Seq::empty()
    } else {
        let rest = infix_matches(items.drop_last(), fl);
        let l = lowercase(items.last());
        if !has_prefix(l, fl) && has_infix(l, fl) {
            rest.push(items.last())
        } else {
            rest
        }
    }
}

/// The suggestions shown for `filter`: all items when its lowercase form is
/// empty, otherwise (ignoring case) the items starting with it followed by
/// those containing it elsewhere.
pub open spec fn filtered_items(items: Seq<Seq<char>>, filter: Seq<char>) -> Seq<Seq<char>> {
    let fl = lowercase(filter);
    if fl.len() == 0 {
        items
    } else {
        prefix_matches(items, fl) + infix_matches(items, fl)
    }
}

/// The dropdown's state.
pub struct AutocompletePopup {
    /// All suggestions.
    pub items: Vec<String>,
    /// The suggestions matching the filter.
    pub filtered: Vec<String>,
    /// The filter typed so far.
    pub filter: String,
    /// Index of the highlighted suggestion in `filtered`.
    pub selected: usize,
    /// Whether the dropdown is shown.
    pub visible: bool,
    /// The color theme.
    pub theme: Theme,
}

impl AutocompletePopup {
    /// The filtered list matches the items and filter, and the highlight is
    /// on a suggestion (or at 0 when there is none).
    pub open spec fn wf(&self) -> bool {
        &&& string_views(self.filtered@) == filtered_items(string_views(self.items@), self.filter@)
        &&& (self.filtered@.len() == 0 ==> self.selected == 0)
        &&& (self.filtered@.len() > 0 ==> self.selected < self.filtered@.len())
    }

    /// An empty, hidden dropdown.
    pub fn new(theme: Theme) -> (p: AutocompletePopup)
        ensures
            p.wf(),
            p.items@.len() == 0,
            p.filter@.len() == 0,
            p.selected == 0,
            !p.visible,
            p.theme == theme,
    {
        let p = AutocompletePopup {
            items: Vec::new(),
            filtered: Vec::new(),
            filter: String::new(),
            selected: 0,
            visible: false,
            theme,
        };
        proof {
            assert(string_views(p.items@) =~= Seq::empty());
            assert(string_views(p.filtered@) =~= Seq::empty());
            lemma_filter_empty_items(p.filter@);
        }
        p
    }

    /// Replace the suggestions and refilter them.
    pub fn set_items(&mut self, items: Vec<String>)
        requires
            old(self).wf(),
        ensures
            final(self).wf(),
            final(self).items == items,
            final(self).filter == old(self).filter,
            final(self).visible == old(self).visible,
            final(self).theme == old(self).theme,
            final(self).selected == clamp_selection(old(self).selected, final(self).filtered@.len()),
    {
        self.items = items;
        self.rebuild_filtered();
    }

    /// Set the filter and refilter the suggestions.
    pub fn set_filter(&mut self, filter: &str)
        requires
            old(self).wf(),
        ensures
            final(self).wf(),
            final(self).filter@ == filter@,
            final(self).items == old(self).items,
            final(self).visible == old(self).visible,
            final(self).theme == old(self).theme,
            final(self).selected == clamp_selection(old(self).selected, final(self).filtered@.len()),
    {
        self.filter = filter.to_string();
        self.rebuild_filtered();
    }

    /// Show the dropdown.
    pub fn show(&mut self)
        ensures
            *final(self) == (AutocompletePopup { visible: true, ..*old(self) }),
    {
        self.visible = true;
    }

    /// Hide the dropdown and reset the highlight.
    pub fn close(&mut self)
        requires
            old(self).wf(),
        ensures
            final(self).wf(),
            *final(self) == (AutocompletePopup { visible: false, selected: 0, ..*old(self) }),
    {
        self.visible = false;
        self.selected = 0;
    }

    /// Whether the dropdown is shown.
    pub fn is_visible(&self) -> (b: bool)
        ensures
            b == self.visible,
    {
        self.visible
    }

    /// The dropdown with the next suggestion highlighted (wrapping).
    pub open spec fn spec_next(self) -> AutocompletePopup {
        if self.filtered@.len() == 0 {
            self
        } else {
            AutocompletePopup {
                selected: ((self.selected + 1) % (self.filtered@.len() as int)) as usize,
                ..self
            }
        }
    }

    /// The dropdown with the previous suggestion highlighted (wrapping).
    pub open spec fn spec_prev(self) -> AutocompletePopup {
        if self.filtered@.len() == 0 {
            self
        } else {
            AutocompletePopup {
                selected: if self.selected == 0 {
                    (self.filtered@.len() - 1) as usize
                } else {
                    (self.selected - 1) as usize
                },
                ..self
            }
        }
    }

    /// Highlight the next suggestion, wrapping to the first.
    pub fn next(&mut self)
        requires
            old(self).wf(),
        ensures
            final(self).wf(),
            *final(self) == old(self).spec_next(),
    {
        if self.filtered.len() > 0 {
            self.selected = (self.selected + 1) % self.filtered.len();
        }
    }

    /// Highlight the previous suggestion, wrapping to the last.
    pub fn prev(&mut self)
        requires
            old(self).wf(),
        ensures
            final(self).wf(),
            *final(self) == old(self).spec_prev(),
    {
        if self.filtered.len() > 0 {
            self.selected = if self.selected == 0 {
                self.filtered.len() - 1
            } else {
                self.selected - 1
            };
        }
    }

    /// The highlighted suggestion, if any.
    pub fn selected_item(&self) -> (r: Option<&str>)
        requires
            self.wf(),
        ensures
            match r {
                Some(s) => self.filtered@.len() > 0 && s@ == self.filtered@[self.selected as int]@,
                None => self.filtered@.len() == 0,
            },
    {
        if self.selected < self.filtered.len() {
            Some(self.filtered[self.selected].as_str())
        } else {
            None
        }
    }

    /// Recompute the filtered suggestions and keep the highlight in range.
    fn rebuild_filtered(&mut self)
        ensures
            final(self).wf(),
            final(self).items == old(self).items,
            final(self).filter == old(self).filter,
            final(self).visible == old(self).visible,
            final(self).theme == old(self).theme,
            final(self).selected == clamp_selection(old(self).selected, final(self).filtered@.len()),
    {
        let filtered = filter_items(&self.items, self.filter.as_str());
        let n = filtered.len();
        self.filtered = filtered;
        self.selected = if n == 0 {
            0
        } else if self.selected < n - 1 {
            self.selected
        } else {
            n - 1
        };
    }

    /// The index of the first suggestion shown when at most `rows` fit:
    /// the list scrolls just enough to keep the highlight in view.
    pub fn scroll_offset(&self, rows: usize) -> (o: usize)
        requires
            self.wf(),
        ensures
            o == (if self.selected >= rows { self.selected - rows + 1 } else { 0 }),
    {
        let _n = self.filtered.len();
        if self.selected >= rows {
            self.selected + 1 - rows
        } else {
            0
        }
    }
}

/// The highlight kept in range of `n` suggestions.
pub open spec fn clamp_selection(selected: usize, n: nat) -> usize {
    if n == 0 {
        0
    } else if selected < n - 1 {
        selected
    } else {
        (n - 1) as usize
    }
}

/// Filtering no items gives none, whatever the filter.
proof fn lemma_filter_empty_items(filter: Seq<char>)
    ensures
        filtered_items(Seq::empty(), filter) =~= Seq::<Seq<char>>::empty(),
{
    let fl = lowercase(filter);
    assert(prefix_matches(Seq::empty(), fl) =~= Seq::<Seq<char>>::empty());
    assert(infix_matches(Seq::empty(), fl) =~= Seq::<Seq<char>>::empty());
}

/// The suggestions of `items` matching `filter` (case-insensitive): those
/// starting with it, then those containing it elsewhere.
pub fn filter_items(items: &Vec<String>, filter: &str) -> (r: Vec<String>)
    ensures
        string_views(r@) == filtered_items(string_views(items@), filter@),
{
    let fl = chars_of(to_lowercase(filter).as_str());
    let ghost iv = string_views(items@);
    let mut prefixed: Vec<String> = Vec::new();
    let mut inner: Vec<String> = Vec::new();
    let mut i: usize = 0;
    while i < items.len()
        invariant
            i <= items.len(),
            iv == string_views(items@),
            fl@ == lowercase(filter@),
            string_views(prefixed@) == prefix_matches(iv.take(i as int), fl@),
            string_views(inner@) == infix_matches(iv.take(i as int), fl@),
        decreases items.len() - i,
    {
        let low = chars_of(to_lowercase(items[i].as_str()).as_str());
        proof {
            assert(iv.take(i + 1).drop_last() =~= iv.take(i as int));
            assert(iv.take(i + 1).last() == items@[i as int]@);
        }
        if starts_with_chars(&low, &fl) {
            prefixed.push(items[i].clone());
            assert(string_views(prefixed@) =~= prefix_matches(iv.take(i + 1), fl@));
        } else {
            assert(string_views(prefixed@) =~= prefix_matches(iv.take(i + 1), fl@));
            if contains_chars(&low, &fl) {
                inner.push(items[i].clone());
            }
        }
        assert(string_views(inner@) =~= infix_matches(iv.take(i + 1), fl@));
        i += 1;
    }
    assert(iv.take(items@.len() as int) =~= iv);
    if fl.len() == 0 {
        let mut all: Vec<String> = Vec::new();
        let mut j: usize = 0;
        while j < items.len()
            invariant
                j <= items.len(),
                iv == string_views(items@),
                all@.len() == j,
                forall|k: int| 0 <= k < j ==> #[trigger] all@[k]@ == iv[k],
            decreases items.len() - j,
        {
            let c = items[j].clone();
            assert(c@ == items@[j as int]@);
            assert(iv[j as int] == items@[j as int]@);
            all.push(c);
            j += 1;
        }
        assert(string_views(all@) =~= iv);
        return all;
    }
    let mut r = prefixed;
    let mut rest = inner;
    let ghost a = string_views(r@);
    let ghost b = string_views(rest@);
    r.append(&mut rest);
    assert(string_views(r@) =~= a + b);
    r
}

} // verus!
