//! A single-line text input: its text and the cursor (a character index).
//! Editing keys are interpreted by the `tui-input` crate.

use vstd::prelude::*;
use tui_input::backend::crossterm::EventHandler;
use crate::keymap::KeyPress;
use crate::text::chars_of;
use crate::components::terminal_keys::crossterm_key;

verus! {

/// The text and cursor that `tui-input` leaves after handling `key` on an
/// input holding `value` with the cursor at character `cursor`.
pub uninterp spec fn edited_input(value: Seq<char>, cursor: usize, key: KeyPress) -> (Seq<char>, usize);

/// Lets `tui-input` handle `key` on an input holding `value` with the cursor
/// at character `cursor` (`Input::new(value).with_cursor(cursor)` then
/// `handle_event`), and returns the resulting text and cursor. The contract
/// names the result; the editing rules of `tui-input` are not restated.
#[verifier::external_body]
fn tui_input_edit(value: &str, cursor: usize, key: KeyPress) -> (r: (String, usize))
    ensures
        (r.0@, r.1) == edited_input(value@, cursor, key),
{
    let mut input = tui_input::Input::new(value.to_string()).with_cursor(cursor);
    input.handle_event(&crossterm::event::Event::Key(crossterm_key(key)));
    (input.value().to_string(), input.cursor())
}

/// A text input: its value and the cursor position (a character index, at
/// most the number of characters).
#[derive(Debug)]
pub struct InputState {
    value: String,
    cursor: usize,
}

impl InputState {
    #[verifier::type_invariant]
    spec fn wf(self) -> bool {
        self.cursor <= self.value@.len()
    }

    /// The text of the input.
    pub closed spec fn spec_value(&self) -> Seq<char> {
        self.value@
    }

    /// The cursor position, in characters.
    pub closed spec fn spec_cursor(&self) -> usize {
        if self.cursor <= self.value@.len() {
            self.cursor
        } else {
            self.value@.len() as usize
        }
    }

    /// An input holding `value` with the cursor at its end.
    pub fn new(value: String) -> (r: InputState)
        ensures
            r.spec_value() == value@,
            r.spec_cursor() == value@.len(),
    {
        let n = chars_of(value.as_str()).len();
        InputState { value, cursor: n }
    }

    /// An empty input.
    pub fn empty() -> (r: InputState)
        ensures
            r.spec_value() == Seq::<char>::empty(),
            r.spec_cursor() == 0,
    {
        InputState { value: String::new(), cursor: 0 }
    }

    /// The same input with the cursor moved to `cursor`, or to the end when
    /// that is past it.
    pub fn with_cursor(self, cursor: usize) -> (r: InputState)
        ensures
            r.spec_value() == self.spec_value(),
            r.spec_cursor() == (if cursor <= self.spec_value().len() {
                cursor
            } else {
                self.spec_value().len() as usize
            }),
    {
        proof {
            use_type_invariant(&self);
        }
        let n = chars_of(self.value.as_str()).len();
        let c = if cursor <= n { cursor } else { n };
        InputState { value: self.value, cursor: c }
    }

    /// The text of the input.
    pub fn value(&self) -> (s: &str)
        ensures
            s@ == self.spec_value(),
    {
        self.value.as_str()
    }

    /// The cursor position, in characters.
    pub fn cursor(&self) -> (c: usize)
        ensures
            c == self.spec_cursor(),
            c <= self.spec_value().len(),
    {
        proof {
            use_type_invariant(self);
        }
        self.cursor
    }

    /// Apply an editing key (character insertion, deletion, cursor moves)
    /// as `tui-input` interprets it.
    pub fn handle_key(&mut self, key: KeyPress)
        ensures
            input_edited(*old(self), *final(self), key),
    {
        proof {
            use_type_invariant(&*self);
        }
        let (v, c) = tui_input_edit(self.value.as_str(), self.cursor, key);
        let n = chars_of(v.as_str()).len();
        if c <= n {
            *self = InputState { value: v, cursor: c };
        }
    }
}

/// `after` is `before` edited by `key` as `tui-input` does it (unchanged
/// should the crate report a cursor past the end of the text).
pub open spec fn input_edited(before: InputState, after: InputState, key: KeyPress) -> bool {
    let (v, c) = edited_input(before.spec_value(), before.spec_cursor(), key);
    if c <= v.len() {
        after.spec_value() == v && after.spec_cursor() == c
    } else {
        after.spec_value() == before.spec_value() && after.spec_cursor() == before.spec_cursor()
    }
}

/// The cursor never passes the end of the text.
pub proof fn lemma_cursor_in_range(s: InputState)
    ensures
        s.spec_cursor() <= s.spec_value().len(),
{
}

} // verus!
