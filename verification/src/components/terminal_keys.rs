//! The crossterm form of the key presses this library models, for handing
//! keys to crates that read crossterm events.

use vstd::prelude::*;
use crate::keymap::{Key, Modifiers, PressKind, KeyPress};
use crossterm::event::KeyCode as C;
use crossterm::event::KeyModifiers as M;
use crossterm::event::KeyEventKind as K;

verus! {

#[verifier::external_type_specification]
#[verifier::external_body]
pub struct ExCrosstermKeyEvent(crossterm::event::KeyEvent);

#[verifier::external_type_specification]
#[verifier::external_body]
pub struct ExCrosstermKeyCode(crossterm::event::KeyCode);

#[verifier::external_type_specification]
#[verifier::external_body]
pub struct ExCrosstermKeyModifiers(crossterm::event::KeyModifiers);

#[verifier::external_type_specification]
#[verifier::external_body]
pub struct ExCrosstermKeyEventKind(crossterm::event::KeyEventKind);

/// The crossterm key code of a key (one variant for one variant; keys this
/// library does not name become `Null`).
#[verifier::external_body]
fn crossterm_code(c: Key) -> crossterm::event::KeyCode {
    match c {
        Key::Char(ch) => C::Char(ch), Key::F(n) => C::F(n), Key::Backspace => C::Backspace,
        Key::Enter => C::Enter, Key::Left => C::Left, Key::Right => C::Right, Key::Up => C::Up,
        Key::Down => C::Down, Key::Home => C::Home, Key::End => C::End, Key::PageUp => C::PageUp,
        Key::PageDown => C::PageDown, Key::Tab => C::Tab, Key::BackTab => C::BackTab,
        Key::Delete => C::Delete, Key::Insert => C::Insert, Key::Esc => C::Esc, Key::Other => C::Null,
    }
}

/// The crossterm modifier flags of a set of modifiers (flag for flag).
#[verifier::external_body]
fn crossterm_modifiers(m: Modifiers) -> crossterm::event::KeyModifiers {
    let mut mods = M::empty();
    mods.set(M::SHIFT, m.shift);
    mods.set(M::CONTROL, m.control);
    mods.set(M::ALT, m.alt);
    mods.set(M::SUPER, m.super_key);
    mods.set(M::HYPER, m.hyper);
    mods.set(M::META, m.meta);
    mods
}

/// The crossterm kind of a key event (variant for variant).
#[verifier::external_body]
fn crossterm_kind(k: PressKind) -> crossterm::event::KeyEventKind {
    match k {
        PressKind::Press => K::Press,
        PressKind::Repeat => K::Repeat,
        PressKind::Release => K::Release,
    }
}

/// The crossterm key event of a key press (`KeyEvent::new_with_kind`).
#[verifier::external_body]
pub(crate) fn crossterm_key(k: KeyPress) -> crossterm::event::KeyEvent {
    crossterm::event::KeyEvent::new_with_kind(
        crossterm_code(k.code),
        crossterm_modifiers(k.modifiers),
        crossterm_kind(k.kind),
    )
}

} // verus!
