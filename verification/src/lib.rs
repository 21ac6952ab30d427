//! Verified core of the oxo terminal log viewer: focus cycling, key
//! bindings, text helpers, persisted collections and the state machines
//! of the UI components.

pub mod action;
pub mod app_state;
pub mod components;
pub mod export;
pub mod keymap;
pub mod layout;
pub mod log_entry;
pub mod modes;
pub mod pattern;
pub mod plugin;
pub mod saved_queries;
pub mod session;
pub mod text;
pub mod theme;
pub mod views;
pub mod wasm_host;
