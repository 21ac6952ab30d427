//! The status bar's state: backend, connection, rate and buffer fill.

use vstd::prelude::*;
use crate::action::Action;
use crate::theme::{Color, Theme};

verus! {

/// The state of the connection to the backend.
#[derive(Debug, Clone, Copy, PartialEq, Eq, Structural)]
pub enum ConnectionState {
    /// Streaming.
    Connected,
    /// Not connected.
    Disconnected,
    /// Trying to connect again.
    Reconnecting,
}

/// The status bar's state.
pub struct StatusBar {
    /// The backend's name.
    pub backend_name: String,
    /// The connection state.
    pub connection_state: ConnectionState,
    /// Entries per tick.
    pub rate: u64,
    /// Entries in the buffer.
    pub buffer_size: usize,
    /// The buffer's capacity.
    pub max_buffer_size: usize,
    /// The color theme.
    pub theme: Theme,
}

/// The symbol, word and color that show a connection state.
pub open spec fn state_display(s: ConnectionState, t: Theme) -> (Seq<char>, Seq<char>, Color) {
    match s {
        ConnectionState::Connected => ("●"@, "connected"@, t.info),
        ConnectionState::Disconnected => ("○"@, "disconnected"@, t.error),
        ConnectionState::Reconnecting => ("◌"@, "reconnecting"@, t.warn),
    }
}

impl StatusBar {
    /// A bar for `backend_name`, disconnected, with an empty buffer of
    /// `max_buffer_size` entries.
    pub fn new(theme: Theme, backend_name: String, max_buffer_size: usize) -> (b: StatusBar)
        ensures
            b == (StatusBar {
                backend_name,
                connection_state: ConnectionState::Disconnected,
                rate: 0,
                buffer_size: 0,
                max_buffer_size,
                theme,
            }),
    {
        StatusBar {
            backend_name,
            connection_state: ConnectionState::Disconnected,
            rate: 0,
            buffer_size: 0,
            max_buffer_size,
            theme,
        }
    }

    /// Set the connection state.
    pub fn set_connection_state(&mut self, state: ConnectionState)
        ensures
            *final(self) == (StatusBar { connection_state: state, ..*old(self) }),
    {
        self.connection_state = state;
    }

    /// Set the rate.
    pub fn set_rate(&mut self, rate: u64)
        ensures
            *final(self) == (StatusBar { rate: rate, ..*old(self) }),
    {
        self.rate = rate;
    }

    /// Set the number of buffered entries.
    pub fn set_buffer_size(&mut self, size: usize)
        ensures
            *final(self) == (StatusBar { buffer_size: size, ..*old(self) }),
    {
        self.buffer_size = size;
    }

    /// The symbol, word and color of the connection state.
    pub fn state_display(&self) -> (r: (&'static str, &'static str, Color))
        ensures
            (r.0@, r.1@, r.2) == state_display(self.connection_state, self.theme),
    {
        match self.connection_state {
            ConnectionState::Connected => ("●", "connected", self.theme.info),
            ConnectionState::Disconnected => ("○", "disconnected", self.theme.error),
            ConnectionState::Reconnecting => ("◌", "reconnecting", self.theme.warn),
        }
    }

    /// The status bar reacts to no action.
    pub fn handle_action(&mut self, action: &Action) -> (r: Option<Action>)
        ensures
            *final(self) == *old(self),
            r is None,
    {
        None
    }
}

} // verus!
