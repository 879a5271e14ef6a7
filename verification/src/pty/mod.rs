//! Terminal sessions: scrollback, identifiers, lifecycle and the session table.
pub mod buffer;
pub mod id;
pub mod lifecycle;
pub mod registry;
