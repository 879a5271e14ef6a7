//! Persistent interactive terminal sessions for an agent: the verified core.
//!
//! The modules hold the logic of the server: the scrollback buffer of a
//! session, the command policy, the session lifecycle, the session table and
//! the text the tools hand back.
pub mod channel;
pub mod conpty_bootstrap;
pub mod glob;
pub mod policy;
pub mod pty;
pub mod server;
pub mod text;
pub mod types;
