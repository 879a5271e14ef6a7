//! The data that the tools exchange: session status, session snapshots, spawn
//! options and the errors of the library.
use vstd::prelude::*;

use crate::text::{chars_of, join, join_strings, string_of, trim, trimmed};

verus! {

/// `std::io::Error`, which the `Io` error carries.
#[verifier::external_type_specification]
#[verifier::external_body]
pub struct ExIoError(std::io::Error);

/// The lifecycle status of a session: `Running`, then `Exited`, or `Killing`
/// and then `Killed` when a kill was asked for.
#[derive(Debug, Clone, Copy, PartialEq, Eq, Structural)]
pub enum Status {
    Running,
    Killing,
    Killed,
    Exited,
}

/// A snapshot of a session's metadata.
#[derive(Debug, Clone)]
pub struct SessionInfo {
    pub id: String,
    pub title: String,
    pub command: String,
    pub args: Vec<String>,
    pub workdir: String,
    pub status: Status,
    pub pid: Option<u32>,
    pub exit_code: Option<i32>,
    pub line_count: usize,
    pub timed_out: bool,
}

/// What a client asks for when it spawns a session.
#[derive(Debug, Clone)]
pub struct SpawnOptions {
    pub command: String,
    pub args: Vec<String>,
    pub workdir: Option<String>,
    pub env: Vec<(String, String)>,
    pub title: Option<String>,
    pub notify_on_exit: bool,
    pub timeout_seconds: Option<u64>,
}

/// The errors of the library.
#[derive(Debug)]
pub enum VoxError {
    NotFound(String),
    PolicyDenied(String),
    Spawn(String),
    Io(std::io::Error),
}

/// The text of each string.
pub open spec fn views(parts: Seq<String>) -> Seq<Seq<char>> {
    parts.map_values(|p: String| p@)
}

/// The command and its arguments as one line, as shown to people: the
/// command, a space, the arguments separated by spaces, then trimmed.
pub open spec fn display_command(command: Seq<char>, args: Seq<Seq<char>>) -> Seq<char> {
    trim(command + seq![' '] + join(args, seq![' ']))
}

/// The command line shown for `command` and `args`.
pub fn display_command_text(command: &str, args: &Vec<String>) -> (r: String)
    ensures
        r@ == display_command(command@, views(args@)),
{
    let mut line = String::from_str(command);
    line.append(" ");
    let joined = join_strings(args.as_slice(), " ");
    line.append(joined.as_str());
    proof {
        reveal_strlit(" ");
        assert(" "@ =~= seq![' ']);
    }
    let cs = chars_of(line.as_str());
    let t = trimmed(&cs);
    string_of(&t)
}

/// Renders an I/O error with its `Display` impl; the text is the operating
/// system's and is not stated.
#[verifier::external_body]
fn io_error_text(e: &std::io::Error) -> String {
    e.to_string()
}

impl VoxError {
    /// The kind of the error, as the JSON results name it.
    pub fn kind(&self) -> (k: String)
        ensures
            match self {
                VoxError::NotFound(_) => k@ == "not_found"@,
                VoxError::PolicyDenied(_) => k@ == "policy_denied"@,
                VoxError::Spawn(_) => k@ == "spawn_failed"@,
                VoxError::Io(_) => k@ == "io_error"@,
            },
    {
        match self {
            VoxError::NotFound(_) => String::from_str("not_found"),
            VoxError::PolicyDenied(_) => String::from_str("policy_denied"),
            VoxError::Spawn(_) => String::from_str("spawn_failed"),
            VoxError::Io(_) => String::from_str("io_error"),
        }
    }

    /// The message that the error is shown with.
    pub fn message(&self) -> (m: String)
        ensures
            match self {
                VoxError::NotFound(id) => m@ == "session not found: "@ + id@,
                VoxError::PolicyDenied(line) => m@ == "denied by policy: "@ + line@,
                VoxError::Spawn(detail) => m@ == "spawn failed: "@ + detail@,
                VoxError::Io(_) => exists|detail: Seq<char>| m@ == "io error: "@ + detail,
            },
    {
        match self {
            VoxError::NotFound(id) => String::from_str("session not found: ").concat(id.as_str()),
            VoxError::PolicyDenied(line) => String::from_str("denied by policy: ").concat(
                line.as_str(),
            ),
            VoxError::Spawn(detail) => String::from_str("spawn failed: ").concat(detail.as_str()),
            VoxError::Io(e) => {
                let detail = io_error_text(e);
                String::from_str("io error: ").concat(detail.as_str())
            },
        }
    }
}

} // verus!
