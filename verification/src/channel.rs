//! The exit notice a session with `notify_on_exit` pushes when its process
//! exits: `Process `<cmdline>` exited (code <code>).`, with the session id and
//! the exit code as metadata.
use vstd::prelude::*;

use crate::text::{decimal_string, decimal_text};
use crate::types::{display_command, display_command_text, views, SessionInfo};

verus! {

/// The metadata of an exit notice.
pub struct ExitMeta {
    pub session_id: String,
    pub exit_code: String,
}

/// The params of the channel notification pushed on exit.
pub struct ExitParams {
    pub content: String,
    pub meta: ExitMeta,
}

/// The exit code as shown: its decimal text, or `unknown`.
pub open spec fn exit_code_text(code: Option<i32>) -> Seq<char> {
    match code {
        Some(c) => decimal_text(c as int),
        None => "unknown"@,
    }
}

/// The content line of an exit notice.
pub open spec fn exit_content(cmdline: Seq<char>, code: Option<i32>) -> Seq<char> {
    "Process `"@ + cmdline + "` exited (code "@ + exit_code_text(code) + ")."@
}

/// Build the params of the channel notification pushed on exit.
pub fn build_exit_params(session_id: &str, cmdline: &str, exit_code: Option<i32>) -> (p: ExitParams)
    ensures
        p.content@ == exit_content(cmdline@, exit_code),
        p.meta.session_id@ == session_id@,
        p.meta.exit_code@ == exit_code_text(exit_code),
{
    let code = match exit_code {
        Some(c) => decimal_string(c),
        None => String::from_str("unknown"),
    };
    let content = String::from_str("Process `").concat(cmdline).concat("` exited (code ").concat(
        code.as_str(),
    ).concat(").");
    ExitParams {
        content,
        meta: ExitMeta { session_id: String::from_str(session_id), exit_code: code },
    }
}

/// Build exit-push params from a finished session's info.
pub fn exit_params_for(info: &SessionInfo) -> (p: ExitParams)
    ensures
        p.content@ == exit_content(display_command(info.command@, views(info.args@)), info.exit_code),
        p.meta.session_id@ == info.id@,
        p.meta.exit_code@ == exit_code_text(info.exit_code),
{
    let cmdline = display_command_text(info.command.as_str(), &info.args);
    build_exit_params(info.id.as_str(), cmdline.as_str(), info.exit_code)
}

} // verus!
