//! The lifecycle of a session: `running → killing → killed`, or
//! `running → exited`, plus the timeout and the snapshot of its metadata.
use vstd::prelude::*;

use crate::types::{display_command, display_command_text, views, SessionInfo, SpawnOptions, Status};

verus! {

/// The abstract state of a session's lifecycle.
pub struct LifecycleView {
    pub status: Status,
    pub exit_code: Option<i32>,
    pub timed_out: bool,
}

/// The state after a kill is asked for: only a running session starts killing.
pub open spec fn after_kill(v: LifecycleView) -> LifecycleView {
    if v.status == Status::Running {
        LifecycleView { status: Status::Killing, ..v }
    } else {
        v
    }
}

/// The state after the process exits with `code`: a session that was being
/// killed is killed, any other has exited.
pub open spec fn after_exit(v: LifecycleView, code: Option<i32>) -> LifecycleView {
    LifecycleView {
        status: if v.status == Status::Killing {
            Status::Killed
        } else {
            Status::Exited
        },
        exit_code: code,
        ..v
    }
}

/// The state after the session's timeout elapses: a running session is marked
/// timed out and killed; any other is left alone.
pub open spec fn after_timeout(v: LifecycleView) -> LifecycleView {
    if v.status == Status::Running {
        LifecycleView { status: Status::Killing, timed_out: true, ..v }
    } else {
        v
    }
}

/// `s` is a status that no kill or timeout leaves.
pub open spec fn is_final(s: Status) -> bool {
    s == Status::Killed || s == Status::Exited
}

/// Lifecycle state of one session.
pub struct Lifecycle {
    status: Status,
    exit_code: Option<i32>,
    timed_out: bool,
}

impl View for Lifecycle {
    type V = LifecycleView;

    closed spec fn view(&self) -> LifecycleView {
        LifecycleView { status: self.status, exit_code: self.exit_code, timed_out: self.timed_out }
    }
}

impl Lifecycle {
    /// A session that has just started.
    pub fn new() -> (l: Self)
        ensures
            l@ == (LifecycleView { status: Status::Running, exit_code: None, timed_out: false }),
    {
        Lifecycle { status: Status::Running, exit_code: None, timed_out: false }
    }

    /// Records that a kill was asked for.
    pub fn kill(&mut self)
        ensures
            final(self)@ == after_kill(old(self)@),
    {
        if self.status == Status::Running {
            self.status = Status::Killing;
        }
    }

    /// Records that the process exited with `code`.
    pub fn exit(&mut self, code: Option<i32>)
        ensures
            final(self)@ == after_exit(old(self)@, code),
    {
        if self.status == Status::Killing {
            self.status = Status::Killed;
        } else {
            self.status = Status::Exited;
        }
        self.exit_code = code;
    }

    /// Records that the timeout elapsed; returns whether the session must be
    /// killed now.
    pub fn timeout(&mut self) -> (kill_now: bool)
        ensures
            final(self)@ == after_timeout(old(self)@),
            kill_now == (old(self)@.status == Status::Running),
    {
        if self.status == Status::Running {
            self.timed_out = true;
            self.status = Status::Killing;
            true
        } else {
            false
        }
    }

    /// Mark this session as having timed out.
    pub fn mark_timed_out(&mut self)
        ensures
            final(self)@ == (LifecycleView { timed_out: true, ..old(self)@ }),
    {
        self.timed_out = true;
    }

    /// Return the current lifecycle status of this session.
    pub fn status(&self) -> (s: Status)
        ensures
            s == self@.status,
    {
        self.status
    }

    /// Return the exit code, if the process has completed.
    pub fn exit_code(&self) -> (c: Option<i32>)
        ensures
            c == self@.exit_code,
    {
        self.exit_code
    }

    /// Whether the session's timeout killed it.
    pub fn timed_out(&self) -> (t: bool)
        ensures
            t == self@.timed_out,
    {
        self.timed_out
    }
}

/// The title a session is listed under: the given one, else its command line.
pub open spec fn session_title(opts: SpawnOptions) -> Seq<char> {
    match opts.title {
        Some(t) => t@,
        None => display_command(opts.command@, views(opts.args@)),
    }
}

/// Return a snapshot of a session's metadata.
pub fn session_info(
    id: &str,
    opts: &SpawnOptions,
    workdir: &str,
    pid: Option<u32>,
    life: &Lifecycle,
    line_count: usize,
) -> (info: SessionInfo)
    ensures
        info.id@ == id@,
        info.title@ == session_title(*opts),
        info.command@ == opts.command@,
        views(info.args@) == views(opts.args@),
        info.workdir@ == workdir@,
        info.status == life@.status,
        info.pid == pid,
        info.exit_code == life@.exit_code,
        info.line_count == line_count,
        info.timed_out == life@.timed_out,
{
    let title = match &opts.title {
        Some(t) => t.clone(),
        None => display_command_text(opts.command.as_str(), &opts.args),
    };
    let args = opts.args.clone();
    assert(views(args@) =~= views(opts.args@));
    SessionInfo {
        id: String::from_str(id),
        title,
        command: opts.command.clone(),
        args,
        workdir: String::from_str(workdir),
        status: life.status(),
        pid,
        exit_code: life.exit_code(),
        line_count,
        timed_out: life.timed_out(),
    }
}

// ---------------------------------------------------------------------------
// Laws
// ---------------------------------------------------------------------------

/// An exit always leaves a final status, and a finished session stays
/// finished whatever kills or timeouts follow.
pub proof fn law_final_status_is_final(v: LifecycleView, code: Option<i32>)
    ensures
        is_final(after_exit(v, code).status),
        is_final(v.status) ==> after_kill(v) == v && after_timeout(v) == v,
{
}

/// A kill asked for while running ends as `Killed`; an exit with no kill ends
/// as `Exited`; either way the exit code is the process's.
pub proof fn law_kill_then_exit(code: Option<i32>)
    ensures
        ({
            let start = LifecycleView { status: Status::Running, exit_code: None, timed_out: false };
            &&& after_exit(after_kill(start), code).status == Status::Killed
            &&& after_exit(start, code).status == Status::Exited
            &&& after_exit(after_kill(start), code).exit_code == code
        }),
{
}

/// The timeout kills only a running session, and only it is marked timed out.
pub proof fn law_timeout_only_when_running(v: LifecycleView)
    ensures
        after_timeout(v).timed_out == (v.timed_out || v.status == Status::Running),
        v.status == Status::Running ==> after_timeout(v).status == Status::Killing,
        v.status != Status::Running ==> after_timeout(v) == v,
{
}

/// A session that is being killed, for whatever reason (a kill asked for, or
/// its timeout), ends as `Killed` when its process exits, with the process's
/// exit code; in particular a running session whose timeout elapses and whose
/// process then exits is reported killed and timed out.
pub proof fn law_killing_ends_killed(v: LifecycleView, code: Option<i32>)
    ensures
        v.status == Status::Killing ==> after_exit(v, code).status == Status::Killed,
        v.status == Status::Killing ==> after_exit(v, code).exit_code == code,
        v.status == Status::Running ==> after_exit(after_timeout(v), code).status == Status::Killed
            && after_exit(after_timeout(v), code).timed_out,
        v.status == Status::Running ==> after_exit(after_kill(v), code).status == Status::Killed,
        v.status == Status::Running ==> after_exit(v, code).status == Status::Exited,
{
}

} // verus!
