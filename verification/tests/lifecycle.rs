use voxcaster::pty::lifecycle::{session_info, Lifecycle};
use voxcaster::types::{SpawnOptions, Status};

fn opts(title: Option<&str>) -> SpawnOptions {
    SpawnOptions {
        command: "npm".into(),
        args: vec!["run".into(), "dev".into()],
        workdir: None,
        env: vec![],
        title: title.map(|t| t.to_string()),
        notify_on_exit: false,
        timeout_seconds: None,
    }
}

#[test]
fn exit_without_kill_is_exited() {
    let mut l = Lifecycle::new();
    assert_eq!(l.status(), Status::Running);
    l.exit(Some(0));
    assert_eq!(l.status(), Status::Exited);
    assert_eq!(l.exit_code(), Some(0));
}

#[test]
fn kill_then_exit_is_killed() {
    let mut l = Lifecycle::new();
    l.kill();
    assert_eq!(l.status(), Status::Killing);
    l.exit(None);
    assert_eq!(l.status(), Status::Killed);
    l.kill();
    assert_eq!(l.status(), Status::Killed);
}

#[test]
fn timeout_only_kills_running_sessions() {
    let mut l = Lifecycle::new();
    assert!(l.timeout());
    assert!(l.timed_out());
    assert_eq!(l.status(), Status::Killing);
    let mut done = Lifecycle::new();
    done.exit(Some(1));
    assert!(!done.timeout());
    assert!(!done.timed_out());
    assert_eq!(done.status(), Status::Exited);
}

#[test]
fn info_title_defaults_to_command_line() {
    let l = Lifecycle::new();
    let info = session_info("pty_1", &opts(None), "/w", Some(42), &l, 3);
    assert_eq!(info.title, "npm run dev");
    assert_eq!(info.id, "pty_1");
    assert_eq!(info.workdir, "/w");
    assert_eq!(info.pid, Some(42));
    assert_eq!(info.line_count, 3);
    assert_eq!(info.status, Status::Running);
    let named = session_info("pty_1", &opts(Some("dev server")), "/w", None, &l, 0);
    assert_eq!(named.title, "dev server");
}
