use voxcaster::channel::{build_exit_params, exit_params_for};
use voxcaster::types::{SessionInfo, Status};

#[test]
fn builds_exit_notification_params() {
    let v = build_exit_params("pty_abcd", "npm run dev", Some(0));
    assert_eq!(v.meta.session_id, "pty_abcd");
    assert_eq!(v.meta.exit_code, "0");
    assert!(v.content.contains("npm run dev"));
}

#[test]
fn exit_notice_text() {
    let v = build_exit_params("pty_1", "make", Some(-2147483648));
    assert_eq!(v.content, "Process `make` exited (code -2147483648).");
    assert_eq!(v.meta.exit_code, "-2147483648");
    let u = build_exit_params("pty_2", "x", None);
    assert_eq!(u.content, "Process `x` exited (code unknown).");
    assert_eq!(u.meta.exit_code, "unknown");
}

#[test]
fn exit_notice_for_a_session() {
    let info = SessionInfo {
        id: "pty_9".into(),
        title: "t".into(),
        command: "ls".into(),
        args: vec![],
        workdir: "/".into(),
        status: Status::Exited,
        pid: Some(7),
        exit_code: Some(137),
        line_count: 0,
        timed_out: false,
    };
    let v = exit_params_for(&info);
    assert_eq!(v.content, "Process `ls` exited (code 137).");
    assert_eq!(v.meta.session_id, "pty_9");
}
