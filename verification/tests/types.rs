use voxcaster::types::{display_command_text, VoxError};

#[test]
fn error_messages() {
    assert_eq!(VoxError::NotFound("pty_1".into()).message(), "session not found: pty_1");
    assert_eq!(VoxError::PolicyDenied("rm -rf /".into()).message(), "denied by policy: rm -rf /");
    assert_eq!(VoxError::Spawn("no such file".into()).message(), "spawn failed: no such file");
    let io = VoxError::Io(std::io::Error::new(std::io::ErrorKind::Other, "broken pipe"));
    assert_eq!(io.message(), "io error: broken pipe");
}

#[test]
fn command_line_is_trimmed() {
    assert_eq!(display_command_text("ls", &vec![]), "ls");
    assert_eq!(display_command_text("npm", &vec!["run".into(), "dev".into()]), "npm run dev");
    assert_eq!(display_command_text(" x ", &vec!["\t".into()]), "x");
}

#[test]
fn error_kinds() {
    assert_eq!(VoxError::NotFound("x".into()).kind(), "not_found");
    assert_eq!(VoxError::PolicyDenied("x".into()).kind(), "policy_denied");
    assert_eq!(VoxError::Spawn("x".into()).kind(), "spawn_failed");
    let io = VoxError::Io(std::io::Error::new(std::io::ErrorKind::Other, "x"));
    assert_eq!(io.kind(), "io_error");
}
