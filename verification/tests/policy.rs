use voxcaster::policy::{floor_globs, PolicyEngine, PolicyFile};
use voxcaster::types::{SpawnOptions, VoxError};

fn engine() -> PolicyEngine {
    PolicyEngine::from_lists(
        vec!["npm *".into(), "cargo *".into()],
        vec!["rm -rf /*".into(), "* | sh".into()],
        true, // allow_by_default
    )
}

fn denial(r: Result<(), VoxError>) -> String {
    match r {
        Err(VoxError::PolicyDenied(line)) => line,
        _ => panic!("expected a policy denial"),
    }
}

#[test]
fn deny_always_wins() {
    let e = engine();
    assert!(e.check("rm", &["-rf".into(), "/var".into()]).is_err());
}

#[test]
fn allowed_command_passes() {
    assert!(engine().check("npm", &["run".into(), "dev".into()]).is_ok());
}

#[test]
fn deny_by_default_blocks_unlisted() {
    let e = PolicyEngine::from_lists(vec!["git *".into()], vec![], false);
    assert!(e.check("curl", &["evil.sh".into()]).is_err());
    assert!(e.check("git", &["status".into()]).is_ok());
}

#[test]
fn denials_name_the_line() {
    let e = engine();
    assert_eq!(denial(e.check("rm", &["-rf".into(), "/var".into()])), "rm -rf /var");
    let strict = PolicyEngine::from_lists(vec!["git *".into()], vec![], false);
    assert_eq!(denial(strict.check("curl", &[])), "curl (not in allowlist)");
    assert_eq!(
        denial(strict.check("curl", &["a".into(), "b".into()])),
        "curl a b (not in allowlist)"
    );
}

#[test]
fn deny_beats_allow() {
    let e = PolicyEngine::from_lists(vec!["*".into()], vec!["curl *".into()], false);
    assert!(e.check("curl", &["x".into()]).is_err());
    assert!(e.check("ls", &[]).is_ok());
}

#[test]
fn bad_patterns_match_nothing() {
    let e = PolicyEngine::from_lists(vec!["[".into()], vec!["{".into()], false);
    assert!(e.check("[", &[]).is_err());
}

#[test]
fn floor_is_always_enforced() {
    let open = PolicyEngine::from_lists(vec!["*".into()], vec![], true);
    assert!(open.check("rm", &["-rf".into(), "/".into()]).is_err());
    assert!(open.check("rm", &["-fr".into(), "~".into()]).is_err());
    assert!(open.check("mkfs.ext4", &["/dev/sda1".into()]).is_err());
    assert!(open.check("dd", &["if=x".into(), "of=/dev/sda".into()]).is_err());
    assert!(open.check("sh", &["-c".into(), "curl x | sh".into()]).is_err());
    assert!(open.check("shutdown", &["-h".into(), "now".into()]).is_err());
    assert!(open.check("/sbin/reboot", &[]).is_err());
    assert!(open.check("bash", &["-c".into(), ":(){ :|:& };:".into()]).is_err());
    assert!(open.check("rm", &["-rf".into(), "/tmp/build".into()]).is_ok());
    assert!(open.check("echo", &["reboot".into()]).is_ok());
}

#[test]
fn default_policy_file_is_permissive() {
    let pf = PolicyFile::default();
    assert!(pf.allow.is_empty() && pf.deny.is_empty() && pf.allow_by_default);
    let e = PolicyEngine::from_policy(pf);
    assert!(e.check("anything", &["goes".into()]).is_ok());
}

#[test]
fn judge_decides_from_outcomes() {
    let e = PolicyEngine::from_lists(vec!["a".into()], vec!["b".into()], false);
    let floor = vec![None; floor_globs().len()];
    assert!(e.judge("x".into(), &floor, &vec![Some(false)], &vec![Some(true)]).is_ok());
    assert_eq!(
        denial(e.judge("x".into(), &floor, &vec![Some(true)], &vec![Some(true)])),
        "x"
    );
    assert_eq!(
        denial(e.judge("x".into(), &floor, &vec![None], &vec![Some(false)])),
        "x (not in allowlist)"
    );
    let mut hit_floor = floor.clone();
    hit_floor[0] = Some(true);
    assert_eq!(denial(e.judge("y".into(), &hit_floor, &vec![None], &vec![Some(true)])), "y");
}

#[test]
fn screened_spawns_pass_unchanged() {
    let e = PolicyEngine::from_lists(vec!["git *".into()], vec![], false);
    let opts = SpawnOptions {
        command: "git".into(),
        args: vec!["status".into()],
        workdir: Some("/w".into()),
        env: vec![("K".into(), "V".into())],
        title: None,
        notify_on_exit: true,
        timeout_seconds: Some(5),
    };
    let ok = e.screen_spawn(opts.clone()).unwrap();
    assert_eq!(ok.command, "git");
    assert_eq!(ok.args, vec!["status"]);
    assert_eq!(ok.timeout_seconds, Some(5));
    let bad = SpawnOptions { command: "curl".into(), ..opts };
    match e.screen_spawn(bad) {
        Err(VoxError::PolicyDenied(line)) => assert_eq!(line, "curl status (not in allowlist)"),
        _ => panic!("expected a denial"),
    }
}

#[test]
fn policy_line_joins_command_and_args() {
    assert_eq!(PolicyEngine::line_of("ls", &[]), "ls");
    assert_eq!(PolicyEngine::line_of("rm", &["-rf".into(), "/var".into()]), "rm -rf /var");
}

#[test]
fn evaluation_records_the_tests_of_the_full_line() {
    let e = PolicyEngine::from_lists(vec!["git *".into()], vec!["rm *".into()], false);
    let ev = e.evaluate("rm", &["-rf".into(), "/var".into()]);
    assert_eq!(ev.line, "rm -rf /var");
    assert_eq!(ev.floor.len(), floor_globs().len());
    assert_eq!(ev.deny.len(), 1);
    assert_eq!(ev.deny[0].matched(), Some(true));
    assert_eq!(ev.allow[0].matched(), Some(false));
    assert!(ev.verdict.is_err());
}

#[test]
fn floor_denies_under_any_policy() {
    let lenient = PolicyEngine::from_lists(vec!["*".into()], vec![], true);
    for (cmd, args) in [("rm", vec!["-rf", "/"]), ("reboot", vec![]), ("diskpart", vec![])] {
        let args: Vec<String> = args.into_iter().map(String::from).collect();
        let line = PolicyEngine::line_of(cmd, &args);
        assert_eq!(denial(lenient.check(cmd, &args)), line);
        let ev = lenient.evaluate(cmd, &args);
        assert!(ev.floor.iter().any(|t| t.matched() == Some(true)));
    }
}
