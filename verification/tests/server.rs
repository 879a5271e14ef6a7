use voxcaster::server::{filter_lines, human, is_json, join_lines, read_text, JsonValue};

fn s(t: &str) -> String {
    t.to_string()
}

#[test]
fn glob_filter_keeps_matching_lines() {
    let lines = vec!["error: boom".to_string(), "info: ok".to_string()];
    let kept = filter_lines(lines, Some("error:*"));
    assert_eq!(kept, vec!["error: boom"]);
}

#[test]
fn bad_glob_matches_nothing() {
    let lines = vec!["a".to_string()];
    assert!(filter_lines(lines, Some("[")).is_empty());
}

#[test]
fn no_pattern_keeps_everything() {
    let lines = vec![s("a"), s("b/c")];
    assert_eq!(filter_lines(lines.clone(), None), lines);
    assert_eq!(filter_lines(lines, Some("*c")), vec!["b/c"]);
}

#[test]
fn human_renders_object_as_keyvalue() {
    let v = JsonValue::Object(
        vec![
            (s("id"), JsonValue::Str(s("pty_x"))),
            (s("status"), JsonValue::Str(s("running"))),
        ],
        s("{\"id\":\"pty_x\",\"status\":\"running\"}"),
    );
    let out = human(&v);
    assert!(out.contains("id: pty_x"), "got: {out}");
    assert!(out.contains("status: running"), "got: {out}");
}

#[test]
fn human_renders_string_without_quotes() {
    let out = human(&JsonValue::Str(s("hello")));
    assert_eq!(out, "hello");
}

#[test]
fn human_renders_array_as_lines() {
    let a = JsonValue::Object(
        vec![
            (s("id"), JsonValue::Str(s("a"))),
            (s("status"), JsonValue::Str(s("running"))),
        ],
        s("{\"id\":\"a\",\"status\":\"running\"}"),
    );
    let b = JsonValue::Object(
        vec![
            (s("id"), JsonValue::Str(s("b"))),
            (s("status"), JsonValue::Str(s("dead"))),
        ],
        s("{\"id\":\"b\",\"status\":\"dead\"}"),
    );
    let out = human(&JsonValue::Array(vec![a, b], s("[...]")));
    assert!(out.contains("id: a"), "got: {out}");
    assert!(out.contains("id: b"), "got: {out}");
}

#[test]
fn human_shows_nested_values_as_json() {
    let v = JsonValue::Object(
        vec![
            (s("n"), JsonValue::Scalar(s("3"))),
            (s("args"), JsonValue::Array(vec![JsonValue::Str(s("x"))], s("[\"x\"]"))),
            (s("pid"), JsonValue::Scalar(s("null"))),
        ],
        s("{}"),
    );
    assert_eq!(human(&v), "n: 3\nargs: [\"x\"]\npid: null");
    assert_eq!(human(&JsonValue::Scalar(s("true"))), "true");
    assert_eq!(human(&JsonValue::Array(vec![], s("[]"))), "");
}

#[test]
fn format_switch() {
    assert!(is_json(&Some(s("json"))));
    assert!(!is_json(&Some(s("text"))));
    assert!(!is_json(&Some(s("JSON"))));
    assert!(!is_json(&None));
}

#[test]
fn read_lines_are_joined_by_newlines() {
    assert_eq!(join_lines(&vec![s("a"), s(""), s("b")]), "a\n\nb");
    assert_eq!(join_lines(&vec![]), "");
}

#[test]
fn read_text_filters_then_joins() {
    let lines = vec![s("error: a"), s("ok"), s("error: b")];
    assert_eq!(read_text(lines.clone(), Some("error*")), "error: a\nerror: b");
    assert_eq!(read_text(lines, None), "error: a\nok\nerror: b");
}

#[test]
fn keep_matching_follows_outcomes() {
    let lines = vec![s("a"), s("b"), s("c")];
    let kept = voxcaster::server::keep_matching(lines, &vec![Some(true), None, Some(true)]);
    assert_eq!(kept, vec!["a", "c"]);
}
