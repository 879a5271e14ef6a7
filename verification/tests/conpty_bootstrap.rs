use voxcaster::conpty_bootstrap::needs_write;

#[test]
fn staged_file_is_rewritten_only_when_it_differs() {
    assert!(needs_write(&None, b"abc"));
    assert!(!needs_write(&Some(b"abc".to_vec()), b"abc"));
    assert!(needs_write(&Some(b"abd".to_vec()), b"abc"));
    assert!(needs_write(&Some(b"ab".to_vec()), b"abc"));
    assert!(!needs_write(&Some(vec![]), b""));
}
