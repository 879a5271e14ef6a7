use voxcaster::pty::id::{generate_id, session_id_from};

#[test]
fn ids_are_prefixed_and_unique() {
    let a = generate_id();
    let b = generate_id();
    assert!(a.starts_with("pty_"));
    assert_eq!(a.len(), 4 + 16); // "pty_" + 16 hex chars
    assert_ne!(a, b);
}

#[test]
fn id_is_time_xor_spread_salt_in_hex() {
    assert_eq!(session_id_from(0, 0), "pty_0000000000000000");
    assert_eq!(session_id_from(0xabc, 0), "pty_0000000000000abc");
    assert_eq!(session_id_from(0, 1), "pty_9e3779b97f4a7c15");
    assert_eq!(session_id_from(0x9e3779b97f4a7c15, 1), "pty_0000000000000000");
    assert_eq!(session_id_from(u64::MAX, 0), "pty_ffffffffffffffff");
}

#[test]
fn one_source_hands_out_distinct_ids() {
    let mut source = voxcaster::pty::id::IdSource::new();
    let ids: Vec<String> = (0..100).map(|_| source.next_id()).collect();
    for (i, a) in ids.iter().enumerate() {
        assert!(a.starts_with("pty_") && a.len() == 20);
        for b in &ids[i + 1..] {
            assert_ne!(a, b);
        }
    }
}
