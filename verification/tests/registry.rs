use voxcaster::pty::registry::Registry;
use voxcaster::types::VoxError;

#[test]
fn get_finds_what_insert_stored() {
    let mut r: Registry<u32> = Registry::new();
    r.insert("pty_a".into(), 1);
    r.insert("pty_b".into(), 2);
    assert_eq!(*r.get("pty_a").unwrap(), 1);
    assert_eq!(*r.get("pty_b").unwrap(), 2);
    r.insert("pty_a".into(), 3);
    assert_eq!(*r.get("pty_a").unwrap(), 3);
    assert_eq!(r.ids().len(), 2);
}

#[test]
fn missing_ids_are_not_found() {
    let mut r: Registry<u32> = Registry::new();
    r.insert("pty_a".into(), 1);
    match r.get("pty_z") {
        Err(VoxError::NotFound(id)) => assert_eq!(id, "pty_z"),
        _ => panic!("expected NotFound"),
    }
    assert_eq!(r.remove("pty_a"), Some(1));
    assert_eq!(r.remove("pty_a"), None);
    assert!(r.get("pty_a").is_err());
}

#[test]
fn take_all_empties_the_table() {
    let mut r: Registry<u32> = Registry::new();
    r.insert("x".into(), 1);
    r.insert("y".into(), 2);
    let mut all = r.take_all();
    all.sort();
    assert_eq!(all, vec![1, 2]);
    assert!(r.ids().is_empty());
}
