use pacrid::journal::{newest_first, latest_entry_id, quarantine_dir, sanitize_path_for_quarantine, JournalEntry, JournalTime};

fn entry(id: &str, secs: i64, nanos: u32) -> JournalEntry {
    JournalEntry {
        id: id.to_owned(),
        timestamp: JournalTime { secs, nanos },
        trigger: "test".to_owned(),
        packages: vec!["steam".to_owned()],
        actions: vec![],
    }
}

#[test]
fn new_entry_is_named_by_its_time() {
    let mut e = JournalEntry::new("test", vec!["steam".to_owned()]);
    assert_eq!(e.id.len(), 20);
    assert!(e.id.ends_with('Z'));
    assert_eq!(&e.id[4..5], "-");
    assert_eq!(&e.id[10..11], "T");
    e.add_action("/home/u/.steam".to_owned(), "trash://".to_owned(), 1234);
    assert_eq!(e.actions.len(), 1);
    assert_eq!(e.actions[0].size, 1234);
}

#[test]
fn latest_is_newest_first_earliest_on_ties() {
    assert_eq!(latest_entry_id(&[]), None);
    let v = vec![entry("a", 10, 0), entry("b", 20, 5), entry("c", 20, 5), entry("d", 20, 4)];
    assert_eq!(latest_entry_id(&v), Some("b".to_owned()));
}

#[test]
fn quarantine_paths() {
    assert_eq!(quarantine_dir(), "/var/lib/pacrid/quarantine");
    assert_eq!(sanitize_path_for_quarantine("//home/u/x"), "home/u/x");
    assert_eq!(sanitize_path_for_quarantine("rel/x"), "rel/x");
}

#[test]
fn listing_is_newest_first_and_stable() {
    let v = vec![entry("a", 10, 0), entry("b", 20, 5), entry("c", 20, 5), entry("d", 20, 4)];
    let ids: Vec<String> = newest_first(v).into_iter().map(|e| e.id).collect();
    assert_eq!(ids, vec!["b".to_owned(), "c".to_owned(), "d".to_owned(), "a".to_owned()]);
}
