use detox_mac::task::sizes::{is_stale, Sizes, FRESH_FOR};

#[test]
fn a_modified_entry_is_measured_again() {
    let sizes = Sizes::remember(1_000, &vec![("/tmp/a.txt".to_string(), 4096, 50)]);
    assert_eq!(sizes.get("/tmp/a.txt", 50), Some(4096));
    // Touched since: the remembered figure no longer describes this file.
    assert_eq!(sizes.get("/tmp/a.txt", 51), None);
}

#[test]
fn an_unknown_entry_is_never_guessed() {
    let sizes = Sizes::default();
    assert_eq!(sizes.get("/nowhere", 0), None);
    assert!(sizes.is_empty());
}

#[test]
fn a_stale_scan_is_dropped_whole() {
    let now = 1_800_000_000;
    let sizes = Sizes { epoch: now - FRESH_FOR - 1, entries: Vec::new() };
    assert!(is_stale(sizes.epoch, now));
    assert!(!is_stale(now - FRESH_FOR, now));
}
