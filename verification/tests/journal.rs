use detox_mac::sys::fsx::{Disposal, Move};
use detox_mac::task::journal::{undo, Attempt, Found, Run};

#[test]
fn a_purged_run_cannot_be_undone() {
    let run = Run {
        id: "20260918-230512".to_string(),
        epoch: 0,
        command: "clean cache".to_string(),
        disposal: Disposal::Purge,
        freed: 10,
        trashed: 0,
        removed: 1,
        moves: Vec::new(),
    };
    assert!(!run.reversible());
}

#[test]
fn undo_never_overwrites_what_came_back() {
    let dir = "/tmp/detox-mac-test-undo";
    let from = format!("{dir}/original.txt");
    let to = format!("{dir}/trashed.txt");
    let run = Run {
        id: "x".to_string(),
        epoch: 0,
        command: "clean cache".to_string(),
        disposal: Disposal::Trash,
        freed: 0,
        trashed: 10,
        removed: 1,
        moves: vec![Move { from, to, bytes: 10 }],
    };
    // The trashed entry is still there, and a new file took its place.
    let found = vec![Found { trashed_exists: true, original_exists: true, attempt: Attempt::NotTried }];
    let result = undo(&run, false, &found, "/Users/me");
    assert_eq!(result.occupied, 1);
    assert_eq!(result.restored, 0);
}

#[test]
fn an_emptied_trash_leaves_nothing_to_restore() {
    let run = Run {
        id: "y".to_string(),
        epoch: 0,
        command: "clean cache".to_string(),
        disposal: Disposal::Trash,
        freed: 0,
        trashed: 30,
        removed: 2,
        moves: vec![
            Move { from: "/Users/me/a".to_string(), to: "/Users/me/.Trash/a".to_string(), bytes: 10 },
            Move { from: "/Users/me/b".to_string(), to: "/Users/me/.Trash/b".to_string(), bytes: 20 },
        ],
    };
    let found = vec![
        Found { trashed_exists: false, original_exists: false, attempt: Attempt::NotTried },
        Found { trashed_exists: true, original_exists: false, attempt: Attempt::Moved },
    ];
    let result = undo(&run, false, &found, "/Users/me");
    assert_eq!(result.gone, 1);
    assert_eq!(result.restored, 1);
    assert_eq!(result.bytes, 20);
    assert!(run.reversible());
}

#[test]
fn a_failed_move_back_is_reported_by_path() {
    let run = Run {
        id: "z".to_string(),
        epoch: 0,
        command: "clean logs".to_string(),
        disposal: Disposal::Trash,
        freed: 0,
        trashed: 5,
        removed: 1,
        moves: vec![Move { from: "/Users/me/x".to_string(), to: "/Users/me/.Trash/x".to_string(), bytes: 5 }],
    };
    let found = vec![Found {
        trashed_exists: true,
        original_exists: false,
        attempt: Attempt::RenameFailed("denied".to_string()),
    }];
    let result = undo(&run, false, &found, "/Users/me");
    assert_eq!(result.restored, 0);
    assert_eq!(result.errors, vec!["~/x: denied".to_string()]);
}
