use detox_mac::config::Excludes;
use detox_mac::sys::fsx::{
    home_join, is_evicted, measure_all, occupied, remove, remove_entries, remove_measured, trash_dir_for, Counted,
    Disposal, Meta, Policy, RemovalPlan, Sizer,
};

#[test]
fn trash_of_a_volume_is_on_that_volume() {
    let external = "/Volumes/Backup/old/file.txt";
    assert!(trash_dir_for(external, "/Users/me", 501).starts_with("/Volumes/Backup/.Trashes"));
    assert_eq!(trash_dir_for(&home_join("/Users/me", "x"), "/Users/me", 501), home_join("/Users/me", ".Trash"));
}

#[test]
fn a_volume_trash_is_the_users_own() {
    assert_eq!(trash_dir_for("/Volumes/Backup/a", "/Users/me", 501), "/Volumes/Backup/.Trashes/501");
}

fn file(dev: u64, ino: u64, nlink: u64, blocks: u64) -> Meta {
    Meta::File { dataless: false, nlink, dev, ino, blocks }
}

#[test]
fn counts_a_hard_linked_file_once() {
    let mut sizer = Sizer::new();
    let mut counted = Counted::new();
    let a = sizer.size_of("/t/a.bin", file(1, 42, 2, 16), &mut counted, "/Users/me");
    let b = sizer.size_of("/t/b.bin", file(1, 42, 2, 16), &mut counted, "/Users/me");
    assert_eq!(a, (8192, false));
    assert_eq!(b, (0, false));
    // Another inode, or the same number on another device, is another file.
    assert_eq!(sizer.size_of("/t/c.bin", file(2, 42, 2, 16), &mut counted, "/Users/me").0, 8192);
    assert_eq!(sizer.size_of("/t/d.bin", file(1, 43, 1, 16), &mut counted, "/Users/me").0, 8192);
    assert_eq!(sizer.size_of("/t/e.bin", file(1, 43, 1, 16), &mut counted, "/Users/me").0, 8192);
}

#[test]
fn sparse_files_are_not_overstated() {
    // A one-gigabyte hole occupies no block: only blocks are counted.
    assert_eq!(occupied(0), 0);
    assert_eq!(occupied(8), 4096);
    assert_eq!(occupied(u64::MAX), u64::MAX);
}

#[test]
fn icloud_placeholders_are_recognised() {
    assert!(is_evicted("/t/.report.pdf.icloud", false));
    assert!(!is_evicted("/t/report.pdf", false));
    assert!(is_evicted("/t/report.pdf", true));
}

#[test]
fn evicted_files_are_not_counted_as_space() {
    let mut sizer = Sizer::new();
    let mut counted = Counted::new();
    let dir = sizer.size_of("/t", Meta::Dir { blocks: 1 }, &mut counted, "/Users/me");
    assert_eq!(dir, (512, true));
    let placeholder = sizer.size_of("/t/.big.mov.icloud", file(1, 7, 1, 8), &mut counted, "/Users/me");
    assert_eq!(placeholder, (0, false));
    assert_eq!(sizer.evicted, 1);
    assert_eq!(measure_all(&vec![dir.0, placeholder.0]), 512);
}

#[test]
fn unreadable_paths_are_noted_and_capped() {
    let mut sizer = Sizer::new();
    let mut counted = Counted::new();
    let r = sizer.size_of(
        "/Users/me/Library/Mail",
        Meta::Unreadable { denied: true, message: "Operation not permitted".to_string() },
        &mut counted,
        "/Users/me",
    );
    assert_eq!(r, (0, false));
    assert_eq!(sizer.denied, 1);
    assert_eq!(sizer.unreadable, vec!["~/Library/Mail: Operation not permitted".to_string()]);
    for i in 0..60 {
        sizer.note(&format!("/x/{i}"), false, "gone", "/Users/me");
    }
    assert_eq!(sizer.unreadable.len(), 50);
    let mut other = Sizer::new();
    other.note("/y", true, "denied", "/Users/me");
    sizer.absorb(other);
    assert_eq!(sizer.denied, 2);
    assert_eq!(sizer.unreadable.len(), 50);
}

#[test]
fn excluded_paths_survive() {
    let excludes = Excludes::new(vec!["keep.txt".to_string()]);
    let policy = Policy::new(false, Disposal::Purge, &excludes);
    let entries = vec!["/t/keep.txt".to_string(), "/t/drop.txt".to_string()];
    let plan = remove_entries(&entries, &policy, "/Users/me");
    assert_eq!(plan.excluded, 1);
    assert_eq!(plan.wanted, vec![1]);
    // Only the wanted entry is measured and disposed of.
    let result = remove_measured(&entries, &Vec::new(), &plan, &vec![4096], Vec::new(), vec![Ok(String::new())], policy.disposal);
    assert_eq!(result.excluded, 1);
    assert_eq!(result.removed, 1);
    assert_eq!(result.freed, 4096);
    let kept = remove("/t/keep.txt", &policy, 10, Ok(String::new()), "/Users/me").unwrap();
    assert_eq!(kept.excluded, 1);
    assert_eq!(kept.removed, 0);
}

#[test]
fn dry_run_keeps_files_but_reports_size() {
    let excludes = Excludes::new(Vec::new());
    let policy = Policy::new(true, Disposal::Purge, &excludes);
    let entries = vec!["/t/a.txt".to_string()];
    let plan = RemovalPlan::new(&entries, &vec![Some(4096)], &policy, "/Users/me");
    assert!(plan.unmeasured.is_empty());
    let result = remove_measured(&entries, &vec![Some(4096)], &plan, &Vec::new(), Vec::new(), vec![Ok(String::new())], policy.disposal);
    assert!(result.freed > 0);
    assert_eq!(result.removed, 1);
}

#[test]
fn trashing_moves_instead_of_deleting() {
    let excludes = Excludes::new(Vec::new());
    let policy = Policy::new(false, Disposal::Trash, &excludes);
    let entries = vec!["/t/gone.txt".to_string()];
    let plan = remove_entries(&entries, &policy, "/Users/me");
    let result = remove_measured(
        &entries,
        &Vec::new(),
        &plan,
        &vec![512],
        Vec::new(),
        vec![Ok("/Users/me/.Trash/gone.txt".to_string())],
        policy.disposal,
    );
    assert_eq!(result.freed, 0, "trashing frees nothing yet");
    assert!(result.trashed > 0);
    assert_eq!(result.moves.len(), 1);
    assert_eq!(result.moves[0].to, "/Users/me/.Trash/gone.txt");
    assert_eq!(result.moves[0].from, "/t/gone.txt");
}

#[test]
fn a_failed_removal_names_the_path() {
    let excludes = Excludes::new(Vec::new());
    let policy = Policy::new(false, Disposal::Purge, &excludes);
    let r = remove("/Users/me/x", &policy, 3, Err("Permission denied".to_string()), "/Users/me");
    assert_eq!(r.unwrap_err(), "~/x: Permission denied");
    let entries = vec!["/t/a".to_string(), "/t/b".to_string()];
    let plan = remove_entries(&entries, &policy, "/Users/me");
    let result = remove_measured(
        &entries,
        &vec![None, Some(7)],
        &plan,
        &vec![5],
        vec!["~/t/c: unreadable".to_string()],
        vec![Err("busy".to_string()), Ok(String::new())],
        policy.disposal,
    );
    assert_eq!(result.errors, vec!["~/t/c: unreadable".to_string(), "busy".to_string()]);
    assert_eq!(result.removed, 1);
    assert_eq!(result.freed, 7);
}

#[test]
fn a_tree_is_measured_in_whole_blocks() {
    // A directory holding a file and a subdirectory holding another file:
    // every figure is a multiple of the block, never the apparent length.
    let mut sizer = Sizer::new();
    let mut counted = Counted::new();
    let tree = [
        ("/t", Meta::Dir { blocks: 0 }),
        ("/t/a.txt", file(1, 10, 1, 8)),
        ("/t/sub", Meta::Dir { blocks: 0 }),
        ("/t/sub/b.txt", file(1, 11, 1, 8)),
    ];
    let mut total = 0u64;
    for (path, meta) in tree {
        total += sizer.size_of(path, meta, &mut counted, "/Users/me").0;
    }
    assert_eq!(total, 8192);
    assert_eq!(total % 512, 0);
    assert_eq!(measure_all(&vec![4096, 4096]), 8192);
}

#[test]
fn a_name_taken_in_the_trash_gets_a_number() {
    assert_eq!(detox_mac::sys::fsx::trash_name("/Users/me/.Trash", "a.txt", 1), "/Users/me/.Trash/a.txt");
    assert_eq!(detox_mac::sys::fsx::trash_name("/Users/me/.Trash", "a.txt", 2), "/Users/me/.Trash/a.txt 2");
}

#[test]
fn protected_paths_are_not_handed_out() {
    let excludes = Excludes::new(vec!["keep".to_string()]);
    let policy = Policy::new(false, Disposal::Trash, &excludes);
    let paths = vec!["/Users/me/keep/a".to_string(), "/Users/me/drop/b".to_string()];
    assert_eq!(detox_mac::sys::fsx::unprotected(&paths, &policy, "/Users/me"), vec![false, true]);
}

#[test]
fn older_than_leaves_recent_entries_alone() {
    let entries = vec!["/c/new".to_string(), "/c/old".to_string(), "/c/edge".to_string()];
    let ages = vec![2, 40, 30];
    assert_eq!(detox_mac::sys::fsx::old_enough(entries.clone(), &ages, Some(30)), vec!["/c/old", "/c/edge"]);
    assert_eq!(detox_mac::sys::fsx::old_enough(entries.clone(), &ages, None), entries);
}
