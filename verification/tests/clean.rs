use detox_mac::config::Excludes;
use detox_mac::sys::fsx::RemovalPlan;
use detox_mac::task::clean::{clean, clean_dirs, clean_ds_store, DirRun};
use detox_mac::task::Ctx;
use detox_mac::ui::{ColorChoice, Printer};
use detox_mac::sys::fsx::{Move, Removal};
use detox_mac::task::clean::{merged, run_removal, Cleaned};
use detox_mac::sys::fsx::Disposal;
use detox_mac::task::clean::{Risk, Target};

fn every_target() -> Vec<Target> {
    let mut targets = Target::DEFAULT.to_vec();
    targets.push(Target::Simulators);
    targets.push(Target::IosBackups);
    targets
}

#[test]
fn every_target_has_a_distinct_slug() {
    let mut slugs: Vec<&str> = every_target().iter().map(|t| t.slug()).collect();
    let count = slugs.len();
    slugs.sort_unstable();
    slugs.dedup();
    assert_eq!(slugs.len(), count);
}

#[test]
fn all_leaves_out_what_cannot_be_downloaded_again() {
    assert!(!Target::DEFAULT.contains(&Target::Simulators));
    assert!(!Target::DEFAULT.contains(&Target::IosBackups));
}

#[test]
fn nothing_holding_user_data_is_swept_by_all() {
    for target in Target::DEFAULT {
        if matches!(target, Target::Trash | Target::TrashAll) {
            continue;
        }
        assert_ne!(target.risk(), Risk::Data, "{} holds data", target.slug());
    }
}

#[test]
fn the_trash_is_never_moved_to_the_trash() {
    assert!(Target::Trash.always_purges());
    assert!(Target::TrashAll.always_purges());
    assert!(!Target::Cache.always_purges());
}

#[test]
fn slugs_name_their_targets() {
    for target in every_target() {
        assert_eq!(Target::from_slug(target.slug()), Some(target));
    }
    assert_eq!(Target::from_slug("vm"), Some(Target::Vm));
    assert_eq!(Target::from_slug("everything"), None);
    assert!(Target::Cache.is_irreversible(Disposal::Purge));
    assert!(!Target::Cache.is_irreversible(Disposal::Trash));
    assert!(Target::DsStore.is_irreversible(Disposal::Trash));
    assert_eq!(Risk::Rebuildable.label(), "rebuildable");
}

#[test]
fn volume_trashes_belong_to_the_current_user() {
    // Never the whole `.Trashes`, which holds every account's deletions.
    let volumes = vec!["/Volumes/Backup".to_string(), "/Volumes/Photos".to_string()];
    let uid = 501;
    for dir in detox_mac::task::clean::all_trashes("/Users/me", uid, &volumes).iter().skip(1) {
        assert!(dir.ends_with(&uid.to_string()));
    }
}

#[test]
fn a_run_adds_up_its_targets_for_the_journal() {
    let mut cache = Cleaned::skipped(Target::Cache, "x");
    cache.trashed = 300;
    cache.removed = 2;
    cache.moves = vec![Move { from: "/a".to_string(), to: "/t/a".to_string(), bytes: 300 }];
    let mut logs = Cleaned::skipped(Target::Logs, "y");
    logs.freed = 40;
    logs.trashed = u64::MAX;
    logs.removed = 1;
    logs.moves = vec![Move { from: "/b".to_string(), to: "/t/b".to_string(), bytes: 1 }];
    let r = run_removal(&vec![cache, logs]);
    assert_eq!(r.freed, 40);
    assert_eq!(r.trashed, u64::MAX);
    assert_eq!(r.removed, 3);
    assert_eq!(r.excluded, 0);
    assert!(r.errors.is_empty());
    let froms: Vec<&str> = r.moves.iter().map(|m| m.from.as_str()).collect();
    assert_eq!(froms, vec!["/a", "/b"]);
}

#[test]
fn removals_add_up_and_keep_their_order() {
    let mut a = Removal::default();
    a.freed = 10;
    a.removed = 1;
    a.errors = vec!["first".to_string()];
    let mut b = Removal::default();
    b.trashed = 5;
    b.removed = 2;
    b.excluded = 1;
    b.errors = vec!["second".to_string()];
    let m = merged(vec![a, b]);
    assert_eq!((m.freed, m.trashed, m.removed, m.excluded), (10, 5, 3, 1));
    assert_eq!(m.errors, vec!["first", "second"]);
    assert_eq!(merged(Vec::new()).removed, 0);
}

fn trash_ctx() -> Ctx {
    Ctx {
        dry_run: false,
        yes: true,
        json: false,
        purge: false,
        disposal: Disposal::Trash,
        printer: Printer::new(ColorChoice::Never, true, true, false, false),
    }
}

#[test]
fn emptying_the_trash_sends_nothing_to_the_trash() {
    let ctx = trash_ctx();
    let excludes = Excludes::new(Vec::new());
    let plan = clean(Target::Trash, &ctx, &excludes, "/Users/me");
    assert_eq!(plan.policy.disposal, Disposal::Purge);
    let entries = vec!["/Users/me/.Trash/old.zip".to_string()];
    let removal = RemovalPlan::new(&entries, &vec![Some(4096)], &plan.policy, "/Users/me");
    let run = DirRun {
        dir: "/Users/me/.Trash".to_string(),
        entries,
        known: vec![Some(4096)],
        plan: removal,
        measured: Vec::new(),
        unreadable: Vec::new(),
        outcomes: vec![Ok(String::new())],
    };
    let r = clean_dirs(Target::Trash, vec![run], &plan.policy, &ctx, "/Users/me");
    assert_eq!((r.freed, r.trashed, r.removed), (4096, 0, 1));
    assert!(r.moves.is_empty());
    assert_eq!(r.disposal, Disposal::Purge);

    let plan = clean(Target::DsStore, &ctx, &excludes, "/Users/me");
    let files = vec![("/Users/me/a/.DS_Store".to_string(), 4096u64), ("/Users/me/b/.DS_Store".to_string(), 4096)];
    let r = clean_ds_store(Target::DsStore, &files, vec![Ok(String::new()), Err("denied".to_string())], &plan.policy, &ctx, "/Users/me");
    assert_eq!((r.freed, r.trashed, r.removed), (4096, 0, 1));
    assert!(r.moves.is_empty());
}
