use detox_mac::config::Excludes;
use detox_mac::sys::fsx::{Disposal, Policy};
use detox_mac::task::orphans::remove;
use detox_mac::task::orphans::{removed_outcome, Removed};
use detox_mac::task::Status;
use detox_mac::task::orphans::{chosen, is_startup_agent};
use detox_mac::task::orphans::{
    bundle_id, canonical_id, haunts, is_apple, is_installed, kinds, leftovers, looks_like_bundle_id, orphan_id, Item,
    Leftover,
};

#[test]
fn only_reverse_dns_names_are_attributed() {
    assert!(looks_like_bundle_id("com.acme.app"));
    assert!(looks_like_bundle_id("org.mozilla.firefox.helper"));
    // A directory someone named by hand is never claimed.
    assert!(!looks_like_bundle_id("Sublime Text"));
    assert!(!looks_like_bundle_id("Google"));
    assert!(!looks_like_bundle_id("com.acme"));
}

#[test]
fn group_and_team_prefixes_are_stripped() {
    assert_eq!(canonical_id("ABCDE12345.com.acme.app"), "com.acme.app");
    assert_eq!(canonical_id("group.com.docker"), "com.docker");
    assert_eq!(canonical_id("ABCDE12345.group.com.acme"), "com.acme");
    assert_eq!(canonical_id("com.acme.app"), "com.acme.app");
    // A ten-letter first segment with no digit is a real identifier.
    assert_eq!(canonical_id("cloudflare.com.x"), "cloudflare.com.x");
}

#[test]
fn apple_is_never_an_orphan() {
    assert!(is_installed("com.apple.Safari.anything", &[]));
}

#[test]
fn helpers_belong_to_their_application() {
    let installed = vec!["com.acme.app".to_string()];
    assert!(is_installed("com.acme.app.helper", &installed));
    assert!(is_installed("com.acme.app", &installed));
    // A different vendor product is still an orphan.
    assert!(!is_installed("com.other.tool", &installed));
}

#[test]
fn an_application_bundle_covers_its_own_framework_ids() {
    // The bundle is `com.acme.app.framework`, the app `com.acme.app`.
    let installed = vec!["com.acme.app.framework".to_string()];
    assert!(is_installed("com.acme.app", &installed));
}

#[test]
fn every_spelling_of_a_shared_container_is_unwrapped() {
    assert_eq!(canonical_id("group.com.acme.app"), "com.acme.app");
    assert_eq!(canonical_id("groups.com.apple.podcasts"), "com.apple.podcasts");
    assert_eq!(
        canonical_id("systemgroup.com.apple.icloud.searchpartyd.sharedsettings"),
        "com.apple.icloud.searchpartyd.sharedsettings"
    );
    // A team identifier in front of any of them comes off first.
    assert_eq!(canonical_id("243LU875E5.groups.com.apple.podcasts"), "com.apple.podcasts");
}

#[test]
fn apple_group_containers_are_never_orphans() {
    for name in [
        "systemgroup.com.apple.icloud.searchpartyd.sharedsettings",
        "243LU875E5.groups.com.apple.podcasts",
        "group.is.workflow.my.app",
        "group.is.workflow.shortcuts",
    ] {
        assert!(
            is_installed(&canonical_id(name), &[]),
            "{name} belongs to macOS and must never be offered for deletion"
        );
    }
}

#[test]
fn shortcuts_keeps_the_namespace_it_was_bought_with() {
    assert!(is_apple("is.workflow.my.app"));
    assert!(is_apple("is.workflow.shortcuts"));
    assert!(is_apple("com.apple.Safari"));
    // The namespace, not a lookalike vendor sitting next to it.
    assert!(!is_apple("is.workflowy.app"));
    assert!(!is_apple("com.appleseed.tool"));
    assert!(!is_apple("net.pornel.ImageOptim"));
}

#[test]
fn a_name_that_is_only_a_prefix_is_not_a_child() {
    let installed = vec!["net.pornel.ImageOptim".to_string()];
    assert!(!is_installed("net.pornel.ImageOptimizeExtension", &installed));

    let installed = vec!["net.pornel.ImageOptim".to_string(), "net.pornel.ImageOptimizeExtension".to_string()];
    assert!(is_installed("net.pornel.ImageOptimizeExtension", &installed));
}

#[test]
fn leftovers_are_found_by_shape_and_owner() {
    let installed = vec!["com.acme.app".to_string()];
    let plist = Some("plist".to_string());
    // A preference file of an uninstalled application.
    assert_eq!(orphan_id("com.gone.tool.plist", false, &plist, &installed), Some("com.gone.tool".to_string()));
    // Of an installed one's helper: kept.
    assert_eq!(orphan_id("com.acme.app.helper.plist", false, &plist, &installed), None);
    // A file where folders are expected is not looked at.
    assert_eq!(orphan_id("com.gone.tool", false, &None, &installed), None);
    assert_eq!(orphan_id("com.gone.tool", true, &None, &installed), Some("com.gone.tool".to_string()));
    // A group container wrapped in a team identifier.
    assert_eq!(orphan_id("ABCDE12345.group.com.gone.tool", true, &None, &installed), Some("com.gone.tool".to_string()));
}

#[test]
fn leftovers_are_grouped_by_identifier_and_largest_first() {
    let item = |kind: &str, path: &str, bytes: u64| Item { kind: kind.to_string(), path: path.to_string(), bytes };
    let found = vec![
        ("com.b.x".to_string(), item("support", "/u/Library/Application Support/com.b.x", 5)),
        ("com.a.y".to_string(), item("cache", "/u/Library/Caches/com.a.y", 100)),
        ("com.b.x".to_string(), item("support", "/u/Library/Containers/com.b.x", 7)),
        ("com.b.x".to_string(), item("preferences", "/u/Library/Preferences/com.b.x.plist", 1)),
    ];
    let all = leftovers(&found);
    assert_eq!(all.len(), 2);
    assert_eq!(all[0].bundle_id, "com.a.y");
    assert_eq!(all[0].bytes, 100);
    assert_eq!(all[1].bundle_id, "com.b.x");
    assert_eq!(all[1].bytes, 13);
    assert_eq!(all[1].items.len(), 3);
    assert_eq!(kinds(&all[1]), "support, preferences");
    let total = detox_mac::task::orphans::total(&all);
    assert_eq!(total, 113);
    let empty = Leftover { bundle_id: "com.z.z".to_string(), bytes: 0, items: Vec::new() };
    assert_eq!(kinds(&empty), "");
}

#[test]
fn an_identifier_is_read_trimmed_or_not_at_all() {
    assert_eq!(bundle_id(Some("com.acme.app\n")), Some("com.acme.app".to_string()));
    assert_eq!(bundle_id(Some("  \n")), None);
    assert_eq!(bundle_id(None), None);
}

#[test]
fn the_haunts_are_the_users_library() {
    let h = haunts("/Users/me");
    assert_eq!(h.len(), 11);
    assert_eq!(h[0].1, "/Users/me/Library/Application Support");
    assert_eq!(h[7].0, "preferences");
    assert_eq!(h[7].2, Some("plist".to_string()));
}

#[test]
fn equal_leftovers_come_in_identifier_order() {
    let item = |path: &str| Item { kind: "cache".to_string(), path: path.to_string(), bytes: 10 };
    let found = vec![
        ("org.z.tool".to_string(), item("/u/Library/Caches/org.z.tool")),
        ("com.m.app".to_string(), item("/u/Library/Caches/com.m.app")),
        ("com.a.app".to_string(), item("/u/Library/Caches/com.a.app")),
    ];
    let ids: Vec<String> = leftovers(&found).into_iter().map(|l| l.bundle_id).collect();
    assert_eq!(ids, vec!["com.a.app", "com.m.app", "org.z.tool"]);
}

#[test]
fn only_the_leftovers_asked_for_are_cleaned() {
    let l = |id: &str| Leftover { bundle_id: id.to_string(), bytes: 1, items: Vec::new() };
    let all = vec![l("com.a.one"), l("com.b.two"), l("com.c.three")];
    assert_eq!(chosen(&all, &Vec::new()), vec![0, 1, 2]);
    assert_eq!(chosen(&all, &vec!["com.c.three".to_string(), "com.a.one".to_string()]), vec![0, 2]);
    assert!(chosen(&all, &vec!["com.none.here".to_string()]).is_empty());
}

#[test]
fn startup_agents_are_told_apart() {
    let item = |kind: &str| Item { kind: kind.to_string(), path: "/p".to_string(), bytes: 0 };
    assert!(is_startup_agent(&item("startup agent")));
    assert!(!is_startup_agent(&item("preferences")));
}

#[test]
fn a_removal_is_reported_with_its_space_or_its_errors() {
    let done = Removed {
        bundle_id: "com.gone.app".to_string(),
        freed: 0,
        trashed: 2048,
        items: 2,
        excluded: 0,
        errors: Vec::new(),
        moves: Vec::new(),
    };
    let o = removed_outcome(&done, false);
    assert_eq!(o.action, "com.gone.app — 2 Ko");
    assert_eq!(o.status, Status::Succeeded);
    assert_eq!(removed_outcome(&done, true).status, Status::Simulated);
    let failed = Removed { errors: vec!["a: denied".to_string(), "b: busy".to_string()], ..done };
    let o = removed_outcome(&failed, false);
    assert_eq!(o.action, "com.gone.app");
    assert_eq!(o.status, Status::Failed);
    assert_eq!(o.messages, vec!["a: denied", "b: busy"]);
}

#[test]
fn every_item_of_a_leftover_is_accounted_for_once() {
    let item = |path: &str, bytes: u64| Item { kind: "cache".to_string(), path: path.to_string(), bytes };
    let leftover = Leftover {
        bundle_id: "com.gone.app".to_string(),
        bytes: 7,
        items: vec![
            item("/Users/me/Library/Caches/com.gone.app", 4),
            item("/Users/me/Library/Logs/com.gone.app", 2),
            item("/Users/me/Library/Preferences/com.gone.app.plist", 1),
        ],
    };
    let excludes = Excludes::new(vec!["Logs".to_string()]);
    let purge = Policy::new(false, Disposal::Purge, &excludes);
    let disposed = vec![Ok(String::new()), Ok(String::new()), Err("busy".to_string())];
    let r = remove(&leftover, &purge, disposed, "/Users/me");
    assert_eq!((r.items, r.excluded, r.errors.len()), (1, 1, 1));
    assert_eq!((r.freed, r.trashed), (4, 0));
    assert!(r.moves.is_empty());
    assert_eq!(r.errors[0], "~/Library/Preferences/com.gone.app.plist: busy");

    let trash = Policy::new(false, Disposal::Trash, &excludes);
    let disposed = vec![Ok("/Users/me/.Trash/com.gone.app".to_string()), Ok(String::new()), Ok("/Users/me/.Trash/p".to_string())];
    let r = remove(&leftover, &trash, disposed, "/Users/me");
    assert_eq!((r.items, r.excluded, r.freed, r.trashed), (2, 1, 0, 5));
    assert_eq!(r.moves.len(), 2);
    assert_eq!(r.moves[0].to, "/Users/me/.Trash/com.gone.app");
}

#[test]
fn exactly_the_entries_of_an_application_are_found() {
    let home = "/Users/me";
    let mut listings: Vec<Vec<String>> = vec![Vec::new(); 11];
    listings[0] = vec![
        "/Users/me/Library/Application Support/com.acme.app".to_string(),
        "/Users/me/Library/Application Support/com.acme.application".to_string(),
        "/Users/me/Library/Application Support/com.acme.app.helper".to_string(),
    ];
    listings[7] = vec![
        "/Users/me/Library/Preferences/com.acme.app.plist".to_string(),
        "/Users/me/Library/Preferences/com.acme.app".to_string(),
    ];
    let found = detox_mac::task::orphans::support_entries("com.acme.app", "/Applications/Acme.app", &listings, home);
    assert_eq!(
        found,
        vec![
            ("support".to_string(), "/Users/me/Library/Application Support/com.acme.app".to_string()),
            ("support".to_string(), "/Users/me/Library/Application Support/com.acme.app.helper".to_string()),
            ("preferences".to_string(), "/Users/me/Library/Preferences/com.acme.app.plist".to_string()),
        ]
    );
}
