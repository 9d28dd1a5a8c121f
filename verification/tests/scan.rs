use detox_mac::task::scan::{
    application_last_use, days_since, days_since_traces, days_since_used, dormant, dormant_candidates, extension,
    is_installer, large_files, resolve, total, unused_for, Entry, Evidence,
};

fn dated(days: Option<u64>) -> Entry {
    Entry {
        name: "Demo".to_string(),
        path: "/Applications/Demo.app".to_string(),
        bytes: 0,
        unused_days: days,
        evidence: None,
    }
}

#[test]
fn an_application_nothing_remembers_is_dated_from_its_install() {
    assert_eq!(
        resolve(None, || None, || 12),
        (12, Evidence::Install),
        "with nothing to go on, the install age is all that can be said"
    );
}

#[test]
fn an_unknown_age_never_satisfies_a_dormancy_filter() {
    let mut apps = vec![dated(Some(400)), dated(Some(3)), dated(None)];
    apps.retain(|app| app.unused_days.is_some_and(|used| used >= 180));
    assert_eq!(apps.len(), 1);
    assert_eq!(apps[0].unused_days, Some(400));

    // The library's own filter keeps exactly the same.
    let apps = vec![dated(Some(400)), dated(Some(3)), dated(None)];
    let kept = unused_for(&apps, 180);
    assert_eq!(kept.len(), 1);
    assert_eq!(kept[0].unused_days, Some(400));
}

#[test]
fn the_strongest_signal_wins_and_the_rest_go_unread() {
    assert_eq!(
        resolve(Some(4), || panic!("traces read anyway"), || panic!("age read anyway")),
        (4, Evidence::Launch)
    );
    assert_eq!(resolve(None, || Some(90), || panic!("age read anyway")), (90, Evidence::Traces));
}

#[test]
fn spotlight_dates_become_day_counts() {
    let now = 1_700_000_000 + 3 * 86_400 + 5;
    // 2023-11-14 22:13:20 UTC is 1 700 000 000.
    assert_eq!(days_since_used(Some("2023-11-14 22:13:20 +0000\n"), now), Some(3));
    assert_eq!(days_since_used(Some("(null)"), now), None);
    assert_eq!(days_since_used(None, now), None);
    // An offset moves the instant.
    assert_eq!(days_since_used(Some("2023-11-15 00:13:20 +0200"), now), Some(3));
}

#[test]
fn application_use_falls_back_in_order() {
    let now = 10 * 86_400;
    assert_eq!(
        application_last_use(Some("1970-01-02 00:00:00 +0000"), now, || panic!("traces read"), || panic!("age read")),
        (9, Evidence::Launch)
    );
    assert_eq!(application_last_use(None, now, || vec![0, 5 * 86_400, 0], || panic!("age read")), (5, Evidence::Traces));
    assert_eq!(application_last_use(None, now, || vec![0, 0], || 30), (30, Evidence::Install));
}

#[test]
fn traces_date_from_the_latest_write() {
    assert_eq!(days_since_traces(&vec![86_400, 3 * 86_400], 10 * 86_400), Some(7));
    assert_eq!(days_since_traces(&vec![0, 0, 0], 10 * 86_400), None);
    assert_eq!(days_since(5, 10), 0);
}

#[test]
fn installers_are_known_by_extension() {
    assert!(is_installer("/Users/me/Downloads/Tool.DMG"));
    assert!(is_installer("/Users/me/Downloads/a.tar.gz"));
    assert!(!is_installer("/Users/me/Downloads/notes.txt"));
    assert!(!is_installer("/Users/me/Downloads/.zip"));
    assert_eq!(extension("/a/b.tar.gz"), Some("gz".to_string()));
    assert_eq!(extension("/a/.bashrc"), None);
}

#[test]
fn dormant_candidates_skip_hidden_entries() {
    let entries = vec![
        ("/d/.DS_Store".to_string(), false),
        ("/d/setup.pkg".to_string(), false),
        ("/d/notes.txt".to_string(), false),
        ("/d/project".to_string(), true),
    ];
    assert_eq!(dormant_candidates(&entries, true), vec!["/d/setup.pkg".to_string(), "/d/project".to_string()]);
    assert_eq!(dormant_candidates(&entries, false).len(), 3);
}

#[test]
fn dormant_items_are_dated_and_sorted() {
    let found = vec![
        ("/Users/me/Downloads/a.dmg".to_string(), Some(400), 500, 10),
        ("/Users/me/Downloads/b.zip".to_string(), None, 200, 30),
        ("/Users/me/Downloads/c.pkg".to_string(), Some(5), 900, 99),
    ];
    let r = dormant(&found, 100, "/Users/me");
    assert_eq!(r.len(), 2);
    assert_eq!(r[0].name, "~/Downloads/b.zip");
    assert_eq!(r[0].unused_days, Some(200));
    assert_eq!(r[1].unused_days, Some(400));
    assert_eq!(total(&r), 40);
}

#[test]
fn large_files_keep_what_is_big_enough() {
    let found = vec![
        ("/Users/me/small".to_string(), 10),
        ("/Users/me/big".to_string(), 1000),
        ("/Users/me/bigger".to_string(), 5000),
    ];
    let r = large_files(&found, 1000, "/Users/me");
    assert_eq!(r.len(), 2);
    assert_eq!(r[0].path, "/Users/me/bigger");
    assert_eq!(r[1].name, "~/big");
}

#[test]
fn an_entry_changed_today_is_no_day_old() {
    let now = 1_700_000_000u64;
    assert_eq!(days_since(now, now), 0);
    assert_eq!(days_since(now, now - 86_399), 0);
    assert_eq!(days_since(now, now - 86_400), 1);
    // A date in the future is no age, not a wrap-around.
    assert_eq!(days_since(now, now + 5), 0);
}

#[test]
fn each_large_file_is_listed_once() {
    let found = vec![
        ("/Users/me/a.iso".to_string(), 300u64),
        ("/Users/me/b.txt".to_string(), 1),
        ("/Users/me/c.mov".to_string(), 300),
        ("/Users/me/d.dmg".to_string(), 500),
    ];
    let r = large_files(&found, 100, "/Users/me");
    let paths: Vec<&str> = r.iter().map(|e| e.path.as_str()).collect();
    assert_eq!(paths, vec!["/Users/me/d.dmg", "/Users/me/a.iso", "/Users/me/c.mov"]);
}
