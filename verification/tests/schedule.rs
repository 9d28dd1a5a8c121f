use detox_mac::task::clean::Target;
use detox_mac::task::schedule::{plist, refuse, Cadence};

const LOG: &str = "/Users/me/.local/state/detox-mac/schedule.log";

#[test]
fn data_targets_cannot_be_scheduled() {
    // Nobody is there to answer the second question at 3am.
    assert!(refuse(&[Target::Cache]).is_none());
    assert!(refuse(&[Target::Cache, Target::Trash]).is_some());
    assert!(refuse(&[Target::IosBackups]).is_some());
}

#[test]
fn the_definition_names_the_binary_and_the_targets() {
    let body = plist("/usr/local/bin/detox", &[Target::Cache, Target::Logs], Cadence::Weekly, 3, LOG);
    assert!(body.contains("<string>/usr/local/bin/detox</string>"));
    assert!(body.contains("<string>cache</string>"));
    assert!(body.contains("<string>logs</string>"));
    assert!(body.contains("<string>--yes</string>"));
    assert!(body.contains("<key>Weekday</key>"));
}

#[test]
fn a_daily_schedule_has_no_weekday() {
    let body = plist("/bin/detox", &[Target::Cache], Cadence::Daily, 9, LOG);
    assert!(!body.contains("<key>Weekday</key>"));
    assert!(body.contains("<integer>9</integer>"));
}

#[test]
fn paths_with_xml_characters_do_not_break_the_file() {
    let body = plist("/Users/a&b/detox", &[Target::Cache], Cadence::Daily, 3, LOG);
    assert!(body.contains("/Users/a&amp;b/detox"));
    assert!(!body.contains("a&b"));
}

#[test]
fn a_schedule_cleans_cache_and_logs_by_default() {
    assert_eq!(detox_mac::task::schedule::default_targets(), vec![Target::Cache, Target::Logs]);
}
