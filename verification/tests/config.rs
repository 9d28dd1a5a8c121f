use detox_mac::config::{matches_path, matches_segment, Config, Excludes};
use detox_mac::sys::fsx::Disposal;

const HOME: &str = "/Users/a";

#[test]
fn segment_wildcards() {
    assert!(matches_segment("*.log", "system.log"));
    assert!(matches_segment("node_modules", "node_modules"));
    assert!(!matches_segment("*.log", "system.txt"));
    assert!(matches_segment("com.*.helper", "com.acme.helper"));
    assert!(matches_segment("?oo", "foo"));
}

#[test]
fn double_star_crosses_directories() {
    assert!(matches_path("/Users/a/**/target", "/Users/a/dev/app/target"));
    assert!(matches_path("~/Documents/**", "~/Documents/archives/2019"));
    assert!(!matches_path("~/Documents/**", "~/Downloads/x"));
}

#[test]
fn bare_name_matches_any_component() {
    assert!(matches_path(".venv", "/Users/a/dev/app/.venv"));
    assert!(!matches_path(".venv", "/Users/a/dev/app/venv"));
}

#[test]
fn ancestors_protect_their_content() {
    let excludes = Excludes::new(vec!["/keep/**".to_string()]);
    assert!(excludes.blocks("/keep/a/b/c.txt", HOME));
    assert!(!excludes.blocks("/other/a", HOME));
}

#[test]
fn an_exclusion_ignores_case_like_the_disk_does() {
    assert!(matches_segment("*.dmg", "Installer.DMG"));
    assert!(matches_segment("*.DMG", "installer.dmg"));

    let excludes = Excludes::new(vec!["~/Downloads/keep/**".to_string()]);
    assert!(excludes.blocks("~/downloads/KEEP/invoice.pdf", HOME));
    assert!(!excludes.blocks("~/Downloads/other/invoice.pdf", HOME));
}

#[test]
fn a_protected_directory_covers_what_is_under_it() {
    let excludes = Excludes::new(vec!["/keep".to_string()]);
    assert!(excludes.blocks("/keep", HOME));
    assert!(excludes.blocks("/keep/deep/nested/file.txt", HOME));
    assert!(!excludes.blocks("/keeper/file.txt", HOME));
}

#[test]
fn no_patterns_protects_nothing() {
    let excludes = Excludes::new(Vec::new());
    assert!(!excludes.blocks("/anything/at/all", HOME));
}

#[test]
fn reads_the_documented_subset() {
    let config = Config::parse(
        r#"
            # a comment
            disposal = "purge"
            confirm_twice = false
            exclude = [
              "~/Documents/archives/**",   # keep these
              ".venv",
            ]
            "#,
    );
    assert_eq!(config.disposal, Disposal::Purge);
    assert!(!config.confirm_twice);
    assert_eq!(config.exclude.patterns().len(), 2);
    assert!(config.problems.is_empty());
}

#[test]
fn reports_what_it_cannot_read() {
    let config = Config::parse("disposal = \"shred\"\nnonsense = 3\n");
    assert_eq!(config.problems.len(), 2);
    assert_eq!(config.disposal, Disposal::Trash);
}

#[test]
fn home_patterns_are_expanded_and_paths_shortened() {
    let excludes = Excludes::new(vec!["~/Documents/archives/**".to_string()]);
    assert!(excludes.blocks("/Users/a/Documents/archives/2019/report.pdf", HOME));
    assert!(!excludes.blocks("/Users/b/Documents/archives/2019", HOME));
}

#[test]
fn extending_never_unprotects() {
    let mut excludes = Excludes::new(vec!["*.dmg".to_string()]);
    assert!(excludes.blocks("/Users/a/Downloads/x.dmg", HOME));
    excludes.extend(&["*.zip".to_string()]);
    assert!(excludes.blocks("/Users/a/Downloads/x.dmg", HOME));
    assert!(excludes.blocks("/Users/a/Downloads/y.zip", HOME));
    assert_eq!(excludes.patterns().len(), 2);
}

#[test]
fn problems_name_the_line_and_the_value() {
    let config = Config::parse("min_age_days = soon\nmin_age_days = 30\ndefault_targets = [\"cache\", 'logs']");
    assert_eq!(config.problems, vec!["line 1: min_age_days must be a number, not `soon`".to_string()]);
    assert_eq!(config.min_age_days, 30);
    assert_eq!(config.default_targets, vec!["cache".to_string(), "logs".to_string()]);
}

#[test]
fn a_star_in_the_text_is_still_matched_by_a_star() {
    assert!(matches_segment("*a", "*ba"));
    assert!(!matches_segment("a*", "ba"));
    assert!(matches_segment("**", ""));
}

#[test]
fn the_file_is_found_where_the_variables_point() {
    assert_eq!(Config::path(Some("/tmp/mine.toml"), Some("/x"), HOME), "/tmp/mine.toml");
    assert_eq!(Config::path(None, Some("/x"), HOME), "/x/detox-mac/config.toml");
    assert_eq!(Config::path(None, Some(""), HOME), "/Users/a/.config/detox-mac/config.toml");
    assert_eq!(Config::path(None, None, HOME), "/Users/a/.config/detox-mac/config.toml");
}

#[test]
fn a_line_without_an_equals_sign_is_reported() {
    let config = Config::parse("disposal 'purge'\n");
    assert_eq!(config.problems.len(), 1);
    assert_eq!(config.problems[0], "line 1: expected `key = value`, found `disposal 'purge'`");
    assert_eq!(config.disposal, Disposal::Trash);
    let fine = Config::parse("# only a comment\n\n   # another\n");
    assert!(fine.problems.is_empty());
}

#[test]
fn the_age_limit_comes_from_the_command_line_then_the_file() {
    let config = Config::parse("min_age_days = 30\n");
    assert_eq!(config.age_limit(Some(7)), Some(7));
    assert_eq!(config.age_limit(None), Some(30));
    assert_eq!(Config::parse("").age_limit(None), None);
}
