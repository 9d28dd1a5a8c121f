use detox_mac::cli::{listed, resolve, shown, Options, Selection, SysCommand, TargetArg};
use detox_mac::sys::fsx::Disposal;
use detox_mac::task::agents::{Agent, Scope};
use detox_mac::ui::ColorChoice;
use detox_mac::task::clean::Target;

#[test]
fn all_expands_to_every_default_target() {
    assert_eq!(TargetArg::expand(&[TargetArg::All]), Target::DEFAULT.to_vec());
}

#[test]
fn expansion_keeps_order_and_drops_duplicates() {
    let targets = TargetArg::expand(&[TargetArg::Logs, TargetArg::All, TargetArg::Simulators]);
    assert_eq!(targets[0], Target::Logs);
    assert_eq!(targets.last(), Some(&Target::Simulators));
    assert_eq!(targets.iter().filter(|t| **t == Target::Logs).count(), 1);
}

#[test]
fn a_target_named_twice_is_cleaned_once() {
    let targets = TargetArg::expand(&[TargetArg::Vm, TargetArg::Cache, TargetArg::Vm]);
    assert_eq!(targets, vec![Target::Vm, Target::Cache]);
}

#[test]
fn no_target_means_the_default_selection() {
    assert_eq!(resolve(&[], &Target::QUICK), Target::QUICK.to_vec());
    assert_eq!(resolve(&[TargetArg::Logs], &Target::QUICK), vec![Target::Logs]);
    assert_eq!(shown(40, 15), 15);
    assert_eq!(shown(4, 15), 4);
    assert_eq!(shown(40, 0), 40);
}

#[test]
fn selections_pick_labels_or_every_third_party_agent() {
    let agent = |label: &str, scope: Scope, apple: bool| Agent {
        label: label.to_string(),
        path: format!("/x/{label}.plist"),
        scope,
        apple,
        loaded: false,
    };
    let agents = vec![
        agent("com.apple.a", Scope::User, true),
        agent("com.docker.helper", Scope::User, false),
        agent("org.x.daemon", Scope::Daemon, false),
    ];
    let all = Selection { labels: Vec::new(), all_third_party: true, scope: None };
    assert_eq!(all.select(&agents), (vec![1, 2], Vec::new()));
    let user = Selection { labels: Vec::new(), all_third_party: true, scope: Some(Scope::User) };
    assert_eq!(user.select(&agents).0, vec![1]);
    let named = Selection {
        labels: vec!["org.x.daemon".to_string(), "nope".to_string()],
        all_third_party: false,
        scope: None,
    };
    assert_eq!(named.select(&agents), (vec![2], vec!["nope".to_string()]));
    assert_eq!(listed(&agents, false, None), vec![0, 1, 2]);
    assert_eq!(listed(&agents, true, Some(Scope::Daemon)), vec![2]);
}

#[test]
fn only_updates_go_without_a_question() {
    assert!(SysCommand::Updates.question().is_none());
    assert_eq!(SysCommand::Dns.question(), Some("Vider le cache DNS ?"));
}

#[test]
fn purge_on_the_command_line_wins_over_the_configuration() {
    let mut options = Options {
        dry_run: false,
        yes: false,
        purge: false,
        exclude: Vec::new(),
        no_config: false,
        quiet: false,
        json: true,
        color: ColorChoice::Auto,
    };
    assert_eq!(options.disposal(Disposal::Trash), Disposal::Trash);
    assert!(options.silent());
    options.purge = true;
    assert_eq!(options.disposal(Disposal::Trash), Disposal::Purge);
}
