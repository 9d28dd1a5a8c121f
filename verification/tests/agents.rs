use detox_mac::config::Excludes;
use detox_mac::task::agents::{
    applied, apply, collect, is_apple, label_of, loaded_labels, summary, Action, Agent, AgentStep,
    Scope,
};
use detox_mac::task::{Ctx, Outcome, Status};
use detox_mac::sys::fsx::Disposal;
use detox_mac::ui::{ColorChoice, Printer};

#[test]
fn detects_apple_labels() {
    assert!(is_apple("com.apple.Spotlight"));
    assert!(!is_apple("com.docker.helper"));
}

#[test]
fn label_comes_from_filename() {
    assert_eq!(label_of("/Library/LaunchAgents/com.docker.helper.plist"), "com.docker.helper");
}

#[test]
fn only_user_scope_runs_without_root() {
    assert!(!Scope::User.needs_root());
    assert!(Scope::System.needs_root());
    assert!(Scope::Daemon.needs_root());
}

#[test]
fn a_hidden_file_keeps_its_leading_dot() {
    assert_eq!(label_of("/tmp/.hidden"), ".hidden");
    assert_eq!(label_of("/tmp/archive.tar.gz"), "archive.tar");
}

#[test]
fn scopes_have_their_directories() {
    assert_eq!(Scope::User.dir("/Users/me"), "/Users/me/Library/LaunchAgents");
    assert_eq!(Scope::System.dir("/Users/me"), "/Library/LaunchAgents");
    assert_eq!(Scope::Daemon.dir("/Users/me"), "/Library/LaunchDaemons");
    assert_eq!(Scope::Daemon.label(), "System LaunchDaemons");
}

#[test]
fn loaded_labels_are_the_third_column_after_the_header() {
    let out = "PID\tStatus\tLabel\n123\t0\tcom.docker.helper\n-\t0\tcom.apple.Finder\nbroken line";
    assert_eq!(loaded_labels(out), vec!["com.docker.helper".to_string(), "com.apple.Finder".to_string()]);
}

#[test]
fn agents_are_listed_by_scope_and_marked() {
    let user = vec!["/Users/me/Library/LaunchAgents/com.docker.helper.plist".to_string()];
    let system = vec!["/Library/LaunchAgents/com.apple.thing.plist".to_string()];
    let daemon: Vec<String> = Vec::new();
    let agents = collect(&user, &system, &daemon, "PID\tStatus\tLabel\n1\t0\tcom.docker.helper");
    assert_eq!(agents.len(), 2);
    assert_eq!(agents[0].label, "com.docker.helper");
    assert_eq!(agents[0].scope, Scope::User);
    assert!(agents[0].loaded && !agents[0].apple);
    assert_eq!(agents[1].scope, Scope::System);
    assert!(agents[1].apple && !agents[1].loaded);
}

#[test]
fn apple_and_third_party_add_up_to_all() {
    let make = |label: &str, apple: bool| Agent {
        label: label.to_string(),
        path: format!("/x/{label}.plist"),
        scope: Scope::User,
        apple,
        loaded: false,
    };
    let agents = vec![make("com.apple.a", true), make("b", false), make("c", false)];
    assert_eq!(summary(&agents), (1, 2));
}

fn ctx(dry_run: bool) -> Ctx {
    Ctx {
        dry_run,
        yes: true,
        json: false,
        purge: false,
        disposal: Disposal::Trash,
        printer: Printer::new(ColorChoice::Never, true, true, false, false),
    }
}

#[test]
fn apple_agents_are_never_touched() {
    let agent = Agent {
        label: "com.apple.x".to_string(),
        path: "/Library/LaunchAgents/com.apple.x.plist".to_string(),
        scope: Scope::User,
        apple: true,
        loaded: true,
    };
    match apply(&agent, Action::Disable, &ctx(false), &Excludes::new(Vec::new()), true, "/Users/me") {
        AgentStep::Done(o) => {
            assert_eq!(o.status, Status::Skipped);
            assert_eq!(o.action, "Disable com.apple.x");
            assert_eq!(o.messages, vec!["Apple agent — skipped for safety".to_string()]);
        }
        AgentStep::Launchctl { .. } => panic!("an Apple agent was acted upon"),
    }
}

#[test]
fn system_agents_need_root_and_removal_reports_the_trash() {
    let agent = Agent {
        label: "com.docker.helper".to_string(),
        path: "/Library/LaunchAgents/com.docker.helper.plist".to_string(),
        scope: Scope::System,
        apple: false,
        loaded: true,
    };
    match apply(&agent, Action::Remove, &ctx(false), &Excludes::new(Vec::new()), false, "/Users/me") {
        AgentStep::Done(o) => assert_eq!(o.messages, vec!["requires sudo".to_string()]),
        AgentStep::Launchctl { .. } => panic!("ran without root"),
    }
    match apply(&agent, Action::Remove, &ctx(false), &Excludes::new(Vec::new()), true, "/Users/me") {
        AgentStep::Launchctl { sub, dispose } => assert!(sub == "unload" && dispose),
        AgentStep::Done(_) => panic!("nothing was run"),
    }
    let o = applied(&agent, Action::Remove, Err("already unloaded".to_string()), Some(Ok(())), Disposal::Trash, "/Users/me");
    assert_eq!(o.status, Status::Succeeded);
    assert_eq!(
        o.messages,
        vec![
            "launchctl : already unloaded".to_string(),
            "moved to the trash: /Library/LaunchAgents/com.docker.helper.plist".to_string()
        ]
    );
    let failed = applied(&agent, Action::Remove, Ok(()), Some(Err("denied".to_string())), Disposal::Purge, "/Users/me");
    assert_eq!(failed.status, Status::Failed);
}

#[test]
fn outcomes_render_their_status_and_messages() {
    let printer = Printer::new(ColorChoice::Never, false, true, false, false);
    let done = Outcome::ok("Cache DNS", true).with("dscacheutil -flushcache");
    assert_eq!(
        done.render(&printer),
        vec![(false, "✓ Cache DNS [dry run]".to_string()), (false, "  dscacheutil -flushcache".to_string())]
    );
    let failed = Outcome::failed("Spotlight", "refusé");
    assert_eq!(failed.render(&printer), vec![(true, "✗ Spotlight".to_string()), (false, "  refusé".to_string())]);
    let quiet = Printer::new(ColorChoice::Never, true, true, false, false);
    assert_eq!(failed.render(&quiet), vec![(true, "✗ Spotlight".to_string())]);
}

#[test]
fn agents_come_by_scope_then_by_label() {
    let user = vec![
        "/Users/me/Library/LaunchAgents/com.x-y.plist".to_string(),
        "/Users/me/Library/LaunchAgents/com.x.plist".to_string(),
    ];
    let daemon = vec!["/Library/LaunchDaemons/a.plist".to_string()];
    let agents = collect(&user, &Vec::new(), &daemon, "");
    let labels: Vec<&str> = agents.iter().map(|a| a.label.as_str()).collect();
    assert_eq!(labels, vec!["com.x", "com.x-y", "a"]);
    assert_eq!(agents[2].scope, Scope::Daemon);
}

#[test]
fn an_excluded_agent_definition_is_never_removed() {
    let agent = Agent {
        label: "com.acme.sync".to_string(),
        path: "/Users/me/Library/LaunchAgents/com.acme.sync.plist".to_string(),
        scope: Scope::User,
        apple: false,
        loaded: true,
    };
    let protect = Excludes::new(vec!["~/Library/LaunchAgents/com.acme.sync.plist".to_string()]);
    match apply(&agent, Action::Remove, &ctx(false), &protect, false, "/Users/me") {
        AgentStep::Launchctl { sub, dispose } => assert!(sub == "unload" && !dispose),
        AgentStep::Done(_) => panic!("nothing was run"),
    }
    match apply(&agent, Action::Disable, &ctx(false), &Excludes::new(Vec::new()), false, "/Users/me") {
        AgentStep::Launchctl { dispose, .. } => assert!(!dispose),
        AgentStep::Done(_) => panic!("nothing was run"),
    }
    let o = applied(&agent, Action::Remove, Ok(()), None, Disposal::Trash, "/Users/me");
    assert_eq!(o.status, Status::Succeeded);
    assert_eq!(o.messages, vec!["left alone by your exclusions: ~/Library/LaunchAgents/com.acme.sync.plist".to_string()]);
}
