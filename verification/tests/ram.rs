use detox_mac::task::ram::{find_name, is_running};
use detox_mac::task::agents::{Agent, Scope};
use detox_mac::task::ram::{
    above, agent_program, autostart_groups, bundle_of, command_lines, file_name, find, footprints,
    free_percent, is_system, kill, kill_order, matches_words, own_ancestors, parse_top_size,
    kill_gate, kill_succeeded, recall, remember, resolve_group, running_processes, settle, signal_flag, snapshot,
    split_fields, tree, with_command_lines, Group, KillGate, Killed, Lookup, Process,
};
use detox_mac::sys::machine::Memory;

#[test]
fn finds_outermost_bundle() {
    let path = "/Applications/Signal.app/Contents/Frameworks/Signal Helper (Renderer).app/Contents/MacOS/Signal Helper";
    let (name, bundle) = bundle_of(path).unwrap();
    assert_eq!(name, "Signal");
    assert_eq!(bundle, "/Applications/Signal.app");
}

#[test]
fn plain_binaries_have_no_bundle() {
    assert!(bundle_of("/opt/homebrew/bin/node").is_none());
}

#[test]
fn recognises_system_paths() {
    assert!(is_system("/usr/libexec/logd"));
    assert!(is_system("/System/Applications/Siri AI.app/Contents/MacOS/Siri AI"));
    assert!(is_system(
        "/System/Volumes/Preboot/Cryptexes/App/System/Applications/Safari.app/Contents/MacOS/Safari"
    ));
    assert!(!is_system("/Applications/Discord.app/Contents/MacOS/Discord"));
    assert!(!is_system("/opt/homebrew/bin/node"));
}

#[test]
fn splits_paths_containing_spaces() {
    let line = "  79148 78801 654688 alice  /Applications/Signal.app/Contents/MacOS/Signal Helper (Renderer)";
    let (fields, path) = split_fields(line, 4).unwrap();
    assert_eq!(fields, vec!["79148", "78801", "654688", "alice"]);
    assert_eq!(path, "/Applications/Signal.app/Contents/MacOS/Signal Helper (Renderer)");
}

fn group(name: &str) -> Group {
    Group {
        name: name.to_string(),
        bundle: None,
        bytes: 0,
        system: false,
        autostart: false,
        agents: Vec::new(),
        processes: Vec::new(),
    }
}

#[test]
fn exact_case_wins_over_fuzzy_matches() {
    let groups = vec![group("Signal"), group("signal"), group("Discord")];

    assert!(matches!(find(&groups, "Signal"), Lookup::One(i) if groups[i].name == "Signal"));
    assert!(matches!(find(&groups, "signal"), Lookup::One(i) if groups[i].name == "signal"));
    assert!(matches!(find(&groups, "disc"), Lookup::One(i) if groups[i].name == "Discord"));
    assert!(matches!(find(&groups, "SIGNAL"), Lookup::Ambiguous(_)));
    assert!(matches!(find(&groups, "firefox"), Lookup::NotFound));
}

#[test]
fn matches_names_word_by_word() {
    assert!(matches_words("Visual Studio Code", "vs code"));
    assert!(matches_words("Visual Studio Code", "vscode"));
    assert!(matches_words("Visual Studio Code", "code"));
    assert!(matches_words("Visual Studio Code", "visual"));
    assert!(matches_words("Docker Desktop", "docker"));
    assert!(!matches_words("Visual Studio Code", "vs terminal"));
    assert!(!matches_words("Spotify", "vs"));
    assert!(!matches_words("Discord", ""));
}

#[test]
fn parses_top_sizes() {
    assert_eq!(parse_top_size("6257K"), Some(6257 * 1024));
    assert_eq!(parse_top_size("726M+"), Some(726 * 1024 * 1024));
    assert_eq!(parse_top_size("1.5G"), Some(1024 * 1024 * 1024 * 3 / 2));
    assert_eq!(parse_top_size("42"), None);
}

#[test]
fn file_names_are_the_last_component() {
    assert_eq!(file_name("/opt/homebrew/bin/node"), "node");
    assert_eq!(file_name("/usr/lib/"), "lib");
    assert_eq!(file_name("/"), "");
}

#[test]
fn footprints_follow_the_top_header() {
    let out = "Processes: 3\nPID  MEM\n12 6257K\n13 1.5G\nbad line\n";
    assert_eq!(footprints(out), vec![(12, 6257 * 1024), (13, 1024 * 1024 * 1024 * 3 / 2)]);
    assert!(footprints("no header here").is_empty());
}

fn process(pid: u32, ppid: u32, path: &str, bytes: u64) -> Process {
    Process {
        pid,
        ppid,
        user: "me".to_string(),
        name: file_name(path),
        path: path.to_string(),
        bytes,
        cpu: "0.0".to_string(),
        elapsed: "01:00".to_string(),
        args: None,
    }
}

#[test]
fn processes_take_the_top_footprint_over_resident_size() {
    let ps = "  10 1 100 0.5 01:00 me /Applications/Foo.app/Contents/MacOS/Foo\n  11 10 200 0.0 02:00 me /bin/zsh\n";
    let list = running_processes(ps, &vec![(10, 5000)]);
    assert_eq!(list.len(), 2);
    assert_eq!(list[0].bytes, 5000);
    assert_eq!(list[1].bytes, 200 * 1024);
    assert_eq!(list[1].name, "zsh");
    assert_eq!(list[0].cpu, "0.5");
}

#[test]
fn free_percentage_is_read() {
    assert_eq!(free_percent("The system has 1\nSystem-wide memory free percentage: 42%\n"), Some(42));
    assert_eq!(free_percent("nothing"), None);
}

#[test]
fn command_lines_are_attached() {
    let lines = command_lines("  10 /bin/zsh -l\n  11 node server.js\n");
    assert_eq!(lines, vec![(10, "/bin/zsh -l".to_string()), (11, "node server.js".to_string())]);
    let mut g = group("zsh");
    g.processes.push(process(10, 1, "/bin/zsh", 1));
    with_command_lines(&mut g, &lines);
    assert_eq!(g.processes[0].args.as_deref(), Some("/bin/zsh -l"));
}

#[test]
fn helpers_are_grouped_under_their_editor() {
    let ps = vec![
        process(100, 1, "/Applications/Code.app/Contents/MacOS/Code", 300),
        process(101, 100, "/Users/me/.vscode/rust-analyzer", 500),
        process(200, 1, "/usr/libexec/logd", 50),
    ];
    assert_eq!(resolve_group(1, &ps).name, "Code");
    let snap = snapshot(&ps, &Vec::new(), false, Memory::default(), Some(10));
    assert_eq!(snap.groups.len(), 1);
    assert_eq!(snap.groups[0].name, "Code");
    assert_eq!(snap.groups[0].bytes, 800);
    assert_eq!(snap.groups[0].processes[0].pid, 101);
    assert_eq!(snap.hidden_groups, 1);
    assert_eq!(snap.hidden_bytes, 50);
    assert_eq!(snap.listed_bytes(), 800);
    let all = snapshot(&ps, &Vec::new(), true, Memory::default(), None);
    assert_eq!(all.groups.len(), 2);
    assert_eq!(all.groups[1].name, "logd");
}

#[test]
fn roots_are_killed_before_their_children_and_never_ourselves() {
    let mut g = group("Code");
    g.processes = vec![
        process(101, 100, "/x/helper", 1),
        process(100, 1, "/x/Code", 1),
        process(999, 100, "/x/detox", 1),
    ];
    g.bytes = 3;
    assert_eq!(kill_order(&g, 999), vec![1, 0]);
    let report = kill(&g, false, true, 999, &Vec::new());
    assert_eq!(report.terminated, vec![100, 101]);
    assert_eq!(report.signal, "SIGTERM");
    assert_eq!(signal_flag(true), "-KILL");
    let sent = vec![Ok(()), Err("kill: 101: No such process".to_string())];
    let report = kill(&g, true, false, 999, &sent);
    assert_eq!(report.terminated, vec![100, 101]);
    assert!(report.errors.is_empty());
    let settled = settle(report, &vec![true, false]);
    assert_eq!(settled.survived, vec![100]);
    assert_eq!(settled.terminated, vec![101]);
    let failing = kill(&g, false, false, 999, &vec![Err("not permitted".to_string()), Ok(())]);
    assert_eq!(failing.errors, vec!["Code [100] : not permitted".to_string()]);
}

#[test]
fn the_tree_has_roots_and_children() {
    let mut g = group("Code");
    g.processes = vec![process(100, 1, "/x/Code", 1), process(101, 100, "/x/helper", 1)];
    let (roots, children) = tree(&g);
    assert_eq!(roots, vec![0]);
    assert_eq!(children, vec![vec![1], vec![]]);
}

#[test]
fn ancestors_stop_at_launchd() {
    let mut g = group("Terminal");
    g.processes = vec![process(50, 1, "/x/Terminal", 1), process(60, 50, "/bin/zsh", 1), process(70, 60, "/x/detox", 1)];
    assert_eq!(own_ancestors(&vec![g], 70), vec![60, 50]);
}

#[test]
fn a_remembered_list_is_recalled_by_position() {
    let groups = vec![group("Code"), group("Slack")];
    let text = remember(&groups).unwrap();
    assert_eq!(recall(&text, 2), Some("Slack".to_string()));
    assert_eq!(recall(&text, 0), None);
    assert_eq!(recall(&text, 3), None);
    assert_eq!(recall("garbage", 1), None);
}

#[test]
fn agents_name_the_applications_they_start() {
    assert_eq!(agent_program("{\"Program\":\"/opt/x/bin/thing\"}"), Some("/opt/x/bin/thing".to_string()));
    assert_eq!(
        agent_program("{\"ProgramArguments\":[\"/Applications/Foo.app/Contents/MacOS/Foo\",\"-x\"]}"),
        Some("/Applications/Foo.app/Contents/MacOS/Foo".to_string())
    );
    assert_eq!(agent_program("not json"), None);
    let agent = |label: &str, apple: bool| Agent {
        label: label.to_string(),
        path: format!("/x/{label}.plist"),
        scope: Scope::User,
        apple,
        loaded: true,
    };
    let agents = vec![agent("com.foo.a", false), agent("com.foo.b", false), agent("com.apple.c", true)];
    let programs = vec![
        Some("/Applications/Foo.app/Contents/MacOS/Foo".to_string()),
        Some("/Applications/Foo.app/Contents/MacOS/Helper".to_string()),
        Some("/usr/bin/x".to_string()),
    ];
    let groups = autostart_groups(&agents, &programs);
    assert_eq!(groups, vec![("Foo".to_string(), vec!["com.foo.a".to_string(), "com.foo.b".to_string()])]);
}

#[test]
fn macos_components_are_refused_without_system() {
    let mut g = group("WindowServer");
    g.system = true;
    g.processes = vec![process(150, 1, "/System/Library/WindowServer", 10)];
    match kill_gate(&g, false, &Vec::new()) {
        KillGate::Refused(m) => assert_eq!(m, "WindowServer est un composant de macOS — ajoutez --system pour l'arrêter quand même."),
        KillGate::Proceed { .. } => panic!("a macOS component went through"),
    }
    assert!(matches!(kill_gate(&g, true, &Vec::new()), KillGate::Proceed { holds_terminal: false }));
}

#[test]
fn a_group_holding_the_terminal_is_flagged() {
    let mut g = group("Terminal");
    g.processes = vec![process(400, 1, "/Applications/Terminal.app/Contents/MacOS/Terminal", 10), process(401, 400, "/bin/zsh", 1)];
    assert!(matches!(kill_gate(&g, false, &vec![401, 400]), KillGate::Proceed { holds_terminal: true }));
    assert!(matches!(kill_gate(&g, false, &vec![900]), KillGate::Proceed { holds_terminal: false }));
}

#[test]
fn a_shutdown_succeeds_only_without_survivors_or_errors() {
    let report = |terminated: Vec<u32>, survived: Vec<u32>, errors: Vec<String>| Killed {
        group: "Demo".to_string(),
        signal: "SIGTERM",
        bytes: 0,
        terminated,
        survived,
        errors,
    };
    assert!(kill_succeeded(&report(vec![1], vec![], vec![]), false));
    assert!(!kill_succeeded(&report(vec![], vec![], vec![]), false));
    assert!(kill_succeeded(&report(vec![], vec![], vec![]), true));
    assert!(!kill_succeeded(&report(vec![1], vec![2], vec![]), true));
    assert!(!kill_succeeded(&report(vec![1], vec![], vec!["x".to_string()]), false));
}

#[test]
fn a_minimum_keeps_the_order_of_the_listing() {
    let mut big = group("Big");
    big.bytes = 500;
    let mut small = group("Small");
    small.bytes = 10;
    let mut edge = group("Edge");
    edge.bytes = 100;
    let groups = vec![big, small, edge];
    assert_eq!(above(&groups, 100), vec![0, 2]);
    assert_eq!(above(&groups, 0), vec![0, 1, 2]);
    assert!(above(&groups, 501).is_empty());
}

#[test]
fn an_exact_application_name_wins_outright() {
    let names = vec!["Notes Helper".to_string(), "Notes".to_string(), "Sticky Notes".to_string()];
    assert!(matches!(find_name(&names, " Notes "), Lookup::One(1)));
    assert!(matches!(find_name(&names, "notes"), Lookup::One(1)));
    match find_name(&names, "note") {
        Lookup::Ambiguous(found) => assert_eq!(found, vec![0, 1, 2]),
        _ => panic!("three names contain the query"),
    }
    assert!(matches!(find_name(&names, "Mail"), Lookup::NotFound));
}

#[test]
fn a_running_application_is_known_by_its_bundle() {
    let mut g = group("Spotify");
    g.bundle = Some("/Applications/Spotify.app".to_string());
    let groups = vec![group("zsh"), g];
    assert!(is_running(&groups, "/Applications/Spotify.app"));
    assert!(!is_running(&groups, "/Applications/Slack.app"));
}
