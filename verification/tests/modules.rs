use detox_mac::modules::homebrew::{clean_homebrew, homebrew_cleaned};
use detox_mac::modules::launch::{remove_all_launch_items, remove_user_launch_agents, unload_warning};
use detox_mac::modules::login::{
    disable_third_party_agents, label_from_filename, list_login_items_detailed, list_third_party_agents, sort_names,
    third_party,
};
use detox_mac::modules::scanner::{find_large_files, list_large_apps, scan_reaches, scan_skips};
use detox_mac::modules::sysinfo::{get_system_info, Readings};
use detox_mac::modules::system::{
    check_updates, dns_flushed, flush_dns, free_purgeable_space, is_root, purgeable_freed, purge_ram, ram_purged,
    reindex_spotlight, run_cmd, spotlight_reindexed, Report,
};
use detox_mac::modules::trash::{
    clean_all_trashes, clean_cache, clean_dsstore, clean_logs, clean_trash, clean_xcode, dsstore_descends, worth_emptying,
    xcode_targets,
};
use detox_mac::modules::utils::{format_size, DryRun};
use detox_mac::sys::cmd::Output;

fn lines(v: &[&str]) -> Vec<String> {
    v.iter().map(|s| s.to_string()).collect()
}

fn output(code: i32, stdout: &str, stderr: &str) -> Output {
    Output { code, stdout: stdout.to_string(), stderr: stderr.to_string() }
}

#[test]
fn sizes_are_written_in_french_units() {
    assert_eq!(format_size(512), "512 octets");
    assert_eq!(format_size(2048), "2 Ko");
    assert_eq!(format_size(1536 * 1024), "1.5 Mo");
    assert_eq!(format_size(3 * 1024 * 1024 * 1024), "3.00 Go");
}

#[test]
fn the_simulation_switch_holds_its_setting() {
    let mut mode = DryRun::new();
    assert!(!mode.is_dry_run());
    mode.set_dry_run(true);
    assert!(mode.is_dry_run());
}

#[test]
fn system_operations_need_the_superuser() {
    match flush_dns(false, false) {
        Report::Done(l) => assert_eq!(l, lines(&["Nécessite sudo. Relancez avec: sudo detox-mac"])),
        Report::Run(_) => panic!("ran without root"),
    }
    match flush_dns(true, true) {
        Report::Done(l) => assert_eq!(l.len(), 3),
        Report::Run(_) => panic!("ran in a simulation"),
    }
    match flush_dns(true, false) {
        Report::Run(l) => {
            let done = dns_flushed(l, Ok(String::new()), Err("no such process".to_string()));
            assert_eq!(
                done,
                lines(&["Flush du cache DNS...", "  dscacheutil: OK", "  mDNSResponder: no such process", "Cache DNS vidé."])
            );
        }
        Report::Done(_) => panic!("nothing ran"),
    }
    assert!(matches!(reindex_spotlight(false, false), Report::Done(_)));
    assert!(matches!(purge_ram(true, false), Report::Run(_)));
    assert_eq!(spotlight_reindexed(Vec::new(), Ok(String::new())), lines(&["  Index Spotlight réinitialisé."]));
    assert_eq!(ram_purged(Vec::new(), Err("refusé".to_string())), lines(&["  Erreur: refusé"]));
    match free_purgeable_space(false) {
        Report::Run(l) => assert_eq!(
            purgeable_freed(l, Ok("Thinned local snapshots".to_string())),
            lines(&["Libération de l'espace purgeable...", "  OK", "  Thinned local snapshots"])
        ),
        Report::Done(_) => panic!("nothing ran"),
    }
}

#[test]
fn commands_report_output_error_or_exit_code() {
    assert_eq!(run_cmd(Ok(output(0, " done \n", ""))), Ok("done".to_string()));
    assert_eq!(run_cmd(Ok(output(3, "", " bad \n"))), Err("bad".to_string()));
    assert_eq!(run_cmd(Ok(output(-1, "", ""))), Err("Erreur (code -1)".to_string()));
    assert!(is_root(&Ok(output(0, "0\n", ""))));
    assert!(!is_root(&Ok(output(0, "501\n", ""))));
}

#[test]
fn updates_are_listed_without_the_preamble() {
    let up_to_date = check_updates(Ok(("".to_string(), "No new software available.".to_string())));
    assert_eq!(up_to_date, lines(&["Vérification des mises à jour macOS...", "  Système à jour."]));
    let some = check_updates(Ok((
        "Software Update Tool\n\nFinding available software\n* Label: macOS 14.5\n".to_string(),
        String::new(),
    )));
    assert_eq!(some, lines(&["Vérification des mises à jour macOS...", "  * Label: macOS 14.5"]));
}

#[test]
fn the_machine_summary_reads_every_command() {
    let r = Readings {
        sw_vers: Some("ProductName:\tmacOS\nProductVersion:\t14.5\nBuildVersion:\t23F79\n".to_string()),
        cpu_brand: Some("Apple M2\n".to_string()),
        ncpu: Some("8\n".to_string()),
        memsize: Some("17179869184\n".to_string()),
        pagesize: Some("16384\n".to_string()),
        vm_stat: Some(
            "Mach Virtual Memory Statistics: (page size of 16384 bytes)\nPages free:   1024.\nPages active:  2048.\nPages inactive:  512.\nPages wired down:  1024.\nPages occupied by compressor:  0.\n"
                .to_string(),
        ),
        df: Some("Filesystem Size Used Avail Capacity\n/dev/disk3s1 494G 400G 94G 81% /\n".to_string()),
        uptime: Some("10:00  up 3 days,  2:03, 2 users, load averages: 1.0 1.0 1.0\n".to_string()),
        cache_bytes: 1024,
        trash_bytes: 0,
        logs_bytes: 2048,
        agent_files: lines(&["com.apple.a.plist", "com.docker.helper.plist", "notes.txt"]),
    };
    let log = get_system_info(&r);
    assert_eq!(
        log,
        lines(&[
            "OS: macOS 14.5",
            "CPU: Apple M2",
            "  Coeurs: 8",
            "RAM: 16.00 Go totale",
            "  Utilisée: 48.0 Mo | Libre: 16.0 Mo | Inactive: 8.0 Mo",
            "Disque: 494G total | 400G utilisé | 94G libre (81%)",
            "Uptime: 3 days,  2:03",
            "",
            "── Résumé nettoyage ──",
            "Caches: 1 Ko | Corbeille: 0 octets | Logs: 2 Ko",
            "Espace récupérable: 3 Ko",
            "Agents: 1 Apple, 1 tiers",
        ])
    );
}

#[test]
fn trashes_are_reported_and_emptied_only_when_full() {
    assert_eq!(clean_trash(None, false), lines(&["Corbeille déjà vide."]));
    assert_eq!(clean_trash(Some(0), false), lines(&["Corbeille: 0 octets", "  Corbeille déjà vide."]));
    assert_eq!(clean_trash(Some(2048), true), lines(&["Corbeille: 2 Ko", "  2 Ko seraient libéré(s)"]));
    assert!(!worth_emptying(Some(0)));
    assert!(worth_emptying(Some(1)));
    let volumes = vec![("Backup".to_string(), Some(4096)), ("Photos".to_string(), None)];
    assert_eq!(
        clean_all_trashes(Some(1024), &volumes, false),
        lines(&["Corbeille utilisateur: 1 Ko", "Corbeille [Backup]: 4 Ko", "Total libéré (corbeilles): 5 Ko"])
    );
    assert_eq!(clean_all_trashes(None, &Vec::new(), true), lines(&["Toutes les corbeilles sont déjà vides."]));
}

#[test]
fn caches_logs_xcode_and_ds_store_reports() {
    assert_eq!(
        clean_cache("/Users/me/Library/Caches", Some((4096, Some(2048))), false),
        lines(&["Nettoyage: /Users/me/Library/Caches (4 Ko)", "  2 Ko libéré(s)"])
    );
    assert_eq!(clean_logs("/Users/me/Library/Logs", None, false), lines(&["/Users/me/Library/Logs — absent"]));
    assert_eq!(
        clean_logs("/L", Some((0, 0)), false),
        lines(&["Logs: /L (0 octets)", "  Déjà vide."])
    );
    let targets = xcode_targets("/Users/me");
    assert_eq!(targets.len(), 5);
    assert_eq!(targets[0].0, "/Users/me/Library/Developer/Xcode/DerivedData");
    let found = vec![
        ("DerivedData (builds Xcode)".to_string(), Some(2048)),
        ("iOS DeviceSupport".to_string(), Some(0)),
        ("watchOS DeviceSupport".to_string(), None),
    ];
    assert_eq!(
        clean_xcode(&found, true),
        lines(&["DerivedData (builds Xcode): 2 Ko", "iOS DeviceSupport: vide", "Total: 2 Ko seraient libéré(s)"])
    );
    assert_eq!(clean_xcode(&Vec::new(), false), lines(&["Xcode n'est pas installé ou aucun cache trouvé."]));
    assert!(!dsstore_descends("node_modules"));
    assert!(dsstore_descends("Projects"));
    assert_eq!(
        clean_dsstore(3, 18432, false),
        lines(&["Recherche des fichiers .DS_Store...", "  3 fichier(s) supprimé(s) (18 Ko libéré(s))"])
    );
}

#[test]
fn agents_are_listed_in_name_order() {
    assert_eq!(label_from_filename("com.x.plist"), "com.x");
    assert_eq!(sort_names(&lines(&["b", "a", "c"])), lines(&["a", "b", "c"]));
    let sections = vec![
        ("LaunchAgents utilisateur".to_string(), Some(lines(&["z.tool.plist", "com.apple.y.plist", "readme"]))),
        ("LaunchAgents système".to_string(), None),
        ("LaunchDaemons système".to_string(), Some(Vec::new())),
    ];
    let loaded = lines(&["z.tool"]);
    assert_eq!(
        list_login_items_detailed(&sections, &loaded),
        lines(&[
            "── LaunchAgents utilisateur ──",
            "  [Apple] com.apple.y (inactif)",
            "  [Tiers] z.tool (actif)",
            "── LaunchAgents système ──",
            "  (non trouvé)",
            "── LaunchDaemons système ──",
            "  (vide)",
            "",
            "Total: 1 Apple, 1 tiers",
        ])
    );
    assert_eq!(
        list_third_party_agents(&sections, &loaded),
        lines(&["── LaunchAgents utilisateur ──", "  z.tool (actif)", "\n1 agent(s) tiers au total"])
    );
    let names = third_party(&lines(&["com.apple.y.plist", "z.tool.plist", "notes"]));
    assert_eq!(names, lines(&["z.tool.plist"]));
    assert_eq!(
        disable_third_party_agents(&names, false, &vec![Ok(output(1, "", "Load failed\n"))]),
        lines(&["  Désactivation: z.tool", "    Avertissement: Load failed", "1 agent(s) tiers désactivé(s)."])
    );
    assert_eq!(disable_third_party_agents(&Vec::new(), true, &Vec::new()), lines(&["Aucun agent tiers à désactiver."]));
}

#[test]
fn launch_definitions_are_unloaded_then_removed() {
    assert_eq!(unload_warning(Ok(output(0, "", ""))), None);
    assert_eq!(unload_warning(Err("nope".to_string())), Some("nope".to_string()));
    let entries = Some(vec![
        ("/u/LaunchAgents/a.plist".to_string(), None, None),
        ("/u/LaunchAgents/b.plist".to_string(), Some("busy".to_string()), Some("denied".to_string())),
    ]);
    assert_eq!(
        remove_user_launch_agents("/u/LaunchAgents", &entries, false),
        lines(&[
            "Vérification: /u/LaunchAgents",
            "  Déchargement: /u/LaunchAgents/a.plist",
            "  Suppression: /u/LaunchAgents/a.plist",
            "  Déchargement: /u/LaunchAgents/b.plist",
            "    Avertissement: busy",
            "  Suppression: /u/LaunchAgents/b.plist",
            "    Erreur: denied",
            "1 agent(s) utilisateur supprimé(s).",
        ])
    );
    let dirs = vec![("/L".to_string(), None), ("/D".to_string(), Some(Vec::new()))];
    assert_eq!(remove_all_launch_items(&dirs, true), lines(&["Vérification: /L", "Vérification: /D", "  0 trouvé(s) dans /D"]));
}

#[test]
fn homebrew_reports_its_cleanup() {
    match clean_homebrew(false, None, false) {
        Report::Done(l) => assert_eq!(l, lines(&["Homebrew n'est pas installé — ignoré."])),
        Report::Run(_) => panic!("ran without brew"),
    }
    match clean_homebrew(true, Some(1024), false) {
        Report::Run(l) => {
            let done = homebrew_cleaned(l, Ok(output(0, "Removing: a\nRemoving: b\n", "")));
            assert_eq!(
                done,
                lines(&[
                    "Nettoyage du cache Homebrew...",
                    "  Cache Homebrew: 1 Ko",
                    "  Removing: a",
                    "  Removing: b",
                    "  Nettoyage Homebrew terminé.",
                ])
            );
        }
        Report::Done(_) => panic!("nothing ran"),
    }
}

#[test]
fn large_items_are_listed_largest_first() {
    let apps = Some(vec![("A.app".to_string(), 1024), ("B.app".to_string(), 4096), ("C.app".to_string(), 1024)]);
    assert_eq!(
        list_large_apps(&apps),
        lines(&[
            "Scan de /Applications...",
            "3 apps trouvées (6 Ko)",
            "",
            "        4 Ko  B.app",
            "        1 Ko  A.app",
            "        1 Ko  C.app",
        ])
    );
    assert_eq!(list_large_apps(&None), lines(&["/Applications introuvable."]));
    let files = vec![("/Users/me/movie.mov".to_string(), 600 * 1024 * 1024), ("/tmp/x.iso".to_string(), 700 * 1024 * 1024)];
    assert_eq!(
        find_large_files("/Users/me", &files),
        lines(&[
            "Recherche des fichiers > 500.0 Mo dans ~...",
            "2 fichier(s) trouvé(s):",
            "",
            "    700.0 Mo  /tmp/x.iso",
            "    600.0 Mo  ~/movie.mov",
            "Total: 1.27 Go",
        ])
    );
    assert!(scan_skips(".git"));
    assert!(scan_skips("Library"));
    assert!(!scan_skips("Movies"));
    assert!(scan_reaches(8));
    assert!(!scan_reaches(9));
}
