//! Emptying the trashes, cleaning caches and logs, first generation.

use vstd::prelude::*;
use crate::modules::utils::{cat, format_size, format_size_spec, freed, freed_line, push_line, text};
use crate::task::docker::sat_add;
use crate::task::texts;
use crate::text::push_str;

verus! {

/// A folder is emptied when it is there and weighs something.
pub fn worth_emptying(size: Option<u64>) -> (r: bool)
    ensures
        r == (size matches Some(s) && s > 0),
{
    match size {
        Some(s) => s > 0,
        None => false,
    }
}

/// The report of emptying the user's trash, from its size when it exists.
pub open spec fn clean_trash_spec(size: Option<u64>, dry_run: bool) -> Seq<Seq<char>> {
    match size {
        None => seq!["Corbeille déjà vide."@],
        Some(s) => if s == 0 {
            seq!["Corbeille: "@ + format_size_spec(0), "  Corbeille déjà vide."@]
        } else {
            seq!["Corbeille: "@ + format_size_spec(s as nat), freed_line(s, dry_run)]
        },
    }
}

/// Reports emptying the user's trash; its entries go when it is worth
/// emptying.
pub fn clean_trash(size: Option<u64>, dry_run: bool) -> (r: Vec<String>)
    ensures
        texts(r@) == clean_trash_spec(size, dry_run),
{
    let mut log: Vec<String> = Vec::new();
    match size {
        None => push_line(&mut log, text("Corbeille déjà vide.")),
        Some(s) => {
            push_line(&mut log, cat("Corbeille: ", format_size(s).as_str()));
            if s == 0 {
                push_line(&mut log, text("  Corbeille déjà vide."));
            } else {
                push_line(&mut log, freed(s, dry_run));
            }
        },
    }
    assert(texts(log@) =~= clean_trash_spec(size, dry_run));
    log
}

/// The lines of the trashes that weigh something, and their total.
pub open spec fn volume_lines(volumes: Seq<(String, Option<u64>)>) -> (Seq<Seq<char>>, u64)
    decreases volumes.len(),
{
    if volumes.len() == 0 {
        (Seq::empty(), 0)
    } else {
        let a = volume_lines(volumes.drop_last());
        let v = volumes.last();
        match v.1 {
            Some(s) => if s > 0 {
                (a.0.push("Corbeille ["@ + v.0@ + "]: "@ + format_size_spec(s as nat)), sat_add(a.1, s))
            } else {
                a
            },
            None => a,
        }
    }
}

/// The report of emptying every trash: the user's (its size when it
/// exists) and those of the mounted volumes (name, and the size of its
/// `.Trashes` when there is one).
pub open spec fn clean_all_trashes_spec(user: Option<u64>, volumes: Seq<(String, Option<u64>)>, dry_run: bool) -> Seq<Seq<char>> {
    let (head, user_total) = match user {
        Some(s) => if s > 0 {
            (seq!["Corbeille utilisateur: "@ + format_size_spec(s as nat)], s)
        } else {
            (Seq::empty(), 0u64)
        },
        None => (Seq::empty(), 0u64),
    };
    let v = volume_lines(volumes);
    let total = sat_add(user_total, v.1);
    head + v.0 + seq![
        if total == 0 {
            "Toutes les corbeilles sont déjà vides."@
        } else if dry_run {
            "Total: "@ + format_size_spec(total as nat) + " seraient libéré(s)"@
        } else {
            "Total libéré (corbeilles): "@ + format_size_spec(total as nat)
        },
    ]
}

/// The log of emptying every trash, from the size of the user's trash and of
/// each volume's, when there is one: which ones are worth emptying, and what
/// emptying them freed or would free. The emptying itself is done by the
/// caller.
pub fn clean_all_trashes(user: Option<u64>, volumes: &Vec<(String, Option<u64>)>, dry_run: bool) -> (r: Vec<String>)
    ensures
        texts(r@) == clean_all_trashes_spec(user, volumes@, dry_run),
{
    let mut log: Vec<String> = Vec::new();
    let mut total: u64 = 0;
    match user {
        Some(s) => if s > 0 {
            push_line(&mut log, cat("Corbeille utilisateur: ", format_size(s).as_str()));
            total = s;
        },
        None => {},
    }
    let ghost head = texts(log@);
    let ghost user_total = total;
    let mut i: usize = 0;
    let mut vt: u64 = 0;
    while i < volumes.len()
        invariant
            i <= volumes@.len(),
            texts(log@) == head + volume_lines(volumes@.take(i as int)).0,
            vt == volume_lines(volumes@.take(i as int)).1,
        decreases volumes@.len() - i,
    {
        assert(volumes@.take(i + 1).drop_last() =~= volumes@.take(i as int));
        match volumes[i].1 {
            Some(s) => if s > 0 {
                let mut line = text("Corbeille [");
                push_str(&mut line, volumes[i].0.as_str());
                push_str(&mut line, "]: ");
                push_str(&mut line, format_size(s).as_str());
                let ghost before = texts(log@);
                push_line(&mut log, line);
                vt = vt.saturating_add(s);
            },
            None => {},
        }
        i += 1;
    }
    assert(volumes@.take(volumes@.len() as int) =~= volumes@);
    let total = total.saturating_add(vt);
    if total == 0 {
        push_line(&mut log, text("Toutes les corbeilles sont déjà vides."));
    } else if dry_run {
        let mut line = cat("Total: ", format_size(total).as_str());
        push_str(&mut line, " seraient libéré(s)");
        push_line(&mut log, line);
    } else {
        push_line(&mut log, cat("Total libéré (corbeilles): ", format_size(total).as_str()));
    }
    assert(texts(log@) =~= clean_all_trashes_spec(user, volumes@, dry_run));
    log
}

/// The report of cleaning the user caches: the folder and its size when it
/// exists, then what its entries added up to when they could be listed.
pub open spec fn clean_cache_spec(dir: Seq<char>, found: Option<(u64, Option<u64>)>, dry_run: bool) -> Seq<Seq<char>> {
    match found {
        None => seq![dir + " — absent, rien à nettoyer"@],
        Some((before, cleaned)) => seq!["Nettoyage: "@ + dir + " ("@ + format_size_spec(before as nat) + ")"@]
            + match cleaned {
                Some(c) => seq![freed_line(c, dry_run)],
                None => Seq::empty(),
            },
    }
}

/// Reports cleaning the user caches.
pub fn clean_cache(dir: &str, found: Option<(u64, Option<u64>)>, dry_run: bool) -> (r: Vec<String>)
    ensures
        texts(r@) == clean_cache_spec(dir@, found, dry_run),
{
    let mut log: Vec<String> = Vec::new();
    match found {
        None => push_line(&mut log, cat(dir, " — absent, rien à nettoyer")),
        Some((before, cleaned)) => {
            let mut line = cat("Nettoyage: ", dir);
            push_str(&mut line, " (");
            push_str(&mut line, format_size(before).as_str());
            push_str(&mut line, ")");
            push_line(&mut log, line);
            match cleaned {
                Some(c) => push_line(&mut log, freed(c, dry_run)),
                None => {},
            }
        },
    }
    assert(texts(log@) =~= clean_cache_spec(dir@, found, dry_run));
    log
}

/// The report of cleaning the user logs: the folder and its size when it
/// exists, then, unless it was empty, what its entries added up to.
pub open spec fn clean_logs_spec(dir: Seq<char>, found: Option<(u64, u64)>, dry_run: bool) -> Seq<Seq<char>> {
    match found {
        None => seq![dir + " — absent"@],
        Some((size, cleaned)) => seq!["Logs: "@ + dir + " ("@ + format_size_spec(size as nat) + ")"@]
            + if size == 0 { seq!["  Déjà vide."@] } else { seq![freed_line(cleaned, dry_run)] },
    }
}

/// Reports cleaning the user logs; the folder is emptied unless it weighs
/// nothing.
pub fn clean_logs(dir: &str, found: Option<(u64, u64)>, dry_run: bool) -> (r: Vec<String>)
    ensures
        texts(r@) == clean_logs_spec(dir@, found, dry_run),
{
    let mut log: Vec<String> = Vec::new();
    match found {
        None => push_line(&mut log, cat(dir, " — absent")),
        Some((size, cleaned)) => {
            let mut line = cat("Logs: ", dir);
            push_str(&mut line, " (");
            push_str(&mut line, format_size(size).as_str());
            push_str(&mut line, ")");
            push_line(&mut log, line);
            if size == 0 {
                push_line(&mut log, text("  Déjà vide."));
            } else {
                push_line(&mut log, freed(cleaned, dry_run));
            }
        },
    }
    assert(texts(log@) =~= clean_logs_spec(dir@, found, dry_run));
    log
}

/// The Xcode folders that are cleaned, each with its name in the report.
pub open spec fn xcode_targets_spec(home: Seq<char>) -> Seq<(Seq<char>, Seq<char>)> {
    seq![
        (home + "/Library/Developer/Xcode/DerivedData"@, "DerivedData (builds Xcode)"@),
        (home + "/Library/Developer/Xcode/iOS DeviceSupport"@, "iOS DeviceSupport"@),
        (home + "/Library/Developer/Xcode/watchOS DeviceSupport"@, "watchOS DeviceSupport"@),
        (home + "/Library/Developer/CoreSimulator/Caches"@, "Caches Simulateur"@),
        (home + "/Library/Developer/CoreSimulator/Devices"@, "Simulateurs (appareils)"@),
    ]
}

/// The Xcode folders that are cleaned.
pub fn xcode_targets(home: &str) -> (r: Vec<(String, String)>)
    ensures
        r@.map_values(|t: (String, String)| (t.0@, t.1@)) == xcode_targets_spec(home@),
{
    let r = vec![
        (cat(home, "/Library/Developer/Xcode/DerivedData"), text("DerivedData (builds Xcode)")),
        (cat(home, "/Library/Developer/Xcode/iOS DeviceSupport"), text("iOS DeviceSupport")),
        (cat(home, "/Library/Developer/Xcode/watchOS DeviceSupport"), text("watchOS DeviceSupport")),
        (cat(home, "/Library/Developer/CoreSimulator/Caches"), text("Caches Simulateur")),
        (cat(home, "/Library/Developer/CoreSimulator/Devices"), text("Simulateurs (appareils)")),
    ];
    assert(r@.map_values(|t: (String, String)| (t.0@, t.1@)) =~= xcode_targets_spec(home@));
    r
}

/// The lines of the Xcode folders found (label, and size when it exists),
/// whether any was, and what they add up to.
pub open spec fn xcode_lines(found: Seq<(String, Option<u64>)>) -> (Seq<Seq<char>>, bool, u64)
    decreases found.len(),
{
    if found.len() == 0 {
        (Seq::empty(), false, 0)
    } else {
        let a = xcode_lines(found.drop_last());
        let f = found.last();
        match f.1 {
            None => a,
            Some(s) => if s == 0 {
                (a.0.push(f.0@ + ": vide"@), true, a.2)
            } else {
                (a.0.push(f.0@ + ": "@ + format_size_spec(s as nat)), true, sat_add(a.2, s))
            },
        }
    }
}

/// The report of cleaning Xcode's data.
pub open spec fn clean_xcode_spec(found: Seq<(String, Option<u64>)>, dry_run: bool) -> Seq<Seq<char>> {
    let x = xcode_lines(found);
    x.0 + seq![
        if !x.1 {
            "Xcode n'est pas installé ou aucun cache trouvé."@
        } else if dry_run {
            "Total: "@ + format_size_spec(x.2 as nat) + " seraient libéré(s)"@
        } else {
            "Total libéré (Xcode): "@ + format_size_spec(x.2 as nat)
        },
    ]
}

/// The log of cleaning Xcode's data, from each target's label and its size
/// when the folder exists: which ones are worth emptying, and what emptying
/// them freed or would free. The emptying itself is done by the caller.
pub fn clean_xcode(found: &Vec<(String, Option<u64>)>, dry_run: bool) -> (r: Vec<String>)
    ensures
        texts(r@) == clean_xcode_spec(found@, dry_run),
{
    let mut log: Vec<String> = Vec::new();
    let mut any = false;
    let mut total: u64 = 0;
    let mut i: usize = 0;
    while i < found.len()
        invariant
            i <= found@.len(),
            texts(log@) == xcode_lines(found@.take(i as int)).0,
            any == xcode_lines(found@.take(i as int)).1,
            total == xcode_lines(found@.take(i as int)).2,
        decreases found@.len() - i,
    {
        assert(found@.take(i + 1).drop_last() =~= found@.take(i as int));
        match found[i].1 {
            None => {},
            Some(s) => {
                any = true;
                if s == 0 {
                    push_line(&mut log, cat(found[i].0.as_str(), ": vide"));
                } else {
                    let mut line = cat(found[i].0.as_str(), ": ");
                    push_str(&mut line, format_size(s).as_str());
                    push_line(&mut log, line);
                    total = total.saturating_add(s);
                }
            },
        }
        i += 1;
    }
    assert(found@.take(found@.len() as int) =~= found@);
    let ghost body = texts(log@);
    if !any {
        push_line(&mut log, text("Xcode n'est pas installé ou aucun cache trouvé."));
    } else if dry_run {
        let mut line = cat("Total: ", format_size(total).as_str());
        push_str(&mut line, " seraient libéré(s)");
        push_line(&mut log, line);
    } else {
        push_line(&mut log, cat("Total libéré (Xcode): ", format_size(total).as_str()));
    }
    assert(texts(log@) =~= clean_xcode_spec(found@, dry_run));
    log
}

/// Folders the `.DS_Store` search never enters.
pub open spec fn dsstore_skipped(name: Seq<char>) -> bool {
    name == ".Trash"@ || name == "Library"@ || name == ".git"@ || name == "node_modules"@
}

/// Whether the `.DS_Store` search enters a folder of this name.
pub fn dsstore_descends(name: &str) -> (r: bool)
    ensures
        r == !dsstore_skipped(name@),
{
    let n = crate::text::chars_of(name);
    !(crate::text::chars_eq(n.as_slice(), crate::text::chars_of(".Trash").as_slice())
        || crate::text::chars_eq(n.as_slice(), crate::text::chars_of("Library").as_slice())
        || crate::text::chars_eq(n.as_slice(), crate::text::chars_of(".git").as_slice())
        || crate::text::chars_eq(n.as_slice(), crate::text::chars_of("node_modules").as_slice()))
}

/// The report of the `.DS_Store` sweep, from how many were found and their
/// size.
pub open spec fn clean_dsstore_spec(count: u64, bytes: u64, dry_run: bool) -> Seq<Seq<char>> {
    seq!["Recherche des fichiers .DS_Store..."@, if count == 0 {
        "  Aucun fichier .DS_Store trouvé."@
    } else if dry_run {
        "  "@ + crate::text::decimal(count as nat) + " fichier(s) trouvé(s) ("@ + format_size_spec(bytes as nat)
            + " seraient libéré(s))"@
    } else {
        "  "@ + crate::text::decimal(count as nat) + " fichier(s) supprimé(s) ("@ + format_size_spec(bytes as nat)
            + " libéré(s))"@
    }]
}

/// Reports the `.DS_Store` sweep.
pub fn clean_dsstore(count: u64, bytes: u64, dry_run: bool) -> (r: Vec<String>)
    ensures
        texts(r@) == clean_dsstore_spec(count, bytes, dry_run),
{
    let mut log: Vec<String> = Vec::new();
    push_line(&mut log, text("Recherche des fichiers .DS_Store..."));
    if count == 0 {
        push_line(&mut log, text("  Aucun fichier .DS_Store trouvé."));
    } else {
        let mut line = text("  ");
        crate::text::push_decimal(&mut line, count);
        push_str(&mut line, if dry_run { " fichier(s) trouvé(s) (" } else { " fichier(s) supprimé(s) (" });
        push_str(&mut line, format_size(bytes).as_str());
        push_str(&mut line, if dry_run { " seraient libéré(s))" } else { " libéré(s))" });
        push_line(&mut log, line);
    }
    assert(texts(log@) =~= clean_dsstore_spec(count, bytes, dry_run));
    log
}

} // verus!
