//! Removing startup definitions, first generation.

use vstd::prelude::*;
use crate::modules::utils::{cat, push_line, text};
use crate::sys::cmd::Output;
use crate::task::texts;
use crate::text::{decimal, push_decimal, push_str, trim};

verus! {

/// What unloading a definition tells the report: nothing when it worked,
/// else the trimmed error output, or why `launchctl` could not run.
pub open spec fn unload_warning_spec(r: Result<Output, String>) -> Option<Seq<char>> {
    match r {
        Ok(o) => if o.code == 0 { None } else { Some(trim(o.stderr@)) },
        Err(e) => Some(e@),
    }
}

/// What unloading a definition tells the report.
pub fn unload_warning(r: Result<Output, String>) -> (w: Option<String>)
    ensures
        match unload_warning_spec(r) {
            None => w is None,
            Some(x) => w matches Some(y) && y@ == x,
        },
{
    match r {
        Ok(o) => if o.code == 0 {
            None
        } else {
            Some(crate::text::string_of(crate::text::trim_chars(crate::text::chars_of(o.stderr.as_str()).as_slice()).as_slice()))
        },
        Err(e) => Some(e),
    }
}

/// The lines of the definitions removed, and how many went.
pub open spec fn removed_lines(entries: Seq<(String, Option<String>, Option<String>)>, dry_run: bool) -> (Seq<Seq<char>>, nat)
    decreases entries.len(),
{
    if entries.len() == 0 {
        (Seq::empty(), 0)
    } else {
        let a = removed_lines(entries.drop_last(), dry_run);
        let e = entries.last();
        let verb = if dry_run { "Serait supprimé"@ } else { "Suppression"@ };
        let unload = seq!["  Déchargement: "@ + e.0@] + match e.1 {
            Some(w) => if dry_run { Seq::empty() } else { seq!["    Avertissement: "@ + w@] },
            None => Seq::empty(),
        } + seq!["  "@ + verb + ": "@ + e.0@];
        match e.2 {
            Some(err) => if dry_run {
                (a.0 + unload, a.1 + 1)
            } else {
                (a.0 + unload.push("    Erreur: "@ + err@), a.1)
            },
            None => (a.0 + unload, a.1 + 1),
        }
    }
}

proof fn lemma_removed_count(entries: Seq<(String, Option<String>, Option<String>)>, dry_run: bool)
    ensures
        removed_lines(entries, dry_run).1 <= removed_lines(entries, dry_run).0.len(),
    decreases entries.len(),
{
    if entries.len() > 0 {
        lemma_removed_count(entries.drop_last(), dry_run);
    }
}

fn removed_lines_of(entries: &Vec<(String, Option<String>, Option<String>)>, dry_run: bool, log: &mut Vec<String>) -> (count: u64)
    ensures
        texts(final(log)@) == texts(old(log)@) + removed_lines(entries@, dry_run).0,
        count as nat == removed_lines(entries@, dry_run).1,
{
    let ghost start = texts(log@);
    let mut count: u64 = 0;
    let mut i: usize = 0;
    while i < entries.len()
        invariant
            i <= entries@.len(),
            texts(log@) == start + removed_lines(entries@.take(i as int), dry_run).0,
            count as nat == removed_lines(entries@.take(i as int), dry_run).1,
            count <= i,
        decreases entries@.len() - i,
    {
        assert(entries@.take(i + 1).drop_last() =~= entries@.take(i as int));
        let e = &entries[i];
        let ghost before = texts(log@);
        push_line(log, cat("  Déchargement: ", e.0.as_str()));
        match &e.1 {
            Some(w) => if !dry_run {
                push_line(log, cat("    Avertissement: ", w.as_str()));
            },
            None => {},
        }
        let mut line = text("  ");
        push_str(&mut line, if dry_run { "Serait supprimé" } else { "Suppression" });
        push_str(&mut line, ": ");
        push_str(&mut line, e.0.as_str());
        push_line(log, line);
        match &e.2 {
            Some(err) => if dry_run {
                count += 1;
            } else {
                push_line(log, cat("    Erreur: ", err.as_str()));
            },
            None => {
                count += 1;
            },
        }
        proof {
            let a = removed_lines(entries@.take(i as int), dry_run);
            let x = entries@[i as int];
            assert(entries@.take(i + 1).last() == x);
            let verb = if dry_run { "Serait supprimé"@ } else { "Suppression"@ };
            let unload = seq!["  Déchargement: "@ + x.0@] + match x.1 {
                Some(w) => if dry_run { Seq::empty() } else { seq!["    Avertissement: "@ + w@] },
                None => Seq::empty(),
            } + seq!["  "@ + verb + ": "@ + x.0@];
            match x.2 {
                Some(err) => if dry_run {
                    assert(texts(log@) =~= before + unload);
                } else {
                    assert(texts(log@) =~= before + unload.push("    Erreur: "@ + err@));
                },
                None => assert(texts(log@) =~= before + unload),
            }
        }
        i += 1;
    }
    assert(entries@.take(entries@.len() as int) =~= entries@);
    count
}

/// The report of removing the user's startup agents: the folder, then each
/// definition (its path, what unloading it warned of, why removing it
/// failed) when the folder could be read.
pub open spec fn remove_user_spec(dir: Seq<char>, entries: Option<Seq<(String, Option<String>, Option<String>)>>, dry_run: bool) -> Seq<Seq<char>> {
    seq!["Vérification: "@ + dir] + match entries {
        None => seq!["  Aucun LaunchAgent utilisateur trouvé."@],
        Some(es) => {
            let r = removed_lines(es, dry_run);
            r.0.push(decimal(r.1) + " agent(s) utilisateur "@ + if dry_run { "trouvé(s)."@ } else { "supprimé(s)."@ })
        },
    }
}

/// Reports removing the user's startup agents.
pub fn remove_user_launch_agents(dir: &str, entries: &Option<Vec<(String, Option<String>, Option<String>)>>, dry_run: bool) -> (r: Vec<String>)
    ensures
        texts(r@) == remove_user_spec(dir@, match entries { Some(v) => Some(v@), None => None }, dry_run),
{
    let mut log: Vec<String> = Vec::new();
    push_line(&mut log, cat("Vérification: ", dir));
    let ghost head = texts(log@);
    match entries {
        None => push_line(&mut log, text("  Aucun LaunchAgent utilisateur trouvé.")),
        Some(es) => {
            let count = removed_lines_of(es, dry_run, &mut log);
            let mut line = String::new();
            push_decimal(&mut line, count);
            push_str(&mut line, " agent(s) utilisateur ");
            push_str(&mut line, if dry_run { "trouvé(s)." } else { "supprimé(s)." });
            push_line(&mut log, line);
        },
    }
    assert(texts(log@) =~= remove_user_spec(dir@, match entries { Some(v) => Some(v@), None => None }, dry_run));
    log
}

/// The report of removing every startup definition, folder by folder (the
/// folder, and its definitions when it could be read).
pub open spec fn remove_all_spec(dirs: Seq<(String, Option<Vec<(String, Option<String>, Option<String>)>>)>, dry_run: bool) -> Seq<Seq<char>>
    decreases dirs.len(),
{
    if dirs.len() == 0 {
        Seq::empty()
    } else {
        let d = dirs.last();
        remove_all_spec(dirs.drop_last(), dry_run) + seq!["Vérification: "@ + d.0@] + match d.1 {
            None => Seq::empty(),
            Some(es) => {
                let r = removed_lines(es@, dry_run);
                r.0.push("  "@ + decimal(r.1) + " "@ + (if dry_run { "trouvé(s)"@ } else { "supprimé(s)"@ }) + " dans "@ + d.0@)
            },
        }
    }
}

/// Reports removing every startup definition.
pub fn remove_all_launch_items(dirs: &Vec<(String, Option<Vec<(String, Option<String>, Option<String>)>>)>, dry_run: bool) -> (r: Vec<String>)
    ensures
        texts(r@) == remove_all_spec(dirs@, dry_run),
{
    let mut log: Vec<String> = Vec::new();
    let mut i: usize = 0;
    while i < dirs.len()
        invariant
            i <= dirs@.len(),
            texts(log@) == remove_all_spec(dirs@.take(i as int), dry_run),
        decreases dirs@.len() - i,
    {
        assert(dirs@.take(i + 1).drop_last() =~= dirs@.take(i as int));
        let ghost start = texts(log@);
        push_line(&mut log, cat("Vérification: ", dirs[i].0.as_str()));
        let ghost head = texts(log@);
        match &dirs[i].1 {
            None => {},
            Some(es) => {
                let count = removed_lines_of(es, dry_run, &mut log);
                let mut line = text("  ");
                push_decimal(&mut line, count);
                push_str(&mut line, " ");
                push_str(&mut line, if dry_run { "trouvé(s)" } else { "supprimé(s)" });
                push_str(&mut line, " dans ");
                push_str(&mut line, dirs[i].0.as_str());
                push_line(&mut log, line);
            },
        }
        proof {
            let d = dirs@[i as int];
            assert(dirs@.take(i + 1).last() == d);
            match d.1 {
                None => assert(texts(log@) =~= start + seq!["Vérification: "@ + d.0@]),
                Some(es) => {
                    let r = removed_lines(es@, dry_run);
                    assert(texts(log@) =~= start + seq!["Vérification: "@ + d.0@] + r.0.push("  "@ + decimal(r.1) + " "@
                        + (if dry_run { "trouvé(s)"@ } else { "supprimé(s)"@ }) + " dans "@ + d.0@));
                },
            }
        }
        i += 1;
    }
    assert(dirs@.take(dirs@.len() as int) =~= dirs@);
    log
}

} // verus!
