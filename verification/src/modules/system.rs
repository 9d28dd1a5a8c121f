//! One-off system operations, each reported line by line.

use vstd::prelude::*;
use crate::sys::cmd::{signed_decimal, Output};
use crate::text::{chars_of, chars_eq, lines, lines_of, push_str, starts_with, string_of, trim, trim_chars, has_prefix};

verus! {

/// Whether `id -u` answered that this is the superuser.
pub fn is_root(id: &Result<Output, String>) -> (r: bool)
    ensures
        r == (id matches Ok(o) && trim(o.stdout@) == "0"@),
{
    match id {
        Ok(o) => chars_eq(trim_chars(chars_of(o.stdout.as_str()).as_slice()).as_slice(), chars_of("0").as_slice()),
        Err(_) => false,
    }
}

/// What running a command gives a report: its trimmed output when it
/// succeeded; else its trimmed error output, or its exit code when it said
/// nothing; or why it could not be run at all.
pub open spec fn run_cmd_spec(outcome: Result<Output, String>) -> Result<Seq<char>, Seq<char>> {
    match outcome {
        Ok(o) => if o.code == 0 {
            Ok(trim(o.stdout@))
        } else if trim(o.stderr@).len() == 0 {
            Err("Erreur (code "@ + signed_decimal(o.code as int) + ")"@)
        } else {
            Err(trim(o.stderr@))
        },
        Err(e) => Err(e@),
    }
}

/// The result of a command, as plain text.
pub open spec fn result_view(r: Result<String, String>) -> Result<Seq<char>, Seq<char>> {
    match r {
        Ok(x) => Ok(x@),
        Err(e) => Err(e@),
    }
}

/// What running a command gives a report.
pub fn run_cmd(outcome: Result<Output, String>) -> (r: Result<String, String>)
    ensures
        result_view(r) == run_cmd_spec(outcome),
{
    match outcome {
        Ok(o) => {
            if o.code == 0 {
                Ok(string_of(trim_chars(chars_of(o.stdout.as_str()).as_slice()).as_slice()))
            } else {
                let err = trim_chars(chars_of(o.stderr.as_str()).as_slice());
                if err.len() == 0 {
                    let mut m = String::new();
                    push_str(&mut m, "Erreur (code ");
                    crate::sys::cmd::push_signed(&mut m, o.code);
                    push_str(&mut m, ")");
                    Err(m)
                } else {
                    Err(string_of(err.as_slice()))
                }
            }
        },
        Err(e) => Err(e),
    }
}

/// Where an operation stands before any command runs.
#[derive(Debug, Clone)]
pub enum Report {
    /// Nothing to run: the report is complete.
    Done(Vec<String>),
    /// The commands are to be run; the report so far.
    Run(Vec<String>),
}

/// The views of a report's lines.
pub open spec fn report_view(r: Report) -> (bool, Seq<Seq<char>>) {
    match r {
        Report::Done(l) => (true, crate::task::texts(l@)),
        Report::Run(l) => (false, crate::task::texts(l@)),
    }
}

fn owned(s: &str) -> (r: String)
    ensures
        r@ == s@,
{
    let mut r = String::new();
    push_str(&mut r, s);
    r
}

fn line2(a: &str, b: &str) -> (r: String)
    ensures
        r@ == a@ + b@,
{
    let mut r = owned(a);
    push_str(&mut r, b);
    r
}

/// The line asking for the superuser.
pub open spec fn needs_sudo() -> Seq<char> {
    "Nécessite sudo. Relancez avec: sudo detox-mac"@
}

/// Flushing the DNS cache: refused without the superuser, simulated when
/// asked, otherwise the two commands are run.
pub fn flush_dns(is_root: bool, dry_run: bool) -> (r: Report)
    ensures
        !is_root ==> report_view(r) == (true, seq![needs_sudo()]),
        is_root && dry_run ==> report_view(r) == (true, seq!["[SIMULATION] Flush DNS"@,
            "  dscacheutil -flushcache"@, "  killall -HUP mDNSResponder"@]),
        is_root && !dry_run ==> report_view(r) == (false, seq!["Flush du cache DNS..."@]),
{
    if !is_root {
        let r = Report::Done(vec![owned("Nécessite sudo. Relancez avec: sudo detox-mac")]);
        assert(report_view(r).1 =~= seq![needs_sudo()]);
        return r;
    }
    if dry_run {
        let r = Report::Done(vec![
            owned("[SIMULATION] Flush DNS"),
            owned("  dscacheutil -flushcache"),
            owned("  killall -HUP mDNSResponder"),
        ]);
        assert(report_view(r).1 =~= seq!["[SIMULATION] Flush DNS"@, "  dscacheutil -flushcache"@, "  killall -HUP mDNSResponder"@]);
        return r;
    }
    let r = Report::Run(vec![owned("Flush du cache DNS...")]);
    assert(report_view(r).1 =~= seq!["Flush du cache DNS..."@]);
    r
}

/// The line for one command of an operation: `OK`, or its error.
pub open spec fn status_line(name: Seq<char>, ok: Seq<char>, r: Result<Seq<char>, Seq<char>>) -> Seq<char> {
    match r {
        Ok(_) => name + ok,
        Err(e) => name + e,
    }
}

fn push_line(log: &mut Vec<String>, line: String)
    ensures
        crate::task::texts(final(log)@) == crate::task::texts(old(log)@).push(line@),
{
    let ghost before = crate::task::texts(log@);
    log.push(line);
    assert(crate::task::texts(log@) =~= before.push(line@));
}

fn status(name: &str, ok: &str, r: Result<String, String>) -> (s: String)
    ensures
        s@ == status_line(name@, ok@, result_view(r)),
{
    match r {
        Ok(_) => line2(name, ok),
        Err(e) => line2(name, e.as_str()),
    }
}

/// The end of the DNS report, given what the two commands gave.
pub fn dns_flushed(log: Vec<String>, dscacheutil: Result<String, String>, mdns: Result<String, String>) -> (r: Vec<String>)
    ensures
        crate::task::texts(r@) == crate::task::texts(log@) + seq![
            status_line("  dscacheutil: "@, "OK"@, result_view(dscacheutil)),
            status_line("  mDNSResponder: "@, "OK"@, result_view(mdns)),
            "Cache DNS vidé."@,
        ],
{
    let ghost start = crate::task::texts(log@);
    let mut log = log;
    push_line(&mut log, status("  dscacheutil: ", "OK", dscacheutil));
    push_line(&mut log, status("  mDNSResponder: ", "OK", mdns));
    push_line(&mut log, owned("Cache DNS vidé."));
    assert(crate::task::texts(log@) =~= start + seq![
        status_line("  dscacheutil: "@, "OK"@, result_view(dscacheutil)),
        status_line("  mDNSResponder: "@, "OK"@, result_view(mdns)),
        "Cache DNS vidé."@,
    ]);
    log
}

/// Freeing purgeable space: simulated when asked, otherwise `tmutil` runs.
pub fn free_purgeable_space(dry_run: bool) -> (r: Report)
    ensures
        dry_run ==> report_view(r) == (true, seq!["[SIMULATION] Libération espace purgeable"@,
            "  tmutil thinlocalsnapshots / 999999999999 4"@]),
        !dry_run ==> report_view(r) == (false, seq!["Libération de l'espace purgeable..."@]),
{
    if dry_run {
        let r = Report::Done(vec![
            owned("[SIMULATION] Libération espace purgeable"),
            owned("  tmutil thinlocalsnapshots / 999999999999 4"),
        ]);
        assert(report_view(r).1 =~= seq!["[SIMULATION] Libération espace purgeable"@, "  tmutil thinlocalsnapshots / 999999999999 4"@]);
        return r;
    }
    let r = Report::Run(vec![owned("Libération de l'espace purgeable...")]);
    assert(report_view(r).1 =~= seq!["Libération de l'espace purgeable..."@]);
    r
}

/// The end of the purgeable-space report: `OK` and what `tmutil` said, if
/// anything, or its error.
pub fn purgeable_freed(log: Vec<String>, tmutil: Result<String, String>) -> (r: Vec<String>)
    ensures
        crate::task::texts(r@) == crate::task::texts(log@) + match result_view(tmutil) {
            Ok(msg) => if msg.len() == 0 { seq!["  OK"@] } else { seq!["  OK"@, "  "@ + msg] },
            Err(e) => seq!["  Erreur: "@ + e],
        },
{
    let ghost start = crate::task::texts(log@);
    let mut log = log;
    match tmutil {
        Ok(msg) => {
            push_line(&mut log, owned("  OK"));
            if !msg.as_str().is_empty() {
                push_line(&mut log, line2("  ", msg.as_str()));
            }
        },
        Err(e) => push_line(&mut log, line2("  Erreur: ", e.as_str())),
    }
    proof {
        match result_view(tmutil) {
            Ok(msg) => if msg.len() == 0 {
                assert(crate::task::texts(log@) =~= start + seq!["  OK"@]);
            } else {
                assert(crate::task::texts(log@) =~= start + seq!["  OK"@, "  "@ + msg]);
            },
            Err(e) => assert(crate::task::texts(log@) =~= start + seq!["  Erreur: "@ + e]),
        }
    }
    log
}

/// Rebuilding the Spotlight index: refused without the superuser, simulated
/// when asked, otherwise `mdutil` runs.
pub fn reindex_spotlight(is_root: bool, dry_run: bool) -> (r: Report)
    ensures
        !is_root ==> report_view(r) == (true, seq![needs_sudo()]),
        is_root && dry_run ==> report_view(r) == (true, seq!["[SIMULATION] Réindexation Spotlight"@, "  mdutil -E /"@]),
        is_root && !dry_run ==> report_view(r) == (false, seq!["Réindexation de Spotlight..."@]),
{
    if !is_root {
        let r = Report::Done(vec![owned("Nécessite sudo. Relancez avec: sudo detox-mac")]);
        assert(report_view(r).1 =~= seq![needs_sudo()]);
        return r;
    }
    if dry_run {
        let r = Report::Done(vec![owned("[SIMULATION] Réindexation Spotlight"), owned("  mdutil -E /")]);
        assert(report_view(r).1 =~= seq!["[SIMULATION] Réindexation Spotlight"@, "  mdutil -E /"@]);
        return r;
    }
    let r = Report::Run(vec![owned("Réindexation de Spotlight...")]);
    assert(report_view(r).1 =~= seq!["Réindexation de Spotlight..."@]);
    r
}

/// The end of a report whose one command either worked or failed.
pub open spec fn ended(log: Seq<Seq<char>>, ok: Seq<char>, r: Result<Seq<char>, Seq<char>>) -> Seq<Seq<char>> {
    match r {
        Ok(_) => log.push(ok),
        Err(e) => log.push("  Erreur: "@ + e),
    }
}

fn end_with(log: Vec<String>, ok: &str, r: Result<String, String>) -> (out: Vec<String>)
    ensures
        crate::task::texts(out@) == ended(crate::task::texts(log@), ok@, result_view(r)),
{
    let mut log = log;
    match r {
        Ok(_) => push_line(&mut log, owned(ok)),
        Err(e) => push_line(&mut log, line2("  Erreur: ", e.as_str())),
    }
    log
}

/// The end of the Spotlight report.
pub fn spotlight_reindexed(log: Vec<String>, mdutil: Result<String, String>) -> (r: Vec<String>)
    ensures
        crate::task::texts(r@) == ended(crate::task::texts(log@), "  Index Spotlight réinitialisé."@, result_view(mdutil)),
{
    end_with(log, "  Index Spotlight réinitialisé.", mdutil)
}

/// Purging inactive memory: refused without the superuser, simulated when
/// asked, otherwise `purge` runs.
pub fn purge_ram(is_root: bool, dry_run: bool) -> (r: Report)
    ensures
        !is_root ==> report_view(r) == (true, seq![needs_sudo()]),
        is_root && dry_run ==> report_view(r) == (true, seq!["[SIMULATION] Purge RAM"@, "  purge"@]),
        is_root && !dry_run ==> report_view(r) == (false, seq!["Purge de la RAM inactive..."@]),
{
    if !is_root {
        let r = Report::Done(vec![owned("Nécessite sudo. Relancez avec: sudo detox-mac")]);
        assert(report_view(r).1 =~= seq![needs_sudo()]);
        return r;
    }
    if dry_run {
        let r = Report::Done(vec![owned("[SIMULATION] Purge RAM"), owned("  purge")]);
        assert(report_view(r).1 =~= seq!["[SIMULATION] Purge RAM"@, "  purge"@]);
        return r;
    }
    let r = Report::Run(vec![owned("Purge de la RAM inactive...")]);
    assert(report_view(r).1 =~= seq!["Purge de la RAM inactive..."@]);
    r
}

/// The end of the memory report.
pub fn ram_purged(log: Vec<String>, purge: Result<String, String>) -> (r: Vec<String>)
    ensures
        crate::task::texts(r@) == ended(crate::task::texts(log@), "  RAM purgée."@, result_view(purge)),
{
    end_with(log, "  RAM purgée.", purge)
}

/// Whether a line of `softwareupdate -l` is worth reporting.
pub open spec fn update_line(line: Seq<char>) -> bool {
    let t = trim(line);
    t.len() > 0 && !has_prefix(t, "Software Update"@) && !has_prefix(t, "Finding"@)
}

/// The lines reported from `softwareupdate -l`, indented.
pub open spec fn update_lines(ls: Seq<Seq<char>>) -> Seq<Seq<char>>
    decreases ls.len(),
{
    if ls.len() == 0 {
        Seq::empty()
    } else {
        let rest = update_lines(ls.drop_last());
        if update_line(ls.last()) {
            rest.push("  "@ + trim(ls.last()))
        } else {
            rest
        }
    }
}

/// The update report, from what `softwareupdate -l` printed (its output and
/// error output, trimmed: the error output when there is one) or why it
/// could not run.
pub open spec fn check_updates_spec(run: Result<(Seq<char>, Seq<char>), Seq<char>>) -> Seq<Seq<char>> {
    seq!["Vérification des mises à jour macOS..."@] + match run {
        Ok((stdout, stderr)) => {
            let out = if trim(stderr).len() > 0 { trim(stderr) } else { trim(stdout) };
            if crate::text::contains_sub(out, "No new software available"@) || crate::text::contains_sub(out, "No updates"@) {
                seq!["  Système à jour."@]
            } else {
                update_lines(lines(out))
            }
        },
        Err(e) => seq!["  Erreur: "@ + e],
    }
}

/// The report of a check for macOS updates.
pub fn check_updates(run: Result<(String, String), String>) -> (r: Vec<String>)
    ensures
        crate::task::texts(r@) == check_updates_spec(match run {
            Ok((o, e)) => Ok((o@, e@)),
            Err(e) => Err(e@),
        }),
{
    let mut log: Vec<String> = Vec::new();
    push_line(&mut log, owned("Vérification des mises à jour macOS..."));
    let ghost head = crate::task::texts(log@);
    assert(head =~= seq!["Vérification des mises à jour macOS..."@]);
    match run {
        Ok((stdout, stderr)) => {
            let e = trim_chars(chars_of(stderr.as_str()).as_slice());
            let out = if e.len() > 0 { e } else { trim_chars(chars_of(stdout.as_str()).as_slice()) };
            if crate::text::contains_chars(out.as_slice(), chars_of("No new software available").as_slice()) || crate::text::contains_chars(out.as_slice(), chars_of("No updates").as_slice()) {
                push_line(&mut log, owned("  Système à jour."));
                assert(crate::task::texts(log@) =~= head + seq!["  Système à jour."@]);
            } else {
                let ls = lines_of(out.as_slice());
                let mut i: usize = 0;
                while i < ls.len()
                    invariant
                        i <= ls@.len(),
                        crate::text::views(ls@) == lines(out@),
                        crate::task::texts(log@) == head + update_lines(crate::text::views(ls@).take(i as int)),
                    decreases ls@.len() - i,
                {
                    assert(crate::text::views(ls@).take(i + 1).drop_last() =~= crate::text::views(ls@).take(i as int));
                    let t = trim_chars(ls[i].as_slice());
                    if t.len() > 0 && !starts_with(t.as_slice(), chars_of("Software Update").as_slice())
                        && !starts_with(t.as_slice(), chars_of("Finding").as_slice()) {
                        let mut line = owned("  ");
                        crate::text::push_chars(&mut line, t.as_slice());
                        let ghost before = crate::task::texts(log@);
                        push_line(&mut log, line);
                        assert(crate::task::texts(log@) =~= before.push("  "@ + trim(ls@[i as int]@)));
                    }
                    i += 1;
                }
                assert(crate::text::views(ls@).take(ls@.len() as int) =~= crate::text::views(ls@));
            }
        },
        Err(e) => {
            push_line(&mut log, line2("  Erreur: ", e.as_str()));
            assert(crate::task::texts(log@) =~= head + seq!["  Erreur: "@ + e@]);
        },
    }
    log
}

} // verus!
