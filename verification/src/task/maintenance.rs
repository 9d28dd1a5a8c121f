//! One-off system operations: DNS, Spotlight, memory, snapshots, updates.
//!
//! Each one is decided here and carried out by whoever runs the commands:
//! the decision says whether to run anything, the report says what came of
//! it.

use vstd::prelude::*;
use crate::sys::cmd::Output;
use crate::task::{texts, Ctx, Outcome, Status};
use crate::text::{
    chars_of, contains_str, contains_sub, has_prefix, lines, lines_of, push_str, starts_with,
    string_of, trim, trim_chars, views,
};

verus! {

/// What to do for a system operation.
#[derive(Debug)]
pub enum Step {
    /// Nothing to run; this is the outcome.
    Done(Outcome),
    /// Run the commands, then report what they gave.
    Run,
}

/// Why an operation that needs root was not run.
pub open spec fn needs_sudo() -> Seq<char> {
    "nécessite sudo — relancez la commande avec sudo"@
}

/// Flushing the DNS cache needs root; a simulation lists the commands.
pub fn flush_dns(ctx: &Ctx, is_root: bool) -> (r: Step)
    ensures
        !is_root ==> (r matches Step::Done(o) && o.action@ == "Cache DNS"@ && o.status == Status::Skipped
            && texts(o.messages@) == seq![needs_sudo()]),
        is_root && ctx.dry_run ==> (r matches Step::Done(o) && o.action@ == "Cache DNS"@ && o.status
            == Status::Simulated && texts(o.messages@) == seq!["dscacheutil -flushcache"@, "killall -HUP mDNSResponder"@]),
        is_root && !ctx.dry_run ==> r is Run,
{
    if !is_root {
        return Step::Done(Outcome::skipped("Cache DNS", "nécessite sudo — relancez la commande avec sudo"));
    }
    if ctx.dry_run {
        let o = Outcome::new("Cache DNS", Status::Simulated).with("dscacheutil -flushcache").with("killall -HUP mDNSResponder");
        assert(texts(o.messages@) =~= seq!["dscacheutil -flushcache"@, "killall -HUP mDNSResponder"@]);
        return Step::Done(o);
    }
    Step::Run
}

/// Reports the DNS flush: `dscacheutil -flushcache`, then (only when it
/// went through) `killall -HUP mDNSResponder`; the first failure ends it.
pub fn dns_flushed(dscacheutil: Result<(), String>, killall: Option<Result<(), String>>) -> (r: Outcome)
    requires
        dscacheutil is Ok <==> killall is Some,
    ensures
        r.action@ == "Cache DNS"@,
        dscacheutil matches Err(e) ==> r.status == Status::Failed && texts(r.messages@) == seq!["dscacheutil : "@ + e@],
        killall matches Some(Err(e)) ==> r.status == Status::Failed && texts(r.messages@) == seq!["killall : "@ + e@],
        killall matches Some(Ok(_)) ==> r.status == Status::Succeeded && texts(r.messages@) == seq!["dscacheutil : ok"@, "killall : ok"@],
{
    match dscacheutil {
        Err(e) => {
            let mut m = String::new();
            push_str(&mut m, "dscacheutil : ");
            push_str(&mut m, e.as_str());
            return Outcome::failed("Cache DNS", m.as_str());
        },
        Ok(()) => {},
    }
    let mut outcome = Outcome::ok("Cache DNS", false);
    outcome.push("dscacheutil : ok");
    match killall {
        Some(Err(e)) => {
            let mut m = String::new();
            push_str(&mut m, "killall : ");
            push_str(&mut m, e.as_str());
            Outcome::failed("Cache DNS", m.as_str())
        },
        _ => {
            outcome.push("killall : ok");
            outcome
        },
    }
}

/// Resetting the Spotlight index of the root volume needs root.
pub fn reindex_spotlight(ctx: &Ctx, is_root: bool) -> (r: Step)
    ensures
        !is_root ==> (r matches Step::Done(o) && o.action@ == "Index Spotlight"@ && o.status == Status::Skipped
            && texts(o.messages@) == seq![needs_sudo()]),
        is_root && ctx.dry_run ==> (r matches Step::Done(o) && o.action@ == "Index Spotlight"@ && o.status
            == Status::Simulated && texts(o.messages@) == seq!["mdutil -E /"@]),
        is_root && !ctx.dry_run ==> r is Run,
{
    if !is_root {
        return Step::Done(Outcome::skipped("Index Spotlight", "nécessite sudo — relancez la commande avec sudo"));
    }
    if ctx.dry_run {
        return Step::Done(Outcome::new("Index Spotlight", Status::Simulated).with("mdutil -E /"));
    }
    Step::Run
}

/// The first output of a command that is not empty.
pub open spec fn text_of(o: Output) -> Seq<char> {
    if o.stdout@.len() == 0 {
        o.stderr@
    } else {
        o.stdout@
    }
}

/// Reports `mdutil -E /`: what it said, or its error.
pub fn spotlight_reindexed(result: Result<Output, String>) -> (r: Outcome)
    ensures
        r.action@ == "Index Spotlight"@,
        result matches Ok(o) ==> r.status == Status::Succeeded && texts(r.messages@) == seq![text_of(o)],
        result matches Err(e) ==> r.status == Status::Failed && texts(r.messages@) == seq![e@],
{
    match result {
        Ok(o) => Outcome::ok("Index Spotlight", false).with(o.text()),
        Err(e) => Outcome::failed("Index Spotlight", e.as_str()),
    }
}

/// Freeing inactive memory needs root.
pub fn purge_memory(ctx: &Ctx, is_root: bool) -> (r: Step)
    ensures
        !is_root ==> (r matches Step::Done(o) && o.action@ == "Mémoire inactive"@ && o.status == Status::Skipped
            && texts(o.messages@) == seq![needs_sudo()]),
        is_root && ctx.dry_run ==> (r matches Step::Done(o) && o.action@ == "Mémoire inactive"@ && o.status
            == Status::Simulated && texts(o.messages@) == seq!["purge"@]),
        is_root && !ctx.dry_run ==> r is Run,
{
    if !is_root {
        return Step::Done(Outcome::skipped("Mémoire inactive", "nécessite sudo — relancez la commande avec sudo"));
    }
    if ctx.dry_run {
        return Step::Done(Outcome::new("Mémoire inactive", Status::Simulated).with("purge"));
    }
    Step::Run
}

/// Reports `purge`.
pub fn memory_purged(result: Result<(), String>) -> (r: Outcome)
    ensures
        r.action@ == "Mémoire inactive"@,
        result is Ok ==> r.status == Status::Succeeded && r.messages@.len() == 0,
        result matches Err(e) ==> r.status == Status::Failed && texts(r.messages@) == seq![e@],
{
    match result {
        Ok(()) => Outcome::ok("Mémoire inactive", false),
        Err(e) => Outcome::failed("Mémoire inactive", e.as_str()),
    }
}

/// Thinning the local Time Machine snapshots frees purgeable space.
pub fn thin_snapshots(ctx: &Ctx) -> (r: Step)
    ensures
        ctx.dry_run ==> (r matches Step::Done(o) && o.action@ == "Instantanés Time Machine locaux"@ && o.status
            == Status::Simulated && texts(o.messages@) == seq!["tmutil thinlocalsnapshots / 999999999999 4"@]),
        !ctx.dry_run ==> r is Run,
{
    if ctx.dry_run {
        return Step::Done(Outcome::new("Instantanés Time Machine locaux", Status::Simulated).with("tmutil thinlocalsnapshots / 999999999999 4"));
    }
    Step::Run
}

/// Reports `tmutil thinlocalsnapshots`: what it said, if anything.
pub fn snapshots_thinned(result: Result<Output, String>) -> (r: Outcome)
    ensures
        r.action@ == "Instantanés Time Machine locaux"@,
        result matches Ok(o) ==> r.status == Status::Succeeded && texts(r.messages@) == (if text_of(o).len() == 0 {
            Seq::empty()
        } else {
            seq![text_of(o)]
        }),
        result matches Err(e) ==> r.status == Status::Failed && texts(r.messages@) == seq![e@],
{
    match result {
        Ok(o) => {
            let mut outcome = Outcome::ok("Instantanés Time Machine locaux", false);
            let t = o.text();
            if !t.is_empty() {
                outcome.push(t);
            }
            outcome
        },
        Err(e) => Outcome::failed("Instantanés Time Machine locaux", e.as_str()),
    }
}

/// Removing the simulator devices whose runtime is no longer installed.
pub fn delete_simulators(ctx: &Ctx) -> (r: Step)
    ensures
        ctx.dry_run ==> (r matches Step::Done(o) && o.action@ == "Simulateurs"@ && o.status == Status::Simulated
            && texts(o.messages@) == seq!["xcrun simctl delete unavailable"@]),
        !ctx.dry_run ==> r is Run,
{
    if ctx.dry_run {
        return Step::Done(Outcome::new("Simulateurs", Status::Simulated).with("xcrun simctl delete unavailable"));
    }
    Step::Run
}

/// Reports `xcrun simctl delete unavailable`.
pub fn simulators_deleted(result: Result<(), String>) -> (r: Outcome)
    ensures
        r.action@ == "Simulateurs"@,
        result is Ok ==> r.status == Status::Succeeded && r.messages@.len() == 0,
        result matches Err(e) ==> r.status == Status::Failed && texts(r.messages@) == seq![e@],
{
    match result {
        Ok(()) => Outcome::ok("Simulateurs", false),
        Err(e) => Outcome::failed("Simulateurs", e.as_str()),
    }
}

/// Whether a line of `softwareupdate -l` says something worth showing.
pub open spec fn update_line(line: Seq<char>) -> bool {
    let t = trim(line);
    t.len() > 0 && !has_prefix(t, "Software Update Tool"@) && !has_prefix(t, "Finding available software"@)
}

/// The lines worth showing, trimmed, in order.
pub open spec fn update_lines(ls: Seq<Seq<char>>) -> Seq<Seq<char>>
    decreases ls.len(),
{
    if ls.len() == 0 {
        Seq::empty()
    } else {
        update_lines(ls.drop_last()) + (if update_line(ls.last()) {
            seq![trim(ls.last())]
        } else {
            Seq::empty()
        })
    }
}

/// Lists the macOS updates `softwareupdate -l` reports (it writes on stderr
/// and sometimes exits with an error, so both outputs are read whatever its
/// exit code).
pub fn check_updates(raw: Result<Output, String>) -> (r: Outcome)
    ensures
        r.action@ == "Mises à jour macOS"@,
        raw is Err ==> r.status == Status::Failed && texts(r.messages@) == seq!["softwareupdate est introuvable"@],
        raw matches Ok(o) ==> r.status == Status::Succeeded && ({
            let report = o.stdout@ + "\n"@ + o.stderr@;
            if contains_sub(report, "No new software available"@) {
                texts(r.messages@) == seq!["système à jour"@]
            } else if update_lines(lines(report)).len() == 0 {
                texts(r.messages@) == seq!["aucune information renvoyée par softwareupdate"@]
            } else {
                texts(r.messages@) == update_lines(lines(report))
            }
        }),
{
    let o = match raw {
        Ok(o) => o,
        Err(_) => {
            return Outcome::failed("Mises à jour macOS", "softwareupdate est introuvable");
        },
    };
    let mut report = o.stdout.clone();
    push_str(&mut report, "\n");
    push_str(&mut report, o.stderr.as_str());
    if contains_str(report.as_str(), "No new software available") {
        return Outcome::ok("Mises à jour macOS", false).with("système à jour");
    }
    let ls = lines_of(chars_of(report.as_str()).as_slice());
    let ghost all = lines(report@);
    let mut outcome = Outcome::ok("Mises à jour macOS", false);
    let tool = chars_of("Software Update Tool");
    let finding = chars_of("Finding available software");
    let mut i: usize = 0;
    while i < ls.len()
        invariant
            i <= ls@.len(),
            views(ls@) == all,
            tool@ == "Software Update Tool"@,
            finding@ == "Finding available software"@,
            outcome.action@ == "Mises à jour macOS"@,
            outcome.status == Status::Succeeded,
            texts(outcome.messages@) == update_lines(all.take(i as int)),
        decreases ls@.len() - i,
    {
        assert(all.take(i + 1).drop_last() =~= all.take(i as int));
        assert(all.take(i + 1).last() == ls@[i as int]@);
        let t = trim_chars(ls[i].as_slice());
        if t.len() > 0 && !starts_with(t.as_slice(), tool.as_slice()) && !starts_with(t.as_slice(), finding.as_slice()) {
            let line = string_of(t.as_slice());
            outcome.push(line.as_str());
        }
        assert(texts(outcome.messages@) =~= update_lines(all.take(i + 1)));
        i += 1;
    }
    assert(all.take(ls@.len() as int) =~= all);
    if outcome.messages.len() == 0 {
        outcome.push("aucune information renvoyée par softwareupdate");
        assert(texts(outcome.messages@) =~= seq!["aucune information renvoyée par softwareupdate"@]);
    }
    outcome
}

} // verus!
