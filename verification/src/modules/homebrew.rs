//! Homebrew's download cache, first generation.

use vstd::prelude::*;
use crate::modules::system::{report_view, Report};
use crate::modules::utils::{cat, format_size, format_size_spec, push_line, text};
use crate::sys::cmd::Output;
use crate::task::texts;
use crate::text::{chars_of, lines, lines_of, push_chars, trim, trim_chars, views};

verus! {

/// Cleaning Homebrew's cache: skipped when `brew` is not installed; the
/// cache size when it was measured; simulated when asked, otherwise
/// `brew cleanup --prune=all -s` runs.
pub fn clean_homebrew(installed: bool, cache: Option<u64>, dry_run: bool) -> (r: Report)
    ensures
        !installed ==> report_view(r) == (true, seq!["Homebrew n'est pas installé — ignoré."@]),
        installed ==> report_view(r) == (dry_run, seq!["Nettoyage du cache Homebrew..."@] + match cache {
            Some(s) => seq!["  Cache Homebrew: "@ + format_size_spec(s as nat)],
            None => Seq::empty(),
        } + if dry_run { seq!["  [SIMULATION] brew cleanup --prune=all -s"@] } else { Seq::empty() }),
{
    let mut log: Vec<String> = Vec::new();
    if !installed {
        push_line(&mut log, text("Homebrew n'est pas installé — ignoré."));
        let r = Report::Done(log);
        assert(report_view(r).1 =~= seq!["Homebrew n'est pas installé — ignoré."@]);
        return r;
    }
    push_line(&mut log, text("Nettoyage du cache Homebrew..."));
    match cache {
        Some(s) => push_line(&mut log, cat("  Cache Homebrew: ", format_size(s).as_str())),
        None => {},
    }
    if dry_run {
        push_line(&mut log, text("  [SIMULATION] brew cleanup --prune=all -s"));
    }
    let ghost lines_now = texts(log@);
    assert(lines_now =~= seq!["Nettoyage du cache Homebrew..."@] + match cache {
        Some(s) => seq!["  Cache Homebrew: "@ + format_size_spec(s as nat)],
        None => Seq::empty(),
    } + if dry_run { seq!["  [SIMULATION] brew cleanup --prune=all -s"@] } else { Seq::empty() });
    if dry_run {
        Report::Done(log)
    } else {
        Report::Run(log)
    }
}

/// The first ten lines of what `brew cleanup` printed, indented.
pub open spec fn shown_lines(ls: Seq<Seq<char>>) -> Seq<Seq<char>> {
    let n = if ls.len() < 10 { ls.len() as int } else { 10 };
    Seq::new(n as nat, |i: int| "  "@ + ls[i])
}

/// The end of the Homebrew report, given what `brew cleanup` gave.
pub open spec fn homebrew_end(r: Result<Output, String>) -> Seq<Seq<char>> {
    match r {
        Ok(o) => if o.code == 0 {
            (if trim(o.stdout@).len() > 0 { shown_lines(lines(trim(o.stdout@))) } else { Seq::empty() })
                + seq!["  Nettoyage Homebrew terminé."@]
        } else {
            seq!["  Erreur: "@ + trim(o.stderr@)]
        },
        Err(e) => seq!["  Erreur: "@ + e@],
    }
}

/// The end of the Homebrew report.
pub fn homebrew_cleaned(log: Vec<String>, cleanup: Result<Output, String>) -> (r: Vec<String>)
    ensures
        texts(r@) == texts(log@) + homebrew_end(cleanup),
{
    let ghost start = texts(log@);
    let mut log = log;
    match &cleanup {
        Ok(o) => {
            if o.code == 0 {
                let out = trim_chars(chars_of(o.stdout.as_str()).as_slice());
                if out.len() > 0 {
                    let ls = lines_of(out.as_slice());
                    let n: usize = if ls.len() < 10 { ls.len() } else { 10 };
                    let mut i: usize = 0;
                    while i < n
                        invariant
                            i <= n <= ls@.len(),
                            n == (if ls@.len() < 10 { ls@.len() as int } else { 10 }),
                            views(ls@) == lines(out@),
                            texts(log@) == start + shown_lines(views(ls@)).take(i as int),
                        decreases n - i,
                    {
                        let mut line = text("  ");
                        push_chars(&mut line, ls[i].as_slice());
                        let ghost before = texts(log@);
                        push_line(&mut log, line);
                        assert(shown_lines(views(ls@)).take(i + 1) =~= shown_lines(views(ls@)).take(i as int).push("  "@ + views(ls@)[i as int]));
                        i += 1;
                    }
                    assert(shown_lines(views(ls@)).take(n as int) =~= shown_lines(views(ls@)));
                }
                let ghost mid = texts(log@);
                push_line(&mut log, text("  Nettoyage Homebrew terminé."));
            } else {
                let mut line = text("  Erreur: ");
                push_chars(&mut line, trim_chars(chars_of(o.stderr.as_str()).as_slice()).as_slice());
                push_line(&mut log, line);
            }
        },
        Err(e) => push_line(&mut log, cat("  Erreur: ", e.as_str())),
    }
    assert(texts(log@) =~= start + homebrew_end(cleanup));
    log
}

} // verus!
