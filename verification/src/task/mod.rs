//! Maintenance tasks, independent of how results are displayed.

pub mod agents;
pub mod clean;
pub mod docker;
pub mod journal;
pub mod maintenance;
pub mod orphans;
pub mod ram;
pub mod scan;
pub mod schedule;
pub mod sizes;

use vstd::prelude::*;
use crate::config::Excludes;
use crate::sys::fsx::{Disposal, Policy};
use crate::text::push_str;
use crate::ui::Printer;

verus! {

/// Context shared by every task.
#[derive(Debug, Clone, Copy)]
pub struct Ctx {
    /// Measure only, change nothing.
    pub dry_run: bool,
    /// Answer yes to every confirmation.
    pub yes: bool,
    /// Machine-readable output: no interactive prompt is possible.
    pub json: bool,
    /// `--purge` was given.
    pub purge: bool,
    /// What a deletion does, once the command line and the configuration agree.
    pub disposal: Disposal,
    pub printer: Printer,
}

/// What to do about a confirmation.
#[derive(Debug, Clone, PartialEq, Eq)]
pub enum Confirmation {
    /// Go ahead without asking.
    Granted,
    /// Do not go ahead; the message goes to stderr.
    Refused(String),
    /// Ask the person at the terminal.
    Ask,
}

impl Ctx {
    /// A confirmation is granted when simulating or with `--yes`, refused under
    /// `--json` (nobody can answer), and asked for otherwise.
    pub fn confirm(&self) -> (r: Confirmation)
        ensures
            (self.dry_run || self.yes) ==> r == Confirmation::Granted,
            !(self.dry_run || self.yes) && self.json ==> (r matches Confirmation::Refused(m) && m@
                == "confirmation required: add --yes when using --json."@),
            !(self.dry_run || self.yes) && !self.json ==> r == Confirmation::Ask,
    {
        if self.dry_run || self.yes {
            return Confirmation::Granted;
        }
        if self.json {
            let mut m = String::new();
            push_str(&mut m, "confirmation required: add --yes when using --json.");
            return Confirmation::Refused(m);
        }
        Confirmation::Ask
    }

    /// How removals behave in this run.
    pub fn policy<'a>(&self, excludes: &'a Excludes) -> (r: Policy<'a>)
        ensures
            r.dry_run == self.dry_run,
            r.disposal == self.disposal,
            r.excludes == excludes,
    {
        Policy::new(self.dry_run, self.disposal, excludes)
    }
}

/// Final state of an operation.
#[derive(Debug, Clone, Copy, PartialEq, Eq, Structural)]
pub enum Status {
    /// Carried out.
    Succeeded,
    /// Simulated (`--dry-run`).
    Simulated,
    /// Not applicable (missing tool, empty directory, user declined).
    Skipped,
    /// Failed.
    Failed,
}

impl Status {
    /// Status of a successful operation, depending on the mode.
    pub fn done(dry_run: bool) -> (r: Self)
        ensures
            r == (if dry_run { Status::Simulated } else { Status::Succeeded }),
    {
        if dry_run {
            Status::Simulated
        } else {
            Status::Succeeded
        }
    }

    pub fn is_failure(self) -> (r: bool)
        ensures
            r == (self == Status::Failed),
    {
        match self {
            Status::Failed => true,
            _ => false,
        }
    }
}

/// Generic result of a system action.
#[derive(Debug, Clone)]
pub struct Outcome {
    pub action: String,
    pub status: Status,
    pub messages: Vec<String>,
}

/// The character sequences held by a list of strings.
pub open spec fn texts(v: Seq<String>) -> Seq<Seq<char>> {
    v.map_values(|x: String| x@)
}

fn owned(s: &str) -> (r: String)
    ensures
        r@ == s@,
{
    let mut r = String::new();
    push_str(&mut r, s);
    r
}

impl Outcome {
    pub fn new(action: &str, status: Status) -> (r: Self)
        ensures
            r.action@ == action@,
            r.status == status,
            r.messages@.len() == 0,
    {
        Outcome { action: owned(action), status, messages: Vec::new() }
    }

    pub fn ok(action: &str, dry_run: bool) -> (r: Self)
        ensures
            r.action@ == action@,
            r.status == (if dry_run { Status::Simulated } else { Status::Succeeded }),
            r.messages@.len() == 0,
    {
        Self::new(action, Status::done(dry_run))
    }

    pub fn skipped(action: &str, reason: &str) -> (r: Self)
        ensures
            r.action@ == action@,
            r.status == Status::Skipped,
            texts(r.messages@) == seq![reason@],
    {
        Self::new(action, Status::Skipped).with(reason)
    }

    pub fn failed(action: &str, reason: &str) -> (r: Self)
        ensures
            r.action@ == action@,
            r.status == Status::Failed,
            texts(r.messages@) == seq![reason@],
    {
        Self::new(action, Status::Failed).with(reason)
    }

    pub fn with(self, message: &str) -> (r: Self)
        ensures
            r.action == self.action,
            r.status == self.status,
            texts(r.messages@) == texts(self.messages@).push(message@),
    {
        let mut r = self;
        r.push(message);
        r
    }

    pub fn push(&mut self, message: &str)
        ensures
            final(self).action == old(self).action,
            final(self).status == old(self).status,
            texts(final(self).messages@) == texts(old(self).messages@).push(message@),
    {
        let ghost before = texts(self.messages@);
        self.messages.push(owned(message));
        assert(texts(self.messages@) =~= before.push(message@));
    }

    /// Renders the outcome as lines of text, each with whether it goes to
    /// standard error: the action marked by its status, then each message
    /// dimmed, as the printer writes them.
    pub fn render(&self, printer: &Printer) -> (r: Vec<(bool, String)>)
        ensures
            rendered(r@) == render_spec(*self, *printer),
    {
        let mut out: Vec<(bool, String)> = Vec::new();
        let head: Option<(bool, String)> = match self.status {
            Status::Succeeded => match printer.success(self.action.as_str()) {
                Some(l) => Some((false, l)),
                None => None,
            },
            Status::Simulated => {
                let mut a = owned(self.action.as_str());
                push_str(&mut a, " [dry run]");
                match printer.success(a.as_str()) {
                    Some(l) => Some((false, l)),
                    None => None,
                }
            },
            Status::Skipped => match printer.skipped(self.action.as_str()) {
                Some(l) => Some((false, l)),
                None => None,
            },
            Status::Failed => Some((true, printer.error(self.action.as_str()))),
        };
        match head {
            Some(h) => out.push(h),
            None => {},
        }
        let ghost start = rendered(out@);
        assert(start =~= head_spec(*self, *printer));
        let mut i: usize = 0;
        while i < self.messages.len()
            invariant
                i <= self.messages@.len(),
                start == head_spec(*self, *printer),
                rendered(out@) == start + message_lines(texts(self.messages@).take(i as int), *printer),
            decreases self.messages@.len() - i,
        {
            assert(texts(self.messages@).take(i + 1).drop_last() =~= texts(self.messages@).take(i as int));
            let dimmed = printer.dim(self.messages[i].as_str());
            let ghost before = rendered(out@);
            match printer.item(dimmed.as_str()) {
                Some(l) => {
                    out.push((false, l));
                    assert(rendered(out@) =~= before.push((false, "  "@ + crate::ui::painted(printer.color, crate::ui::DIM@, self.messages@[i as int]@))));
                },
                None => {
                    assert(rendered(out@) =~= before);
                },
            }
            i += 1;
        }
        assert(texts(self.messages@).take(self.messages@.len() as int) =~= texts(self.messages@));
        out
    }
}

/// Lines as plain values.
pub open spec fn rendered(v: Seq<(bool, String)>) -> Seq<(bool, Seq<char>)> {
    v.map_values(|l: (bool, String)| (l.0, l.1@))
}

/// The status line of an outcome: a tick (with `[dry run]` when simulated),
/// a dash, or a cross on standard error; the first two not when quiet.
pub open spec fn head_spec(o: Outcome, p: Printer) -> Seq<(bool, Seq<char>)> {
    match o.status {
        Status::Succeeded => if p.quiet { Seq::empty() } else {
            seq![(false, crate::ui::painted(p.color, crate::ui::GREEN@, "✓"@) + " "@ + o.action@)]
        },
        Status::Simulated => if p.quiet { Seq::empty() } else {
            seq![(false, crate::ui::painted(p.color, crate::ui::GREEN@, "✓"@) + " "@ + (o.action@ + " [dry run]"@))]
        },
        Status::Skipped => if p.quiet { Seq::empty() } else {
            seq![(false, crate::ui::painted(p.color, crate::ui::BLUE@, "–"@) + " "@ + o.action@)]
        },
        Status::Failed => seq![(true, crate::ui::painted(p.color, crate::ui::RED@, "✗"@) + " "@ + o.action@)],
    }
}

/// The message lines: each one dimmed and indented, none when quiet.
pub open spec fn message_lines(ms: Seq<Seq<char>>, p: Printer) -> Seq<(bool, Seq<char>)>
    decreases ms.len(),
{
    if ms.len() == 0 || p.quiet {
        Seq::empty()
    } else {
        message_lines(ms.drop_last(), p).push((false, "  "@ + crate::ui::painted(p.color, crate::ui::DIM@, ms.last())))
    }
}

/// What rendering an outcome writes.
pub open spec fn render_spec(o: Outcome, p: Printer) -> Seq<(bool, Seq<char>)> {
    head_spec(o, p) + message_lines(texts(o.messages@), p)
}

} // verus!
