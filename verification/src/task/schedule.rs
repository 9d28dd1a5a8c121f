//! Running a cleanup on its own, through `launchd`.
//!
//! The tool already reads, writes, loads and unloads startup agents for other
//! people's software; this is it doing the same for itself.
//!
//! A scheduled run answers its own confirmations, so the second gate never
//! gets a chance to protect anything. That is why only targets that cost
//! nothing to lose can be scheduled, and why `--purge` cannot be.

use vstd::prelude::*;
use crate::config::{parent, parent_of};
use crate::format::{tilde, tilde_spec};
use crate::sys::fsx::{home_join, join_spec};
use crate::task::clean::{risk_of, slug_of, Risk, Target};
use crate::task::{texts, Ctx, Outcome, Status};
use crate::text::{
    chars_of, contains_str, contains_sub, decimal, has_prefix, has_suffix, lines, lines_of,
    push_chars, push_decimal, push_str, slice_to_vec, starts_with, ends_with, string_of, trim,
    trim_chars, views,
};

verus! {

/// Label of the agent this tool installs for itself.
pub const LABEL: &'static str = "com.detox-mac.cleanup";

/// How often the cleanup runs.
#[derive(Debug, Clone, Copy, PartialEq, Eq, Structural)]
pub enum Cadence {
    /// Every day.
    Daily,
    /// Every Sunday.
    Weekly,
    /// Remove the schedule.
    Off,
}

/// Where the agent definition lives, under the given home directory.
pub fn plist_path(home: &str) -> (r: String)
    ensures
        r@ == join_spec(home@, "Library/LaunchAgents/com.detox-mac.cleanup.plist"@),
{
    home_join(home, "Library/LaunchAgents/com.detox-mac.cleanup.plist")
}

/// Where a scheduled run writes what it did: beside the journal directory.
pub fn log_path(journal_dir: &str, home: &str) -> (r: String)
    ensures
        r@ == join_spec(
            match parent_of(journal_dir@) {
                Some(p) => p,
                None => home@,
            },
            "schedule.log"@,
        ),
{
    match parent(journal_dir) {
        Some(p) => home_join(p.as_str(), "schedule.log"),
        None => home_join(home, "schedule.log"),
    }
}

/// Words joined with `, `.
pub open spec fn comma_joined(ws: Seq<Seq<char>>) -> Seq<char>
    decreases ws.len(),
{
    if ws.len() == 0 {
        Seq::empty()
    } else if ws.len() == 1 {
        ws[0]
    } else {
        comma_joined(ws.drop_last()) + ", "@ + ws.last()
    }
}

/// The slugs of the targets that hold data, in order, among the first `n`.
pub open spec fn data_slugs(targets: Seq<Target>, n: int) -> Seq<Seq<char>>
    decreases n,
{
    if n <= 0 {
        Seq::empty()
    } else {
        data_slugs(targets, n - 1) + (if risk_of(targets[n - 1]) == Risk::Data {
            seq![slug_of(targets[n - 1])]
        } else {
            Seq::empty()
        })
    }
}

/// The slugs of the targets, in order.
pub open spec fn slugs(targets: Seq<Target>) -> Seq<Seq<char>> {
    targets.map_values(|t: Target| slug_of(t))
}

fn push_joined(out: &mut String, ws: &Vec<&'static str>)
    ensures
        final(out)@ == old(out)@ + comma_joined(ws@.map_values(|w: &str| w@)),
{
    let ghost base = out@;
    let ghost all = ws@.map_values(|w: &str| w@);
    let mut i: usize = 0;
    while i < ws.len()
        invariant
            i <= ws@.len(),
            all == ws@.map_values(|w: &str| w@),
            out@ == base + comma_joined(all.take(i as int)),
        decreases ws@.len() - i,
    {
        assert(all.take(i + 1).drop_last() =~= all.take(i as int));
        assert(all.take(i + 1).last() == ws@[i as int]@);
        if i > 0 {
            push_str(out, ", ");
        } else {
            assert(all.take(1) =~= seq![ws@[0]@]);
        }
        push_str(out, ws[i]);
        proof {
            if i > 0 {
                assert(out@ =~= base + comma_joined(all.take(i + 1)));
            } else {
                assert(out@ =~= base + comma_joined(all.take(i + 1)));
            }
        }
        i += 1;
    }
    assert(all.take(ws@.len() as int) =~= all);
}

/// What a scheduled run cleans when no target is named: the cache and the
/// logs.
pub fn default_targets() -> (r: Vec<Target>)
    ensures
        r@ == seq![Target::Cache, Target::Logs],
{
    vec![Target::Cache, Target::Logs]
}

proof fn lemma_no_data_slugs(targets: Seq<Target>, n: int)
    requires
        0 <= n <= targets.len(),
    ensures
        data_slugs(targets, n).len() == 0 <==> forall|i: int| 0 <= i < n ==> risk_of(#[trigger] targets[i]) != Risk::Data,
    decreases n,
{
    if n > 0 {
        lemma_no_data_slugs(targets, n - 1);
    }
}

/// A schedule is refused exactly when one of its targets empties a place
/// holding the user's own data (a trash, the device backups, virtual
/// machines): an unattended run never empties any of them.
pub proof fn schedules_never_empty_user_data(targets: Seq<Target>, home: Seq<char>)
    ensures
        data_slugs(targets, targets.len() as int).len() > 0 <==> exists|i: int, k: int| 0 <= i < targets.len()
            && 0 <= k < crate::task::clean::reaches(targets[i], home).len()
            && crate::task::clean::holds_user_data(#[trigger] crate::task::clean::reaches(targets[i], home)[k], home),
{
    lemma_no_data_slugs(targets, targets.len() as int);
    if data_slugs(targets, targets.len() as int).len() > 0 {
        let i = choose|i: int| 0 <= i < targets.len() && risk_of(#[trigger] targets[i]) == Risk::Data;
        crate::task::clean::what_empties_user_data_is_marked_data(targets[i], home);
        let k = choose|k: int| 0 <= k < crate::task::clean::reaches(targets[i], home).len()
            && crate::task::clean::holds_user_data(#[trigger] crate::task::clean::reaches(targets[i], home)[k], home);
        assert(crate::task::clean::holds_user_data(crate::task::clean::reaches(targets[i], home)[k], home));
    } else {
        assert forall|i: int, k: int| 0 <= i < targets.len() && 0 <= k < crate::task::clean::reaches(targets[i], home).len()
            implies !crate::task::clean::holds_user_data(#[trigger] crate::task::clean::reaches(targets[i], home)[k], home) by {
            crate::task::clean::what_empties_user_data_is_marked_data(targets[i], home);
            assert(risk_of(targets[i]) != Risk::Data);
        }
    }
}

/// Whether targets are safe to hand to an unattended run: those holding
/// data are refused, since nobody is at the keyboard to read the warning and
/// `--yes` would wave it through.
pub fn refuse(targets: &[Target]) -> (r: Option<String>)
    ensures
        data_slugs(targets@, targets@.len() as int).len() == 0 ==> r is None,
        data_slugs(targets@, targets@.len() as int).len() > 0 ==> (r matches Some(m) && m@
            == comma_joined(data_slugs(targets@, targets@.len() as int))
            + " hold(s) your data — a scheduled run answers its own questions, so it cannot be trusted with that"@),
{
    let mut found: Vec<&'static str> = Vec::new();
    let mut i: usize = 0;
    while i < targets.len()
        invariant
            i <= targets@.len(),
            found@.map_values(|w: &str| w@) == data_slugs(targets@, i as int),
        decreases targets@.len() - i,
    {
        if targets[i].risk() == Risk::Data {
            found.push(targets[i].slug());
        }
        assert(found@.map_values(|w: &str| w@) =~= data_slugs(targets@, i + 1));
        i += 1;
    }
    if found.len() == 0 {
        return None;
    }
    let mut m = String::new();
    push_joined(&mut m, &found);
    push_str(&mut m, " hold(s) your data — a scheduled run answers its own questions, so it cannot be trusted with that");
    Some(m)
}

/// The XML entity for a character that cannot appear raw, or the
/// character itself.
pub open spec fn escape_char(c: char) -> Seq<char> {
    if c == '&' {
        "&amp;"@
    } else if c == '<' {
        "&lt;"@
    } else if c == '>' {
        "&gt;"@
    } else if c == '"' {
        "&quot;"@
    } else if c == '\'' {
        "&apos;"@
    } else {
        seq![c]
    }
}

/// A text with its five XML special characters escaped.
pub open spec fn escape_spec(s: Seq<char>) -> Seq<char>
    decreases s.len(),
{
    if s.len() == 0 {
        Seq::empty()
    } else {
        escape_spec(s.drop_last()) + escape_char(s.last())
    }
}

/// XML has five characters that cannot appear raw; a path can hold all of
/// them.
pub fn escape(text: &str) -> (r: String)
    ensures
        r@ == escape_spec(text@),
{
    let cs = chars_of(text);
    let mut r = String::new();
    let mut i: usize = 0;
    while i < cs.len()
        invariant
            i <= cs@.len(),
            cs@ == text@,
            r@ == escape_spec(cs@.take(i as int)),
        decreases cs@.len() - i,
    {
        assert(cs@.take(i + 1).drop_last() =~= cs@.take(i as int));
        let c = cs[i];
        if c == '&' {
            push_str(&mut r, "&amp;");
        } else if c == '<' {
            push_str(&mut r, "&lt;");
        } else if c == '>' {
            push_str(&mut r, "&gt;");
        } else if c == '"' {
            push_str(&mut r, "&quot;");
        } else if c == '\'' {
            push_str(&mut r, "&apos;");
        } else {
            crate::text::push_char(&mut r, c);
        }
        i += 1;
    }
    assert(cs@.take(cs@.len() as int) =~= cs@);
    r
}

/// An `<string>` line of the argument list.
pub open spec fn arg_line(a: Seq<char>) -> Seq<char> {
    "    <string>"@ + escape_spec(a) + "</string>\n"@
}

/// The argument lines, in order.
pub open spec fn arg_lines(args: Seq<Seq<char>>) -> Seq<char>
    decreases args.len(),
{
    if args.len() == 0 {
        Seq::empty()
    } else {
        arg_lines(args.drop_last()) + arg_line(args.last())
    }
}

/// The arguments a scheduled run is started with.
pub open spec fn schedule_args(program: Seq<char>, targets: Seq<Target>) -> Seq<Seq<char>> {
    seq![program, "clean"@] + slugs(targets) + seq!["--yes"@, "--quiet"@]
}

/// When the run starts: Sundays or every day, at the hour.
pub open spec fn when_spec(cadence: Cadence, hour: u32) -> Seq<char> {
    let at = "    <key>Hour</key><integer>"@ + decimal(hour as nat) + "</integer>\n    <key>Minute</key><integer>0</integer>\n"@;
    if cadence == Cadence::Weekly {
        "    <key>Weekday</key><integer>0</integer>\n"@ + at
    } else {
        at
    }
}

/// The agent definition, as `launchd` wants it.
pub open spec fn plist_spec(program: Seq<char>, targets: Seq<Target>, cadence: Cadence, hour: u32, log: Seq<char>) -> Seq<char> {
    let l = escape_spec(log);
    "<?xml version=\"1.0\" encoding=\"UTF-8\"?>\n<!DOCTYPE plist PUBLIC \"-//Apple//DTD PLIST 1.0//EN\" \"http://www.apple.com/DTDs/PropertyList-1.0.dtd\">\n<plist version=\"1.0\">\n<dict>\n  <key>Label</key>\n  <string>com.detox-mac.cleanup</string>\n  <key>ProgramArguments</key>\n  <array>\n"@
        + arg_lines(schedule_args(program, targets))
        + "  </array>\n  <key>StartCalendarInterval</key>\n  <dict>\n"@
        + when_spec(cadence, hour)
        + "  </dict>\n  <key>RunAtLoad</key>\n  <false/>\n  <key>StandardOutPath</key>\n  <string>"@
        + l + "</string>\n  <key>StandardErrorPath</key>\n  <string>"@ + l
        + "</string>\n</dict>\n</plist>\n"@
}

fn push_arg(out: &mut String, a: &str)
    ensures
        final(out)@ == old(out)@ + arg_line(a@),
{
    push_str(out, "    <string>");
    let e = escape(a);
    push_str(out, e.as_str());
    push_str(out, "</string>\n");
}

/// The agent definition, as `launchd` wants it: the program, `clean`, the
/// targets, `--yes --quiet`; when to run; where to log.
pub fn plist(program: &str, targets: &[Target], cadence: Cadence, hour: u32, log: &str) -> (r: String)
    ensures
        r@ == plist_spec(program@, targets@, cadence, hour, log@),
{
    let ghost args = schedule_args(program@, targets@);
    let mut out = String::new();
    push_str(&mut out, "<?xml version=\"1.0\" encoding=\"UTF-8\"?>\n<!DOCTYPE plist PUBLIC \"-//Apple//DTD PLIST 1.0//EN\" \"http://www.apple.com/DTDs/PropertyList-1.0.dtd\">\n<plist version=\"1.0\">\n<dict>\n  <key>Label</key>\n  <string>com.detox-mac.cleanup</string>\n  <key>ProgramArguments</key>\n  <array>\n");
    let ghost head = out@;
    push_arg(&mut out, program);
    push_arg(&mut out, "clean");
    proof {
        assert(args.take(2).drop_last() =~= args.take(1));
        assert(args.take(1).drop_last() =~= args.take(0));
        assert(args.take(0).len() == 0);
        assert(args.take(1).last() == program@);
        assert(args.take(2).last() == "clean"@);
        assert(arg_lines(args.take(0)) == Seq::<char>::empty());
        assert(arg_lines(args.take(1)) =~= arg_line(program@));
        assert(out@ =~= head + arg_lines(args.take(2)));
    }
    let mut i: usize = 0;
    while i < targets.len()
        invariant
            i <= targets@.len(),
            args == schedule_args(program@, targets@),
            out@ == head + arg_lines(args.take(i + 2)),
        decreases targets@.len() - i,
    {
        assert(args.take(i + 3).drop_last() =~= args.take(i + 2));
        assert(args.take(i + 3).last() == slug_of(targets@[i as int]));
        push_arg(&mut out, targets[i].slug());
        i += 1;
    }
    let ghost before_options = out@;
    push_arg(&mut out, "--yes");
    push_arg(&mut out, "--quiet");
    proof {
        let n = targets@.len() as int;
        assert(args.take(n + 3).drop_last() =~= args.take(n + 2));
        assert(args.take(n + 4).drop_last() =~= args.take(n + 3));
        assert(args.take(n + 3).last() == "--yes"@);
        assert(args.take(n + 4).last() == "--quiet"@);
        assert(args.take(n + 4) =~= args);
        assert(arg_lines(args.take(n + 3)) == arg_lines(args.take(n + 2)) + arg_line("--yes"@));
        assert(arg_lines(args.take(n + 4)) == arg_lines(args.take(n + 3)) + arg_line("--quiet"@));
        assert(out@ =~= head + arg_lines(args));
    }
    let ghost part1 = out@;
    assert(part1 == head + arg_lines(args));
    push_str(&mut out, "  </array>\n  <key>StartCalendarInterval</key>\n  <dict>\n");
    let ghost part2 = out@;
    let mut when = String::new();
    if cadence == Cadence::Weekly {
        push_str(&mut when, "    <key>Weekday</key><integer>0</integer>\n");
    }
    let ghost w0 = when@;
    push_str(&mut when, "    <key>Hour</key><integer>");
    push_decimal(&mut when, hour as u64);
    push_str(&mut when, "</integer>\n    <key>Minute</key><integer>0</integer>\n");
    assert(when@ =~= when_spec(cadence, hour));
    push_str(&mut out, when.as_str());
    assert(out@ == part2 + when_spec(cadence, hour));
    let ghost part3 = out@;
    let l = escape(log);
    let mut tail = String::new();
    push_str(&mut tail, "  </dict>\n  <key>RunAtLoad</key>\n  <false/>\n  <key>StandardOutPath</key>\n  <string>");
    push_str(&mut tail, l.as_str());
    push_str(&mut tail, "</string>\n  <key>StandardErrorPath</key>\n  <string>");
    push_str(&mut tail, l.as_str());
    push_str(&mut tail, "</string>\n</dict>\n</plist>\n");
    push_str(&mut out, tail.as_str());
    assert(out@ =~= plist_spec(program@, targets@, cadence, hour, log@));
    out
}


/// What a schedule is called in reports.
pub open spec fn action_of(cadence: Cadence) -> Seq<char> {
    match cadence {
        Cadence::Off => "Scheduled cleanup removed"@,
        Cadence::Daily => "Daily cleanup"@,
        Cadence::Weekly => "Weekly cleanup"@,
    }
}

fn action_text(cadence: Cadence) -> (r: &'static str)
    ensures
        r@ == action_of(cadence),
{
    match cadence {
        Cadence::Off => "Scheduled cleanup removed",
        Cadence::Daily => "Daily cleanup",
        Cadence::Weekly => "Weekly cleanup",
    }
}

/// An hour on two digits.
pub open spec fn two_digits(h: u32) -> Seq<char> {
    if h < 10 {
        "0"@ + decimal(h as nat)
    } else {
        decimal(h as nat)
    }
}

/// The one-line description of a schedule.
pub open spec fn summary_spec(cadence: Cadence, hour: u32, targets: Seq<Target>) -> Seq<char> {
    (if cadence == Cadence::Daily { "every day"@ } else { "every Sunday"@ }) + " at "@ + two_digits(hour)
        + ":00 — clean "@ + comma_joined(slugs(targets))
}

fn summary(cadence: Cadence, hour: u32, targets: &[Target]) -> (r: String)
    ensures
        r@ == summary_spec(cadence, hour, targets@),
{
    let mut r = String::new();
    push_str(&mut r, if cadence == Cadence::Daily { "every day" } else { "every Sunday" });
    push_str(&mut r, " at ");
    if hour < 10 {
        push_str(&mut r, "0");
    }
    push_decimal(&mut r, hour as u64);
    push_str(&mut r, ":00 — clean ");
    let mut names: Vec<&'static str> = Vec::new();
    let mut i: usize = 0;
    while i < targets.len()
        invariant
            i <= targets@.len(),
            names@.map_values(|w: &str| w@) == slugs(targets@).take(i as int),
        decreases targets@.len() - i,
    {
        let ghost before = names@.map_values(|w: &str| w@);
        let sl = targets[i].slug();
        names.push(sl);
        assert(slugs(targets@)[i as int] == slug_of(targets@[i as int]));
        assert(names@.map_values(|w: &str| w@) =~= before.push(sl@));
        assert(slugs(targets@).take(i + 1) =~= slugs(targets@).take(i as int).push(slug_of(targets@[i as int])));
        assert(names@.map_values(|w: &str| w@) =~= slugs(targets@).take(i + 1));
        i += 1;
    }
    assert(slugs(targets@).take(targets@.len() as int) =~= slugs(targets@));
    push_joined(&mut r, &names);
    r
}

/// The next step of a schedule change.
#[derive(Debug)]
pub enum ScheduleStep {
    /// Nothing to do on disk; this is the outcome.
    Done(Outcome),
    /// Unload the agent at this path and delete it, then report with
    /// `schedule_removed`.
    Remove(String),
    /// Create the parent directory, unload any old agent, write `body` at
    /// `path`, load it, then report with `schedule_installed`.
    Install { path: String, body: String, summary: String },
}

/// Decides a schedule change: `Off` removes what is there; a schedule is
/// refused for targets holding data, for `--purge`, or without a program
/// to run; `--dry-run` only says what would be done.
pub fn apply(cadence: Cadence, targets: &[Target], hour: u32, ctx: &Ctx, home: &str, exists: bool, program: Option<&str>, log: &str) -> (r: ScheduleStep)
    ensures
        ({
            let path = join_spec(home@, "Library/LaunchAgents/com.detox-mac.cleanup.plist"@);
            let action = action_of(cadence);
            let refused = data_slugs(targets@, targets@.len() as int);
            &&& cadence == Cadence::Off && !exists ==> (r matches ScheduleStep::Done(o) && o.action@ == action
                && o.status == Status::Skipped && texts(o.messages@) == seq!["nothing was scheduled"@])
            &&& cadence == Cadence::Off && exists && ctx.dry_run ==> (r matches ScheduleStep::Done(o) && o.action@ == action
                && o.status == Status::Simulated && texts(o.messages@) == seq![tilde_spec(path, home@)])
            &&& cadence == Cadence::Off && exists && !ctx.dry_run ==> (r matches ScheduleStep::Remove(p) && p@ == path)
            &&& cadence != Cadence::Off && refused.len() > 0 ==> (r matches ScheduleStep::Done(o) && o.action@ == action
                && o.status == Status::Failed && texts(o.messages@) == seq![comma_joined(refused)
                + " hold(s) your data — a scheduled run answers its own questions, so it cannot be trusted with that"@])
            &&& cadence != Cadence::Off && refused.len() == 0 && ctx.purge ==> (r matches ScheduleStep::Done(o) && o.action@ == action
                && o.status == Status::Failed && texts(o.messages@) == seq!["--purge cannot be scheduled: an unattended run must stay undoable"@])
            &&& cadence != Cadence::Off && refused.len() == 0 && !ctx.purge && program is None ==> (r matches ScheduleStep::Done(o)
                && o.action@ == action && o.status == Status::Failed && texts(o.messages@) == seq!["cannot find where this binary lives"@])
            &&& cadence != Cadence::Off && refused.len() == 0 && !ctx.purge && program is Some && ctx.dry_run ==> (r matches ScheduleStep::Done(o)
                && o.action@ == action && o.status == Status::Simulated && texts(o.messages@) == seq![
                summary_spec(cadence, hour, targets@), tilde_spec(path, home@)])
            &&& cadence != Cadence::Off && refused.len() == 0 && !ctx.purge && !ctx.dry_run ==> (program matches Some(prog) ==> (r matches ScheduleStep::Install { path: p, body, summary: s }
                && p@ == path && body@ == plist_spec(prog@, targets@, cadence, hour, log@) && s@ == summary_spec(cadence, hour, targets@)))
        }),
{
    let action = action_text(cadence);
    let path = plist_path(home);
    if cadence == Cadence::Off {
        if !exists {
            return ScheduleStep::Done(Outcome::skipped(action, "nothing was scheduled"));
        }
        if ctx.dry_run {
            let t = tilde(path.as_str(), home);
            return ScheduleStep::Done(Outcome::new(action, Status::Simulated).with(t.as_str()));
        }
        return ScheduleStep::Remove(path);
    }
    match refuse(targets) {
        Some(reason) => {
            return ScheduleStep::Done(Outcome::failed(action, reason.as_str()));
        },
        None => {},
    }
    if ctx.purge {
        return ScheduleStep::Done(Outcome::failed(action, "--purge cannot be scheduled: an unattended run must stay undoable"));
    }
    let program = match program {
        Some(p) => p,
        None => {
            return ScheduleStep::Done(Outcome::failed(action, "cannot find where this binary lives"));
        },
    };
    let s = summary(cadence, hour, targets);
    if ctx.dry_run {
        let t = tilde(path.as_str(), home);
        let o = Outcome::new(action, Status::Simulated).with(s.as_str()).with(t.as_str());
        assert(texts(o.messages@) =~= seq![s@, t@]);
        return ScheduleStep::Done(o);
    }
    let body = plist(program, targets, cadence, hour, log);
    ScheduleStep::Install { path, body, summary: s }
}

/// Reports the removal of the schedule: the file is gone, or why not.
pub fn schedule_removed(path: &str, result: Result<(), String>, home: &str) -> (r: Outcome)
    ensures
        r.action@ == action_of(Cadence::Off),
        result is Ok ==> r.status == Status::Succeeded && texts(r.messages@) == seq![tilde_spec(path@, home@)],
        result matches Err(e) ==> r.status == Status::Failed && texts(r.messages@) == seq![tilde_spec(path@, home@) + ": "@ + e@],
{
    let t = tilde(path, home);
    match result {
        Ok(()) => Outcome::ok(action_text(Cadence::Off), false).with(t.as_str()),
        Err(e) => {
            let mut m = t;
            push_str(&mut m, ": ");
            push_str(&mut m, e.as_str());
            Outcome::failed(action_text(Cadence::Off), m.as_str())
        },
    }
}

/// What writing a schedule gave.
#[derive(Debug)]
pub enum Written {
    /// The parent directory could not be created.
    ParentFailed(String),
    /// The file could not be written.
    WriteFailed(String),
    /// Written; then `launchctl load` said this.
    Loaded(Result<(), String>),
}

/// Reports the installation of a schedule.
pub fn schedule_installed(cadence: Cadence, summary: &str, path: &str, log: &str, written: Written, home: &str) -> (r: Outcome)
    ensures
        r.action@ == action_of(cadence),
        written matches Written::ParentFailed(e) ==> r.status == Status::Failed && texts(r.messages@)
            == seq![tilde_spec(match parent_of(path@) {
                Some(p) => p,
                None => Seq::empty(),
            }, home@) + ": "@ + e@],
        written matches Written::WriteFailed(e) ==> r.status == Status::Failed && texts(r.messages@)
            == seq![tilde_spec(path@, home@) + ": "@ + e@],
        written matches Written::Loaded(loaded) ==> r.status == Status::Succeeded && texts(r.messages@)
            == seq![summary@, match loaded {
                Ok(_) => tilde_spec(path@, home@),
                Err(e) => "written, but launchctl refused it: "@ + e@,
            }, "log: "@ + tilde_spec(log@, home@)],
{
    let action = action_text(cadence);
    match written {
        Written::ParentFailed(e) => {
            let p = match parent(path) {
                Some(p) => p,
                None => String::new(),
            };
            let mut m = tilde(p.as_str(), home);
            push_str(&mut m, ": ");
            push_str(&mut m, e.as_str());
            Outcome::failed(action, m.as_str())
        },
        Written::WriteFailed(e) => {
            let mut m = tilde(path, home);
            push_str(&mut m, ": ");
            push_str(&mut m, e.as_str());
            Outcome::failed(action, m.as_str())
        },
        Written::Loaded(loaded) => {
            let mut o = Outcome::ok(action, false).with(summary);
            match loaded {
                Ok(()) => {
                    let t = tilde(path, home);
                    o.push(t.as_str());
                },
                Err(e) => {
                    let mut m = String::new();
                    push_str(&mut m, "written, but launchctl refused it: ");
                    push_str(&mut m, e.as_str());
                    o.push(m.as_str());
                },
            }
            let mut l = String::new();
            push_str(&mut l, "log: ");
            let t = tilde(log, home);
            push_str(&mut l, t.as_str());
            o.push(l.as_str());
            o
        },
    }
}

/// The value of a `<string>` line, trimmed.
pub open spec fn string_value(line: Seq<char>) -> Option<Seq<char>> {
    let t = trim(line);
    if has_prefix(t, "<string>"@) && has_suffix(t.skip(8), "</string>"@) {
        Some(t.skip(8).take(t.len() - 8 - 9))
    } else {
        None
    }
}

/// The `<string>` values of the lines, in order.
pub open spec fn string_values(ls: Seq<Seq<char>>) -> Seq<Seq<char>>
    decreases ls.len(),
{
    if ls.len() == 0 {
        Seq::empty()
    } else {
        string_values(ls.drop_last()) + match string_value(ls.last()) {
            Some(v) => seq![v],
            None => Seq::empty(),
        }
    }
}

/// The values after the first `clean`, up to the first option.
pub open spec fn after_clean(vs: Seq<Seq<char>>, seen: bool) -> Seq<Seq<char>>
    decreases vs.len(),
{
    if vs.len() == 0 {
        Seq::empty()
    } else if !seen {
        after_clean(vs.drop_first(), vs[0] == "clean"@)
    } else if has_prefix(vs[0], "--"@) {
        Seq::empty()
    } else {
        seq![vs[0]] + after_clean(vs.drop_first(), true)
    }
}

/// What an installed schedule says: when it runs, and the targets, which
/// sit between `clean` and the first option.
pub open spec fn current_spec(text: Seq<char>) -> Seq<char> {
    (if contains_sub(text, "<key>Weekday</key>"@) { "every Sunday"@ } else { "every day"@ }) + " — clean "@
        + comma_joined(after_clean(string_values(lines(text)), false))
}

fn string_value_of(line: &[char]) -> (r: Option<Vec<char>>)
    ensures
        match string_value(line@) {
            None => r is None,
            Some(v) => r matches Some(x) && x@ == v,
        },
{
    proof {
        reveal_strlit("<string>");
        reveal_strlit("</string>");
    }
    let t = trim_chars(line);
    if !starts_with(t.as_slice(), chars_of("<string>").as_slice()) {
        return None;
    }
    let rest = slice_to_vec(t.as_slice(), 8, t.len());
    if !ends_with(rest.as_slice(), chars_of("</string>").as_slice()) {
        return None;
    }
    assert(rest@ == t@.skip(8));
    let v = slice_to_vec(rest.as_slice(), 0, rest.len() - 9);
    assert(v@ =~= t@.skip(8).take(t@.len() - 8 - 9));
    Some(v)
}

/// Reads what an installed schedule says.
pub fn current(text: &str) -> (r: String)
    ensures
        r@ == current_spec(text@),
{
    proof {
        reveal_strlit("clean");
        reveal_strlit("--");
    }
    let ls = lines_of(chars_of(text).as_slice());
    let ghost all = lines(text@);
    let mut values: Vec<Vec<char>> = Vec::new();
    let mut i: usize = 0;
    while i < ls.len()
        invariant
            i <= ls@.len(),
            views(ls@) == all,
            views(values@) == string_values(all.take(i as int)),
        decreases ls@.len() - i,
    {
        assert(all.take(i + 1).drop_last() =~= all.take(i as int));
        assert(all.take(i + 1).last() == ls@[i as int]@);
        let ghost before = views(values@);
        match string_value_of(ls[i].as_slice()) {
            Some(v) => {
                values.push(v);
                assert(views(values@) =~= before.push(v@));
            },
            None => {},
        }
        assert(views(values@) =~= string_values(all.take(i + 1)));
        i += 1;
    }
    assert(all.take(ls@.len() as int) =~= all);
    let ghost vs = views(values@);
    let clean = chars_of("clean");
    let dashes = chars_of("--");
    let mut picked: Vec<&'static str> = Vec::new();
    let mut names: Vec<String> = Vec::new();
    let mut seen = false;
    let mut k: usize = 0;
    assert(vs.skip(0) =~= vs);
    while k < values.len()
        invariant
            k <= values@.len(),
            vs == views(values@),
            clean@ == "clean"@,
            dashes@ == "--"@,
            after_clean(vs, false) == crate::config::string_views(names@) + after_clean(vs.skip(k as int), seen),
        ensures
            after_clean(vs, false) == crate::config::string_views(names@),
        decreases values@.len() - k,
    {
        let v = &values[k];
        assert(vs.skip(k as int)[0] == v@);
        assert(vs.skip(k as int).drop_first() =~= vs.skip(k + 1));
        if !seen {
            seen = crate::text::chars_eq(v.as_slice(), clean.as_slice());
        } else if starts_with(v.as_slice(), dashes.as_slice()) {
            assert(after_clean(vs.skip(k as int), seen) == Seq::<Seq<char>>::empty());
            assert(crate::config::string_views(names@) + Seq::<Seq<char>>::empty() =~= crate::config::string_views(names@));
            break;
        } else {
            let ghost before = crate::config::string_views(names@);
            names.push(string_of(v.as_slice()));
            assert(crate::config::string_views(names@) =~= before.push(v@));
            assert(before + (seq![v@] + after_clean(vs.skip(k + 1), true)) =~= before.push(v@) + after_clean(vs.skip(k + 1), true));
        }
        k += 1;
        proof {
            if k == values@.len() {
                assert(vs.skip(k as int).len() == 0);
                assert(crate::config::string_views(names@) + Seq::<Seq<char>>::empty() =~= crate::config::string_views(names@));
            }
        }
    }
    let mut r = String::new();
    push_str(&mut r, if contains_str(text, "<key>Weekday</key>") { "every Sunday" } else { "every day" });
    push_str(&mut r, " — clean ");
    let ghost base = r@;
    let ghost ns = crate::config::string_views(names@);
    let mut j: usize = 0;
    while j < names.len()
        invariant
            j <= names@.len(),
            ns == crate::config::string_views(names@),
            r@ == base + comma_joined(ns.take(j as int)),
        decreases names@.len() - j,
    {
        assert(ns.take(j + 1).drop_last() =~= ns.take(j as int));
        assert(ns.take(j + 1).last() == names@[j as int]@);
        if j > 0 {
            push_str(&mut r, ", ");
        } else {
            assert(ns.take(1) =~= seq![names@[0]@]);
        }
        push_str(&mut r, names[j].as_str());
        assert(r@ =~= base + comma_joined(ns.take(j + 1)));
        j += 1;
    }
    assert(ns.take(names@.len() as int) =~= ns);
    r
}
} // verus!
