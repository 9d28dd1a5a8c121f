//! Shared pieces: the simulation switch and how sizes are written.

use vstd::prelude::*;
use crate::format::{fixed, push_fixed};
use crate::text::{decimal, push_decimal, push_str};

verus! {

/// Whether operations only say what they would do.
#[derive(Debug, Clone, Copy, PartialEq, Eq, Structural)]
pub struct DryRun {
    enabled: bool,
}

impl DryRun {
    /// Off: operations act.
    pub fn new() -> (r: Self)
        ensures
            !r.is_dry_run_spec(),
    {
        DryRun { enabled: false }
    }

    pub closed spec fn is_dry_run_spec(&self) -> bool {
        self.enabled
    }

    /// Turns simulation on or off.
    pub fn set_dry_run(&mut self, enabled: bool)
        ensures
            final(self).is_dry_run_spec() == enabled,
    {
        self.enabled = enabled;
    }

    /// Whether operations only simulate.
    pub fn is_dry_run(&self) -> (r: bool)
        ensures
            r == self.is_dry_run_spec(),
    {
        self.enabled
    }
}

/// A size the way the reports write it: `512 octets`, `3 Ko`, `1.5 Mo`,
/// `2.00 Go`, rounded to nearest with ties to even.
pub open spec fn format_size_spec(b: nat) -> Seq<char> {
    if b >= 1073741824 {
        fixed(b, 1073741824, 2) + " Go"@
    } else if b >= 1048576 {
        fixed(b, 1048576, 1) + " Mo"@
    } else if b >= 1024 {
        fixed(b, 1024, 0) + " Ko"@
    } else {
        decimal(b) + " octets"@
    }
}

/// Writes a size in bytes for a report.
pub fn format_size(bytes: u64) -> (r: String)
    ensures
        r@ == format_size_spec(bytes as nat),
{
    let mut out = String::new();
    if bytes >= 1073741824 {
        push_fixed(&mut out, bytes, 1073741824, 2);
        push_str(&mut out, " Go");
    } else if bytes >= 1048576 {
        push_fixed(&mut out, bytes, 1048576, 1);
        push_str(&mut out, " Mo");
    } else if bytes >= 1024 {
        push_fixed(&mut out, bytes, 1024, 0);
        push_str(&mut out, " Ko");
    } else {
        push_decimal(&mut out, bytes);
        push_str(&mut out, " octets");
    }
    out
}

/// Adds a line to a report.
pub(crate) fn push_line(log: &mut Vec<String>, line: String)
    ensures
        crate::task::texts(final(log)@) == crate::task::texts(old(log)@).push(line@),
{
    let ghost before = crate::task::texts(log@);
    log.push(line);
    assert(crate::task::texts(log@) =~= before.push(line@));
}

/// A line from a literal.
pub(crate) fn text(a: &str) -> (r: String)
    ensures
        r@ == a@,
{
    let mut r = String::new();
    push_str(&mut r, a);
    r
}

/// Two pieces of text, one after the other.
pub(crate) fn cat(a: &str, b: &str) -> (r: String)
    ensures
        r@ == a@ + b@,
{
    let mut r = text(a);
    push_str(&mut r, b);
    r
}

/// Three pieces of text, one after the other.
pub(crate) fn cat3(a: &str, b: &str, c: &str) -> (r: String)
    ensures
        r@ == a@ + b@ + c@,
{
    let mut r = text(a);
    push_str(&mut r, b);
    push_str(&mut r, c);
    r
}

/// The line saying what was, or would be, freed: `  3 Ko libéré(s)`.
pub open spec fn freed_line(bytes: u64, dry_run: bool) -> Seq<char> {
    "  "@ + format_size_spec(bytes as nat) + if dry_run { " seraient libéré(s)"@ } else { " libéré(s)"@ }
}

pub(crate) fn freed(bytes: u64, dry_run: bool) -> (r: String)
    ensures
        r@ == freed_line(bytes, dry_run),
{
    let mut r = text("  ");
    push_str(&mut r, format_size(bytes).as_str());
    push_str(&mut r, if dry_run { " seraient libéré(s)" } else { " libéré(s)" });
    r
}

} // verus!
