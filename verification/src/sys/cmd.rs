//! What the commands the tool runs say back: their output, and the verdicts
//! read from it.

use vstd::prelude::*;
use crate::text::{chars_of, decimal, push_decimal, push_str, string_of, trim, trim_chars};

verus! {

/// Output of a command that ran to its end.
#[derive(Debug, Clone)]
pub struct Output {
    pub code: i32,
    pub stdout: String,
    pub stderr: String,
}

impl Output {
    /// What a finished command produced, each output trimmed of the white
    /// space around it, so that an output of only a line break counts as
    /// empty.
    pub fn captured(code: i32, stdout: &str, stderr: &str) -> (r: Self)
        ensures
            r.code == code,
            r.stdout@ == trim(stdout@),
            r.stderr@ == trim(stderr@),
    {
        let out = string_of(trim_chars(chars_of(stdout).as_slice()).as_slice());
        let err = string_of(trim_chars(chars_of(stderr).as_slice()).as_slice());
        Output { code, stdout: out, stderr: err }
    }

    /// The first output that is not empty: stdout, else stderr.
    pub fn text(&self) -> (r: &str)
        ensures
            r@ == (if self.stdout@.len() == 0 {
                self.stderr@
            } else {
                self.stdout@
            }),
    {
        if self.stdout.as_str().is_empty() {
            self.stderr.as_str()
        } else {
            self.stdout.as_str()
        }
    }
}

/// A signed integer written in decimal.
pub open spec fn signed_decimal(i: int) -> Seq<char> {
    if i < 0 {
        seq!['-'] + decimal((-i) as nat)
    } else {
        decimal(i as nat)
    }
}

/// The verdict on a finished command: its output when it exited with 0,
/// else its error output, else a sentence with its exit code.
pub fn checked(program: &str, output: Output) -> (r: Result<Output, String>)
    ensures
        output.code == 0 ==> (r matches Ok(o) && o.code == output.code && o.stdout@
            == output.stdout@ && o.stderr@ == output.stderr@),
        output.code != 0 && output.stderr@.len() > 0 ==> (r matches Err(e) && e@ == output.stderr@),
        output.code != 0 && output.stderr@.len() == 0 ==> (r matches Err(e) && e@ == program@
            + " a échoué (code "@ + signed_decimal(output.code as int) + ")"@),
{
    if output.code == 0 {
        return Ok(output);
    }
    if !output.stderr.as_str().is_empty() {
        return Err(output.stderr);
    }
    let mut e = String::new();
    push_str(&mut e, program);
    push_str(&mut e, " a échoué (code ");
    push_signed(&mut e, output.code);
    push_str(&mut e, ")");
    Err(e)
}

/// Appends an exit code in decimal, with its sign.
pub(crate) fn push_signed(e: &mut String, code: i32)
    ensures
        final(e)@ == old(e)@ + signed_decimal(code as int),
{
    if code < 0 {
        proof {
            reveal_strlit("-");
        }
        push_str(e, "-");
        let magnitude: u64 = (0i64 - code as i64) as u64;
        assert(magnitude as int == -(code as int));
        push_decimal(e, magnitude);
    } else {
        push_decimal(e, code as u64);
    }
}

/// Whether an executable is on the `PATH`, from the verdict on `which`.
pub fn program_exists(which: &Result<Output, String>) -> (r: bool)
    ensures
        r == which is Ok,
{
    which.is_ok()
}

/// The value of a `sysctl -n` key, from the verdict on the command.
pub fn sysctl(result: Result<Output, String>) -> (r: Option<String>)
    ensures
        result matches Ok(o) ==> (r matches Some(v) && v@ == o.stdout@),
        result is Err ==> r is None,
{
    match result {
        Ok(o) => Some(o.stdout),
        Err(_) => None,
    }
}

/// Whether the process runs as root, from the verdict on `id -u`.
pub fn is_root(id: &Result<Output, String>) -> (r: bool)
    ensures
        r == (id matches Ok(o) && o.stdout@ == "0"@),
{
    match id {
        Ok(o) => {
            let c = crate::text::chars_of(o.stdout.as_str());
            let zero = crate::text::chars_of("0");
            crate::text::chars_eq(c.as_slice(), zero.as_slice())
        },
        Err(_) => false,
    }
}

} // verus!
