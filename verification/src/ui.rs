//! Terminal output: colours, progress, the lines the tool prints.
//!
//! Nothing here writes anything: every method says what line, if any, should
//! be printed, and on which stream the caller must put it.

use vstd::prelude::*;
use crate::format::{truncate, truncate_spec};
use crate::text::{chars_of, decimal, push_char, push_chars, push_decimal, push_str, slice_to_vec};

verus! {

/// When to colourise the output.
#[derive(Debug, Clone, Copy, PartialEq, Eq, Structural)]
pub enum ColorChoice {
    /// Colour when the output is a terminal.
    Auto,
    /// Always colour.
    Always,
    /// Never colour.
    Never,
}

pub open spec fn reset_code() -> Seq<char> {
    seq!['\u{1b}', '[', '0', 'm']
}

/// Writes to standard output, honouring the global options.
#[derive(Debug, Clone, Copy)]
pub struct Printer {
    pub color: bool,
    pub quiet: bool,
    pub animated: bool,
}

/// Text wrapped in an escape code when colour is on.
pub open spec fn painted(color: bool, code: Seq<char>, text: Seq<char>) -> Seq<char> {
    if color {
        code + text + reset_code()
    } else {
        text
    }
}

/// `s` padded with spaces on the right to at least `width` characters.
pub open spec fn pad_right(s: Seq<char>, width: nat) -> Seq<char> {
    if s.len() < width {
        s + Seq::new((width - s.len()) as nat, |i: int| ' ')
    } else {
        s
    }
}

/// Appends `n` copies of a character.
pub fn push_repeat(out: &mut String, c: char, n: usize)
    ensures
        final(out)@ == old(out)@ + Seq::new(n as nat, |i: int| c),
{
    let mut k: usize = 0;
    while k < n
        invariant
            k <= n,
            out@ == old(out)@ + Seq::new(k as nat, |i: int| c),
        decreases n - k,
    {
        push_char(out, c);
        assert(Seq::new((k + 1) as nat, |i: int| c) =~= Seq::new(k as nat, |i: int| c).push(c));
        k += 1;
    }
}

/// Appends a text padded with spaces to `width` characters.
pub fn push_padded(out: &mut String, s: &str, width: usize)
    ensures
        final(out)@ == old(out)@ + pad_right(s@, width as nat),
{
    let cs = chars_of(s);
    push_chars(out, cs.as_slice());
    if cs.len() < width {
        push_repeat(out, ' ', width - cs.len());
    }
}

pub const RESET: &'static str = "\x1b[0m";
pub const BOLD: &'static str = "\x1b[1m";
pub const DIM: &'static str = "\x1b[2m";
pub const RED: &'static str = "\x1b[31m";
pub const GREEN: &'static str = "\x1b[32m";
pub const YELLOW: &'static str = "\x1b[33m";
pub const BLUE: &'static str = "\x1b[34m";
pub const CYAN: &'static str = "\x1b[36m";

/// Erases the current line and returns to its start.
pub const CLEAR_LINE: &'static str = "\x1b[2K\r";

impl Printer {
    /// Colour when asked for, or in `auto` when standard output is a terminal
    /// and `NO_COLOR` is not set; animation on stderr unless quiet, when it
    /// is a terminal or colour was forced.
    pub fn new(
        choice: ColorChoice,
        quiet: bool,
        no_color_env: bool,
        stdout_is_terminal: bool,
        stderr_is_terminal: bool,
    ) -> (r: Self)
        ensures
            r.color == match choice {
                ColorChoice::Always => true,
                ColorChoice::Never => false,
                ColorChoice::Auto => !no_color_env && stdout_is_terminal,
            },
            r.quiet == quiet,
            r.animated == (!quiet && (choice == ColorChoice::Always || stderr_is_terminal)),
    {
        let forced = match choice {
            ColorChoice::Always => true,
            _ => false,
        };
        let color = match choice {
            ColorChoice::Always => true,
            ColorChoice::Never => false,
            ColorChoice::Auto => !no_color_env && stdout_is_terminal,
        };
        Printer { color, quiet, animated: !quiet && (forced || stderr_is_terminal) }
    }

    pub fn paint(&self, code: &str, text: &str) -> (r: String)
        ensures
            r@ == painted(self.color, code@, text@),
    {
        let mut out = String::new();
        if self.color {
            push_str(&mut out, code);
            push_str(&mut out, text);
            push_str(&mut out, RESET);
            proof {
                reveal_strlit("\x1b[0m");
                assert(RESET@ == reset_code());
            }
        } else {
            push_str(&mut out, text);
        }
        out
    }

    pub fn bold(&self, text: &str) -> (r: String)
        ensures
            r@ == painted(self.color, BOLD@, text@),
    {
        self.paint(BOLD, text)
    }

    pub fn dim(&self, text: &str) -> (r: String)
        ensures
            r@ == painted(self.color, DIM@, text@),
    {
        self.paint(DIM, text)
    }

    pub fn accent(&self, text: &str) -> (r: String)
        ensures
            r@ == painted(self.color, CYAN@, text@),
    {
        self.paint(CYAN, text)
    }

    /// Section title: an empty line, then the title in bold — nothing when quiet.
    pub fn heading(&self, text: &str) -> (r: Vec<String>)
        ensures
            self.quiet ==> r@.len() == 0,
            !self.quiet ==> r@.len() == 2 && r@[0]@.len() == 0 && r@[1]@ == painted(
                self.color,
                BOLD@,
                text@,
            ),
    {
        let mut r = Vec::new();
        if !self.quiet {
            r.push(String::new());
            r.push(self.paint(BOLD, text));
        }
        r
    }

    /// Plain informational line, unless quiet.
    pub fn info(&self, text: &str) -> (r: Option<String>)
        ensures
            self.quiet ==> r is None,
            !self.quiet ==> (r matches Some(l) && l@ == text@),
    {
        if self.quiet {
            None
        } else {
            let mut out = String::new();
            push_str(&mut out, text);
            Some(out)
        }
    }

    /// Aligned key / value pair.
    pub fn field(&self, key: &str, value: &str) -> (r: Option<String>)
        ensures
            self.quiet ==> r is None,
            !self.quiet ==> (r matches Some(l) && l@ == "  "@ + pad_right(
                painted(self.color, DIM@, key@),
                16,
            ) + " "@ + value@),
    {
        if self.quiet {
            return None;
        }
        let dimmed = self.paint(DIM, key);
        let mut out = String::new();
        push_str(&mut out, "  ");
        push_padded(&mut out, dimmed.as_str(), 16);
        push_str(&mut out, " ");
        push_str(&mut out, value);
        Some(out)
    }

    /// List item.
    pub fn item(&self, text: &str) -> (r: Option<String>)
        ensures
            self.quiet ==> r is None,
            !self.quiet ==> (r matches Some(l) && l@ == "  "@ + text@),
    {
        if self.quiet {
            return None;
        }
        let mut out = String::new();
        push_str(&mut out, "  ");
        push_str(&mut out, text);
        Some(out)
    }

    fn marked(&self, code: &str, mark: &str, text: &str) -> (r: String)
        ensures
            r@ == painted(self.color, code@, mark@) + " "@ + text@,
    {
        let mut out = self.paint(code, mark);
        push_str(&mut out, " ");
        push_str(&mut out, text);
        out
    }

    /// Success, marked with a green tick.
    pub fn success(&self, text: &str) -> (r: Option<String>)
        ensures
            self.quiet ==> r is None,
            !self.quiet ==> (r matches Some(l) && l@ == painted(self.color, GREEN@, "✓"@) + " "@
                + text@),
    {
        if self.quiet {
            None
        } else {
            Some(self.marked(GREEN, "✓", text))
        }
    }

    /// Operation that did not apply, marked with a blue dash.
    pub fn skipped(&self, text: &str) -> (r: Option<String>)
        ensures
            self.quiet ==> r is None,
            !self.quiet ==> (r matches Some(l) && l@ == painted(self.color, BLUE@, "–"@) + " "@
                + text@),
    {
        if self.quiet {
            None
        } else {
            Some(self.marked(BLUE, "–", text))
        }
    }

    /// Warning: always shown, on stderr.
    pub fn warn(&self, text: &str) -> (r: String)
        ensures
            r@ == painted(self.color, YELLOW@, "!"@) + " "@ + text@,
    {
        self.marked(YELLOW, "!", text)
    }

    /// Error: always shown, on stderr.
    pub fn error(&self, text: &str) -> (r: String)
        ensures
            r@ == painted(self.color, RED@, "✗"@) + " "@ + text@,
    {
        self.marked(RED, "✗", text)
    }

    /// Banner for simulation mode, unless quiet.
    pub fn dry_run_banner(&self) -> (r: Option<String>)
        ensures
            self.quiet ==> r is None,
            !self.quiet ==> (r matches Some(l) && l@ == painted(
                self.color,
                YELLOW@,
                "◆ Dry run — nothing will be modified."@,
            )),
    {
        if self.quiet {
            None
        } else {
            Some(self.paint(YELLOW, "◆ Dry run — nothing will be modified."))
        }
    }
}


/// Minimum delay between two redraws, in milliseconds.
pub const FRAME_DELAY_MS: u64 = 80;
pub const BAR_WIDTH: usize = 24;

/// The spinner frames.
pub open spec fn spinner_frame(i: nat) -> Seq<char> {
    let k = i % 10;
    if k == 0 { "⠋"@ }
    else if k == 1 { "⠙"@ }
    else if k == 2 { "⠹"@ }
    else if k == 3 { "⠸"@ }
    else if k == 4 { "⠼"@ }
    else if k == 5 { "⠴"@ }
    else if k == 6 { "⠦"@ }
    else if k == 7 { "⠧"@ }
    else if k == 8 { "⠇"@ }
    else { "⠏"@ }
}

fn push_spinner_frame(out: &mut String, i: usize)
    ensures
        final(out)@ == old(out)@ + spinner_frame(i as nat),
{
    let k = i % 10;
    if k == 0 { push_str(out, "⠋") }
    else if k == 1 { push_str(out, "⠙") }
    else if k == 2 { push_str(out, "⠹") }
    else if k == 3 { push_str(out, "⠸") }
    else if k == 4 { push_str(out, "⠼") }
    else if k == 5 { push_str(out, "⠴") }
    else if k == 6 { push_str(out, "⠦") }
    else if k == 7 { push_str(out, "⠧") }
    else if k == 8 { push_str(out, "⠇") }
    else { push_str(out, "⠏") }
}

/// Cells of the bar filled after `done` of `total` steps: rounded up, never
/// past the width.
pub open spec fn filled_cells(done: nat, total: nat) -> nat {
    let t: nat = if total == 0 { 1 } else { total };
    let f: nat = ((done * 24 + t - 1) as nat) / t;
    if f > 24 { 24 } else { f }
}

/// The head of a progress line: a bar with a count, or a spinner frame.
pub open spec fn progress_head(total: Option<usize>, done: nat, frame: nat) -> Seq<char> {
    match total {
        Some(t) => Seq::new(filled_cells(done, t as nat), |i: int| '█') + Seq::new(
            (24 - filled_cells(done, t as nat)) as nat,
            |i: int| '░',
        ) + " "@ + decimal(done) + "/"@ + decimal(t as nat),
        None => spinner_frame(frame) + " "@ + decimal(done),
    }
}

/// What drawing a progress line does: `before` drawn with `done` steps
/// completed, leaving `after` and returning `r`. Nothing is drawn while
/// disabled or within a frame of the last line; otherwise the line is erased
/// and drawn again with the next spinner frame, and its time kept.
pub open spec fn redrawn(before: Progress, done: usize, after: Progress, detail: Seq<char>, now_ms: u64, r: Option<String>) -> bool {
    let recent = (before.last_draw matches Some(last) && now_ms >= last && now_ms - last < FRAME_DELAY_MS);
    let next = if before.frame == usize::MAX { 0 } else { (before.frame + 1) as usize };
    &&& after.enabled == before.enabled
    &&& after.color == before.color
    &&& after.label == before.label
    &&& after.total == before.total
    &&& after.done == done
    &&& (!before.enabled || recent) ==> (r is None && after.frame == before.frame
        && after.last_draw == before.last_draw)
    &&& (before.enabled && !recent) ==> (r matches Some(line) && after.last_draw == Some(now_ms)
        && after.frame == next && line@ == CLEAR_LINE@ + painted(
            before.color,
            DIM@,
            before.label@ + " "@ + progress_head(before.total, done as nat, next as nat) + "  "@
                + truncate_spec(detail, 48),
        ))
}

/// Minimal progress indicator drawn on a single line of stderr.
pub struct Progress {
    pub enabled: bool,
    pub color: bool,
    pub label: String,
    pub total: Option<usize>,
    pub done: usize,
    pub frame: usize,
    /// When the line was last drawn, in milliseconds.
    pub last_draw: Option<u64>,
}

fn filled(done: usize, total: usize) -> (f: usize)
    ensures
        f == filled_cells(done as nat, total as nat),
        f <= 24,
{
    let t: usize = if total == 0 { 1 } else { total };
    let d = done as u128;
    let cells = (d * 24 + t as u128 - 1) / t as u128;
    if cells > 24 { 24 } else { cells as usize }
}

fn head_text(total: Option<usize>, done: usize, frame: usize) -> (out: String)
    ensures
        out@ == progress_head(total, done as nat, frame as nat),
{
    let mut line = String::new();
    match total {
        Some(total) => {
            let f = filled(done, total);
            push_repeat(&mut line, '█', f);
            push_repeat(&mut line, '░', BAR_WIDTH - f);
            push_str(&mut line, " ");
            push_decimal(&mut line, done as u64);
            push_str(&mut line, "/");
            push_decimal(&mut line, total as u64);
        },
        None => {
            push_spinner_frame(&mut line, frame);
            push_str(&mut line, " ");
            push_decimal(&mut line, done as u64);
        },
    }
    line
}

/// The text of a progress line, erasing the previous one first.
pub fn progress_line(
    label: &str,
    total: Option<usize>,
    done: usize,
    frame: usize,
    detail: &str,
    color: bool,
) -> (out: String)
    ensures
        out@ == CLEAR_LINE@ + painted(
            color,
            DIM@,
            label@ + " "@ + progress_head(total, done as nat, frame as nat) + "  "@ + truncate_spec(
                detail@,
                48,
            ),
        ),
{
    let mut line = String::new();
    push_str(&mut line, label);
    push_str(&mut line, " ");
    let head = head_text(total, done, frame);
    push_str(&mut line, head.as_str());
    push_str(&mut line, "  ");
    let cut = truncate(detail, 48);
    push_str(&mut line, cut.as_str());
    let mut out = String::new();
    push_str(&mut out, CLEAR_LINE);
    if color {
        push_str(&mut out, DIM);
        push_str(&mut out, line.as_str());
        push_str(&mut out, RESET);
        proof {
            reveal_strlit("\x1b[0m");
        }
    } else {
        push_str(&mut out, line.as_str());
    }
    out
}

impl Printer {
    /// A progress bar with a known number of steps.
    pub fn bar(&self, label: &str, total: usize) -> (r: Progress)
        ensures
            r.enabled == (self.animated && total != 0),
            r.total == Some(total),
            r.label@ == label@,
            r.done == 0,
            r.last_draw is None,
    {
        Progress::new(self.animated, self.color, label, Some(total))
    }

    /// A spinner, for work whose length is unknown upfront.
    pub fn spinner(&self, label: &str) -> (r: Progress)
        ensures
            r.enabled == self.animated,
            r.total is None,
            r.label@ == label@,
            r.done == 0,
            r.last_draw is None,
    {
        Progress::new(self.animated, self.color, label, None)
    }
}

impl Progress {
    /// A bar with nothing to do would only flicker, so it stays off.
    pub fn new(enabled: bool, color: bool, label: &str, total: Option<usize>) -> (r: Self)
        ensures
            r.enabled == (enabled && total != Some(0usize)),
            r.color == color,
            r.label@ == label@,
            r.total == total,
            r.done == 0,
            r.frame == 0,
            r.last_draw is None,
    {
        let empty = match total {
            Some(t) => t == 0,
            None => false,
        };
        let mut l = String::new();
        push_str(&mut l, label);
        Progress { enabled: enabled && !empty, color, label: l, total, done: 0, frame: 0, last_draw: None }
    }

    /// Sets the running count shown by a spinner.
    pub fn done_count(&mut self, done: usize)
        ensures
            final(self).done == done,
            final(self).enabled == old(self).enabled,
            final(self).total == old(self).total,
            final(self).frame == old(self).frame,
            final(self).last_draw == old(self).last_draw,
    {
        self.done = done;
    }

    /// The line to draw now, if it is time to draw one: on stderr, after
    /// erasing the previous one.
    fn draw(&mut self, detail: &str, now_ms: u64) -> (r: Option<String>)
        ensures
            redrawn(*old(self), old(self).done, *final(self), detail@, now_ms, r),
    {
        if !self.enabled {
            return None;
        }
        if let Some(last) = self.last_draw {
            if now_ms >= last && now_ms - last < FRAME_DELAY_MS {
                return None;
            }
        }
        self.last_draw = Some(now_ms);
        self.frame = if self.frame == usize::MAX { 0 } else { self.frame + 1 };

        let out = progress_line(self.label.as_str(), self.total, self.done, self.frame, detail, self.color);
        Some(out)
    }

    /// Reports progress without completing a step (spinners).
    pub fn tick(&mut self, detail: &str, now_ms: u64) -> (r: Option<String>)
        ensures
            redrawn(*old(self), old(self).done, *final(self), detail@, now_ms, r),
    {
        self.draw(detail, now_ms)
    }

    /// Completes one step.
    pub fn advance(&mut self, detail: &str, now_ms: u64) -> (r: Option<String>)
        requires
            old(self).done < usize::MAX,
        ensures
            redrawn(*old(self), (old(self).done + 1) as usize, *final(self), detail@, now_ms, r),
    {
        self.done = self.done + 1;
        self.draw(detail, now_ms)
    }

    /// Erases the progress line, if one was drawn.
    pub fn finish(&mut self) -> (r: Option<String>)
        ensures
            final(self).last_draw is None,
            final(self).enabled == old(self).enabled && final(self).color == old(self).color
                && final(self).label == old(self).label && final(self).total == old(self).total
                && final(self).done == old(self).done && final(self).frame == old(self).frame,
            r is Some <==> (old(self).enabled && old(self).last_draw is Some),
            r matches Some(l) ==> l@ == CLEAR_LINE@,
    {
        let drawn = self.enabled && self.last_draw.is_some();
        self.last_draw = None;
        if drawn {
            let mut out = String::new();
            push_str(&mut out, CLEAR_LINE);
            Some(out)
        } else {
            None
        }
    }
}

} // verus!
