//! The options of a filtered command run, and the decisions a run makes once
//! the command has finished.

use vstd::prelude::*;
use crate::text::{push_str, to_chars};

verus! {

/// How a filtered command is run and its result shown.
pub struct RunOptions<'a> {
    /// Where set, the raw output is kept under this label and a hint to it is
    /// printed after the filtered output.
    pub tee_label: Option<&'a str>,
    /// Filter standard output alone, and echo standard error as it is.
    pub filter_stdout_only: bool,
    /// When the command fails, show its standard error instead of filtering.
    pub skip_filter_on_failure: bool,
    /// Print the filtered output without a final newline.
    pub no_trailing_newline: bool,
}

/// The default options: no tee, both streams filtered, filtering even on
/// failure, a final newline.
pub open spec fn default_options<'a>() -> RunOptions<'a> {
    RunOptions {
        tee_label: None,
        filter_stdout_only: false,
        skip_filter_on_failure: false,
        no_trailing_newline: false,
    }
}

/// `opts` with the raw output kept under `label`.
pub open spec fn teed<'a>(opts: RunOptions<'a>, label: &'a str) -> RunOptions<'a> {
    RunOptions { tee_label: Some(label), ..opts }
}

/// `opts` filtering standard output alone.
pub open spec fn stdout_filtered<'a>(opts: RunOptions<'a>) -> RunOptions<'a> {
    RunOptions { filter_stdout_only: true, ..opts }
}

/// `opts` skipping the filter when the command fails.
pub open spec fn early_exiting<'a>(opts: RunOptions<'a>) -> RunOptions<'a> {
    RunOptions { skip_filter_on_failure: true, ..opts }
}

/// `opts` printing without a final newline.
pub open spec fn unterminated<'a>(opts: RunOptions<'a>) -> RunOptions<'a> {
    RunOptions { no_trailing_newline: true, ..opts }
}

impl<'a> Default for RunOptions<'a> {
    fn default() -> (opts: Self)
        ensures
            opts == default_options::<'a>(),
    {
        RunOptions {
            tee_label: None,
            filter_stdout_only: false,
            skip_filter_on_failure: false,
            no_trailing_newline: false,
        }
    }
}

impl<'a> RunOptions<'a> {
    /// The default options with the raw output kept under `label`.
    pub fn with_tee(label: &'a str) -> (opts: Self)
        ensures
            opts == teed(default_options(), label),
    {
        RunOptions {
            tee_label: Some(label),
            filter_stdout_only: false,
            skip_filter_on_failure: false,
            no_trailing_newline: false,
        }
    }

    /// The default options, filtering standard output alone.
    pub fn stdout_only() -> (opts: Self)
        ensures
            opts == stdout_filtered(default_options::<'a>()),
    {
        RunOptions {
            tee_label: None,
            filter_stdout_only: true,
            skip_filter_on_failure: false,
            no_trailing_newline: false,
        }
    }

    /// These options with the raw output kept under `label`.
    pub fn tee(self, label: &'a str) -> (opts: Self)
        ensures
            opts == teed(self, label),
    {
        let mut opts = self;
        opts.tee_label = Some(label);
        opts
    }

    /// These options, showing standard error instead of filtering when the
    /// command fails.
    pub fn early_exit_on_failure(self) -> (opts: Self)
        ensures
            opts == early_exiting(self),
    {
        let mut opts = self;
        opts.skip_filter_on_failure = true;
        opts
    }

    /// These options, printing the filtered output without a final newline.
    pub fn no_trailing_newline(self) -> (opts: Self)
        ensures
            opts == unterminated(self),
    {
        let mut opts = self;
        opts.no_trailing_newline = true;
        opts
    }
}

/// The default options ask for nothing; each builder sets its own option and
/// leaves the other three as they were.
pub proof fn law_builders_set_one_option<'a>(opts: RunOptions<'a>, label: &'a str)
    ensures
        default_options::<'a>().tee_label is None,
        !default_options::<'a>().filter_stdout_only,
        !default_options::<'a>().skip_filter_on_failure,
        !default_options::<'a>().no_trailing_newline,
        teed(opts, label).tee_label == Some(label),
        teed(opts, label).filter_stdout_only == opts.filter_stdout_only,
        teed(opts, label).skip_filter_on_failure == opts.skip_filter_on_failure,
        teed(opts, label).no_trailing_newline == opts.no_trailing_newline,
        stdout_filtered(opts).filter_stdout_only,
        stdout_filtered(opts).tee_label == opts.tee_label,
        stdout_filtered(opts).skip_filter_on_failure == opts.skip_filter_on_failure,
        stdout_filtered(opts).no_trailing_newline == opts.no_trailing_newline,
        early_exiting(opts).skip_filter_on_failure,
        early_exiting(opts).tee_label == opts.tee_label,
        early_exiting(opts).filter_stdout_only == opts.filter_stdout_only,
        early_exiting(opts).no_trailing_newline == opts.no_trailing_newline,
        unterminated(opts).no_trailing_newline,
        unterminated(opts).tee_label == opts.tee_label,
        unterminated(opts).filter_stdout_only == opts.filter_stdout_only,
        unterminated(opts).skip_filter_on_failure == opts.skip_filter_on_failure,
{
}

/// Each builder sets one option and leaves the others as they were, so the
/// order in which builders are applied does not matter, applying one twice
/// is applying it once, and a later `tee` replaces an earlier label.
pub proof fn law_builders_commute<'a>(opts: RunOptions<'a>, label: &'a str, other: &'a str)
    ensures
        teed(stdout_filtered(opts), label) == stdout_filtered(teed(opts, label)),
        teed(early_exiting(opts), label) == early_exiting(teed(opts, label)),
        teed(unterminated(opts), label) == unterminated(teed(opts, label)),
        stdout_filtered(early_exiting(opts)) == early_exiting(stdout_filtered(opts)),
        stdout_filtered(unterminated(opts)) == unterminated(stdout_filtered(opts)),
        early_exiting(unterminated(opts)) == unterminated(early_exiting(opts)),
        early_exiting(early_exiting(opts)) == early_exiting(opts),
        unterminated(unterminated(opts)) == unterminated(opts),
        stdout_filtered(stdout_filtered(opts)) == stdout_filtered(opts),
        teed(teed(opts, other), label) == teed(opts, label),
{
}

/// Whether `c` has the Unicode White_Space property, which is what
/// `char::is_whitespace` tests and what `str::trim` removes.
pub open spec fn unicode_whitespace(c: char) -> bool {
    let u = c as u32;
    (0x09 <= u <= 0x0d) || u == 0x20 || u == 0x85 || u == 0xa0 || u == 0x1680 || (0x2000 <= u
        <= 0x200a) || u == 0x2028 || u == 0x2029 || u == 0x202f || u == 0x205f || u == 0x3000
}

/// Whether `c` is white space.
pub fn is_whitespace(c: char) -> (res: bool)
    ensures
        res == unicode_whitespace(c),
{
    let u = c as u32;
    (0x09 <= u && u <= 0x0d) || u == 0x20 || u == 0x85 || u == 0xa0 || u == 0x1680 || (0x2000 <= u
        && u <= 0x200a) || u == 0x2028 || u == 0x2029 || u == 0x202f || u == 0x205f || u == 0x3000
}

/// Whether a text is empty once trimmed: all its characters are white space.
pub open spec fn blank(s: Seq<char>) -> bool {
    forall|i: int| 0 <= i < s.len() ==> unicode_whitespace(#[trigger] s[i])
}

/// Whether `s.trim()` is empty.
pub fn is_blank(s: &str) -> (res: bool)
    ensures
        res == blank(s@),
{
    let chars = to_chars(s);
    let mut i: usize = 0;
    while i < chars.len()
        invariant
            chars@ == s@,
            i <= chars@.len(),
            forall|j: int| 0 <= j < i ==> unicode_whitespace(#[trigger] chars@[j]),
        decreases chars@.len() - i,
    {
        if !is_whitespace(chars[i]) {
            return false;
        }
        i = i + 1;
    }
    true
}

/// Standard output and standard error, one after the other on their own lines.
pub fn combined_output(stdout: &str, stderr: &str) -> (raw: String)
    ensures
        raw@ == stdout@ + seq!['\n'] + stderr@,
{
    let mut raw = stdout.to_owned();
    push_str(&mut raw, "\n");
    push_str(&mut raw, stderr);
    proof {
        reveal_strlit("\n");
        assert(raw@ =~= stdout@ + seq!['\n'] + stderr@);
    }
    raw
}

/// What a run does once the command has finished.
#[derive(Debug, Clone, Copy, PartialEq, Eq, Structural)]
pub enum RunStep {
    /// Skip filtering: echo standard error where it is not blank, and return
    /// the exit code.
    EarlyExit { echo_stderr: bool },
    /// Filter standard output alone, or both streams together; afterwards echo
    /// standard error where `echo_stderr` says so.
    Filter { stdout_only: bool, echo_stderr: bool },
}

/// The step a run takes, given its options, the command's exit code and its
/// standard error.
pub open spec fn run_step_of(
    skip_on_failure: bool,
    stdout_only: bool,
    exit_code: i32,
    stderr: Seq<char>,
) -> RunStep {
    if skip_on_failure && exit_code != 0 {
        RunStep::EarlyExit { echo_stderr: !blank(stderr) }
    } else {
        RunStep::Filter { stdout_only, echo_stderr: stdout_only && !blank(stderr) }
    }
}

/// Decides what a run does once the command has finished: a failed command
/// under `early_exit_on_failure` is not filtered; otherwise the chosen text
/// is filtered, and standard error is echoed when only standard output was
/// filtered and standard error holds more than white space.
pub fn run_step(opts: &RunOptions, exit_code: i32, stderr: &str) -> (step: RunStep)
    ensures
        step == run_step_of(
            opts.skip_filter_on_failure,
            opts.filter_stdout_only,
            exit_code,
            stderr@,
        ),
{
    if opts.skip_filter_on_failure && exit_code != 0 {
        RunStep::EarlyExit { echo_stderr: !is_blank(stderr) }
    } else {
        let stdout_only = opts.filter_stdout_only;
        RunStep::Filter { stdout_only, echo_stderr: stdout_only && !is_blank(stderr) }
    }
}

/// The text handed to the filter: standard output alone, or both streams.
pub fn filter_input<'b>(opts: &RunOptions, stdout: &'b str, raw: &'b str) -> (text: &'b str)
    ensures
        text@ == if opts.filter_stdout_only {
            stdout@
        } else {
            raw@
        },
{
    if opts.filter_stdout_only {
        stdout
    } else {
        raw
    }
}

/// A run skips the filter exactly when the command failed and the options
/// ask for that; standard error is echoed only where it holds more than white
/// space, and after filtering only when standard output alone was filtered.
pub proof fn law_run_step(opts: RunOptions, exit_code: i32, stderr: Seq<char>)
    ensures
        ({
            let step = run_step_of(
                opts.skip_filter_on_failure,
                opts.filter_stdout_only,
                exit_code,
                stderr,
            );
            &&& (step is EarlyExit) <==> (opts.skip_filter_on_failure && exit_code != 0)
            &&& step matches RunStep::EarlyExit { echo_stderr } ==> (echo_stderr <==> exists|i: int|
                0 <= i < stderr.len() && !unicode_whitespace(#[trigger] stderr[i]))
            &&& step matches RunStep::Filter { stdout_only, echo_stderr } ==> stdout_only
                == opts.filter_stdout_only && (echo_stderr <==> (opts.filter_stdout_only
                && exists|i: int| 0 <= i < stderr.len() && !unicode_whitespace(#[trigger] stderr[i])))
        }),
{
}

/// How the filtered output is printed.
#[derive(Debug, Clone, Copy, PartialEq, Eq)]
pub enum PrintMode<'a> {
    /// With a hint to the raw output kept under this label.
    WithHint(&'a str),
    /// Without a final newline.
    NoNewline,
    /// As a line.
    Line,
}

/// How the filtered output is printed: a tee label wins over the request for
/// no final newline.
pub fn print_mode<'a>(opts: &RunOptions<'a>) -> (mode: PrintMode<'a>)
    ensures
        match opts.tee_label {
            Some(label) => mode == PrintMode::WithHint(label),
            None => if opts.no_trailing_newline {
                mode == PrintMode::NoNewline
            } else {
                mode == PrintMode::Line
            },
        },
{
    match opts.tee_label {
        Some(label) => PrintMode::WithHint(label),
        None => if opts.no_trailing_newline {
            PrintMode::NoNewline
        } else {
            PrintMode::Line
        },
    }
}

/// The filtered output, followed on a line of its own by the hint where there
/// is one.
pub fn with_hint(filtered: &str, hint: Option<&str>) -> (text: String)
    ensures
        text@ == match hint {
            Some(h) => filtered@ + seq!['\n'] + h@,
            None => filtered@,
        },
{
    match hint {
        Some(h) => combined_output(filtered, h),
        None => filtered.to_owned(),
    }
}

/// The exit code passed on for a finished command: its own code where it
/// has one, else 128 plus the number of the signal that ended it, else 1.
pub open spec fn exit_code_of(code: Option<i32>, signal: Option<i32>) -> int {
    match code {
        Some(c) => c as int,
        None => match signal {
            Some(s) if s <= i32::MAX - 128 => 128 + s,
            _ => 1,
        },
    }
}

/// A command that exited passes on its own code; one ended by a signal
/// passes on 128 plus the signal's number, which is above 128 and so never
/// looks like success.
pub proof fn law_exit_code(code: Option<i32>, signal: Option<i32>)
    ensures
        code matches Some(c) ==> exit_code_of(code, signal) == c,
        forall|s: i32|
            code is None && signal == Some(s) && 0 < s <= 64 ==> exit_code_of(code, signal) == 128
                + s && exit_code_of(code, signal) > 128,
        code is None && (signal is None || signal->0 > 0) ==> exit_code_of(code, signal) > 0,
{
}

/// The exit code passed on for a finished command: its own code, else
/// 128 plus its signal number, else 1.
pub fn exit_code(code: Option<i32>, signal: Option<i32>) -> (res: i32)
    ensures
        res as int == exit_code_of(code, signal),
{
    match code {
        Some(c) => c,
        None => match signal {
            Some(s) if s <= i32::MAX - 128 => 128 + s,
            _ => 1,
        },
    }
}

} // verus!
