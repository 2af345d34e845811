//! Command-line decisions: which color mode and width limit a run renders with.

use vstd::prelude::*;

use crate::options::{spec_default_options, ColorMode, RenderOptions};

verus! {

/// The path of a file named on the command line.
#[verifier::external_type_specification]
#[verifier::external_body]
pub struct ExPathBuf(std::path::PathBuf);

/// When to colorize output.
#[derive(Debug, Clone, Copy, PartialEq, Eq, Structural)]
pub enum ColorPolicy {
    /// Colorize when stdout is a terminal, unless `NO_COLOR` is set.
    Auto,
    /// Always colorize, even when `NO_COLOR` is set.
    Always,
    /// Never colorize.
    Never,
}

/// Command-line arguments of the previewer.
#[derive(Debug)]
pub struct Cli {
    /// When to colorize output: auto (a terminal, unless NO_COLOR), always, or never.
    pub color: ColorPolicy,
    /// Path to the Markdown file to preview.
    pub file: std::path::PathBuf,
}

/// The color mode a policy resolves to: `always` wins over `NO_COLOR`, `never` is
/// plain, and `auto` colorizes a terminal unless `NO_COLOR` is set.
pub open spec fn spec_color_mode(policy: ColorPolicy, no_color: bool, stdout_is_terminal: bool) -> ColorMode {
    match policy {
        ColorPolicy::Always => ColorMode::Ansi,
        ColorPolicy::Never => ColorMode::Plain,
        ColorPolicy::Auto => if stdout_is_terminal && !no_color {
            ColorMode::Ansi
        } else {
            ColorMode::Plain
        },
    }
}

/// Resolves the color mode for a run.
pub fn resolve_color_mode(policy: ColorPolicy, no_color: bool, stdout_is_terminal: bool) -> (r: ColorMode)
    ensures
        r == spec_color_mode(policy, no_color, stdout_is_terminal),
{
    match policy {
        ColorPolicy::Always => ColorMode::Ansi,
        ColorPolicy::Never => ColorMode::Plain,
        ColorPolicy::Auto => if stdout_is_terminal && !no_color {
            ColorMode::Ansi
        } else {
            ColorMode::Plain
        },
    }
}

/// An explicit policy decides alone; only `auto` looks at `NO_COLOR` and the
/// terminal, and it never colorizes output that is not a terminal.
pub proof fn lemma_color_policy(policy: ColorPolicy, no_color: bool, stdout_is_terminal: bool)
    ensures
        policy != ColorPolicy::Auto ==> forall|n: bool, t: bool|
            #[trigger] spec_color_mode(policy, n, t) == spec_color_mode(policy, no_color, stdout_is_terminal),
        !stdout_is_terminal ==> spec_color_mode(ColorPolicy::Auto, no_color, stdout_is_terminal)
            == ColorMode::Plain,
        no_color ==> spec_color_mode(ColorPolicy::Auto, no_color, stdout_is_terminal) == ColorMode::Plain,
        spec_color_mode(ColorPolicy::Always, no_color, stdout_is_terminal) == ColorMode::Ansi,
{
}

/// The options of a run: the default palette and theme, the resolved color mode,
/// and the terminal's width as the limit only when stdout is a terminal.
pub open spec fn spec_run_options(
    policy: ColorPolicy,
    no_color: bool,
    stdout_is_terminal: bool,
    terminal_width: Option<usize>,
) -> RenderOptions {
    RenderOptions {
        color: spec_color_mode(policy, no_color, stdout_is_terminal),
        width: if stdout_is_terminal {
            terminal_width
        } else {
            None
        },
        ..spec_default_options()
    }
}

/// Returns the options of a run.
pub fn run_options(
    policy: ColorPolicy,
    no_color: bool,
    stdout_is_terminal: bool,
    terminal_width: Option<usize>,
) -> (r: RenderOptions)
    ensures
        r == spec_run_options(policy, no_color, stdout_is_terminal, terminal_width),
{
    let defaults = RenderOptions::default();
    RenderOptions {
        color: resolve_color_mode(policy, no_color, stdout_is_terminal),
        width: if stdout_is_terminal {
            terminal_width
        } else {
            None
        },
        ..defaults
    }
}

} // verus!

verus! {

/// The terminal's width limits output exactly when stdout is a terminal; piped or
/// redirected output keeps its natural width.
pub proof fn lemma_width_limit_only_on_a_terminal(
    policy: ColorPolicy,
    no_color: bool,
    stdout_is_terminal: bool,
    terminal_width: Option<usize>,
)
    ensures
        !stdout_is_terminal ==> spec_run_options(policy, no_color, stdout_is_terminal, terminal_width).width
            is None,
        stdout_is_terminal ==> spec_run_options(policy, no_color, stdout_is_terminal, terminal_width).width
            == terminal_width,
{
}

/// How writing the rendered preview to stdout went.
#[derive(Debug, Clone, Copy, PartialEq, Eq, Structural)]
pub enum WriteOutcome {
    /// Everything was written.
    Written,
    /// The reader of stdout went away.
    BrokenPipe,
    /// Writing failed otherwise.
    Failed,
}

/// What a run reports once the file was read.
#[derive(Debug, Clone, Copy, PartialEq, Eq, Structural)]
pub enum RunReport {
    /// Nothing: the run succeeded.
    Success,
    /// The parse failure.
    ParseFailure,
    /// The write failure.
    WriteFailure,
}

/// The report of a run. The rendered output is written before the parse error that
/// ended it is reported, so a failed write is reported first and a broken pipe ends
/// the run quietly, as a success; only output written in full lets a parse failure
/// through.
pub open spec fn spec_run_report(parse_failed: bool, write: WriteOutcome) -> RunReport {
    match write {
        WriteOutcome::Failed => RunReport::WriteFailure,
        WriteOutcome::BrokenPipe => RunReport::Success,
        WriteOutcome::Written => if parse_failed {
            RunReport::ParseFailure
        } else {
            RunReport::Success
        },
    }
}

/// Decides what a run reports.
pub fn run_report(parse_failed: bool, write: WriteOutcome) -> (r: RunReport)
    ensures
        r == spec_run_report(parse_failed, write),
{
    match write {
        WriteOutcome::Failed => RunReport::WriteFailure,
        WriteOutcome::BrokenPipe => RunReport::Success,
        WriteOutcome::Written => if parse_failed {
            RunReport::ParseFailure
        } else {
            RunReport::Success
        },
    }
}

} // verus!
