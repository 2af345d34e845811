use mp::{run_report, RunReport, WriteOutcome};
use mp::{resolve_color_mode, run_options, ColorMode, ColorPolicy};

#[test]
fn auto_with_no_color_set_downgrades_to_plain() {
    assert_eq!(resolve_color_mode(ColorPolicy::Auto, true, true), ColorMode::Plain);
}

#[test]
fn explicit_always_outranks_no_color() {
    assert_eq!(resolve_color_mode(ColorPolicy::Always, true, true), ColorMode::Ansi);
}

#[test]
fn auto_colors_a_terminal_only() {
    assert_eq!(resolve_color_mode(ColorPolicy::Auto, false, true), ColorMode::Ansi);
    assert_eq!(resolve_color_mode(ColorPolicy::Auto, false, false), ColorMode::Plain);
    assert_eq!(resolve_color_mode(ColorPolicy::Never, false, true), ColorMode::Plain);
}

#[test]
fn the_terminal_width_limits_output_only_on_a_terminal() {
    assert_eq!(run_options(ColorPolicy::Never, false, true, Some(80)).width, Some(80));
    assert_eq!(run_options(ColorPolicy::Never, false, false, Some(80)).width, None);
    assert_eq!(run_options(ColorPolicy::Always, false, false, None).color, ColorMode::Ansi);
}

#[test]
fn write_failures_come_before_parse_failures_and_broken_pipes_count_as_success() {
    assert_eq!(run_report(true, WriteOutcome::Failed), RunReport::WriteFailure);
    assert_eq!(run_report(true, WriteOutcome::BrokenPipe), RunReport::Success);
    assert_eq!(run_report(true, WriteOutcome::Written), RunReport::ParseFailure);
    assert_eq!(run_report(false, WriteOutcome::Failed), RunReport::WriteFailure);
    assert_eq!(run_report(false, WriteOutcome::BrokenPipe), RunReport::Success);
    assert_eq!(run_report(false, WriteOutcome::Written), RunReport::Success);
}
