use rnamed::input::PatternSyntaxError;
use rnamed::outcome::{FileError, RenameOutcome, SkipReason};
use rnamed::report::{summarize, Report, Summary, EXIT_OK, EXIT_PATTERN};
use rnamed::walk::DirectoryReadError;

fn renamed(from: &str) -> RenameOutcome {
    RenameOutcome::Renamed { from: from.to_string(), to: format!("{}.new", from) }
}

fn skipped(from: &str) -> RenameOutcome {
    RenameOutcome::Skipped {
        from: from.to_string(),
        reason: SkipReason::TargetExists(format!("{}.new", from)),
    }
}

fn failed(from: &str) -> RenameOutcome {
    RenameOutcome::Failed { from: from.to_string(), error: FileError::Read("gone".to_string()) }
}

fn bad_pattern(input: &str) -> PatternSyntaxError {
    PatternSyntaxError {
        input: input.to_string(),
        position: 0,
        message: "invalid range pattern".to_string(),
    }
}

#[test]
fn summary_counts_each_kind() {
    let outcomes = vec![renamed("a"), skipped("b"), renamed("c"), failed("d"), renamed("e")];
    assert_eq!(summarize(&outcomes), Summary { renamed: 3, skipped: 1, failed: 1 });
}

#[test]
fn summary_of_nothing_is_zero() {
    assert_eq!(summarize(&[]), Summary { renamed: 0, skipped: 0, failed: 0 });
}

#[test]
fn report_keeps_every_outcome_in_order() {
    let mut report = Report::new();
    report.record(renamed("a"));
    report.record(failed("b"));
    report.record(skipped("c"));
    assert_eq!(report.outcomes, vec![renamed("a"), failed("b"), skipped("c")]);
    assert_eq!(report.summary(), Summary { renamed: 1, skipped: 1, failed: 1 });
}

#[test]
fn failed_files_do_not_change_the_exit_code() {
    let mut report = Report::new();
    report.record(failed("a"));
    report.record_directory_error(DirectoryReadError {
        dir: "d".to_string(),
        message: "permission denied".to_string(),
    });
    assert_eq!(report.exit_code(), EXIT_OK);
}

#[test]
fn pattern_error_changes_the_exit_code() {
    let mut report = Report::new();
    report.record(renamed("a"));
    report.record_pattern_error(bad_pattern("x["));
    assert_eq!(report.exit_code(), EXIT_PATTERN);
    assert_eq!(EXIT_PATTERN, 1);
}

#[test]
fn absorbed_report_comes_behind() {
    let mut whole = Report::new();
    whole.record(renamed("a"));
    whole.record_pattern_error(bad_pattern("x["));

    let mut part = Report::new();
    part.record(skipped("b"));
    part.record_pattern_error(bad_pattern("y["));
    part.record_directory_error(DirectoryReadError {
        dir: "d".to_string(),
        message: "gone".to_string(),
    });

    whole.absorb(part);
    assert_eq!(whole.outcomes, vec![renamed("a"), skipped("b")]);
    assert_eq!(whole.pattern_errors, vec![bad_pattern("x["), bad_pattern("y[")]);
    assert_eq!(whole.directory_errors.len(), 1);
    assert_eq!(whole.summary(), Summary { renamed: 1, skipped: 1, failed: 0 });
}
