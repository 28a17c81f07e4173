//! What a run reports when it is over.
//!
//! Every file ends in one outcome, and every input or directory that
//! could not be used ends in one error; the report keeps them all. Only
//! inputs that are no well-formed patterns change the exit code: a file
//! that failed is reported and the code stays as it is.

use vstd::prelude::*;
use crate::cli::InvalidUsage;
use crate::input::PatternSyntaxError;
use crate::outcome::RenameOutcome;
use crate::walk::DirectoryReadError;

verus! {

/// Exit code of a run that read all its inputs, and of `--help`.
pub const EXIT_OK: u8 = 0;

/// Exit code of a run with an input that is no well-formed pattern.
pub const EXIT_PATTERN: u8 = 1;

/// Exit code when no input was given.
pub const EXIT_USAGE: u8 = 2;

/// How many of `outcomes` meet `wanted`.
pub open spec fn count_of(outcomes: Seq<RenameOutcome>, wanted: spec_fn(RenameOutcome) -> bool) -> nat
    decreases outcomes.len(),
{
    if outcomes.len() == 0 {
        0
    } else if wanted(outcomes.last()) {
        count_of(outcomes.drop_last(), wanted) + 1
    } else {
        count_of(outcomes.drop_last(), wanted)
    }
}

/// How many of `outcomes` are renames.
pub open spec fn renamed_in(outcomes: Seq<RenameOutcome>) -> nat {
    count_of(outcomes, |o: RenameOutcome| o is Renamed)
}

/// How many of `outcomes` are skips.
pub open spec fn skipped_in(outcomes: Seq<RenameOutcome>) -> nat {
    count_of(outcomes, |o: RenameOutcome| o is Skipped)
}

/// How many of `outcomes` are failures.
pub open spec fn failed_in(outcomes: Seq<RenameOutcome>) -> nat {
    count_of(outcomes, |o: RenameOutcome| o is Failed)
}

/// Every outcome is counted once: the three counts add up to the number
/// of outcomes.
pub proof fn lemma_counts_add_up(outcomes: Seq<RenameOutcome>)
    ensures
        renamed_in(outcomes) + skipped_in(outcomes) + failed_in(outcomes) == outcomes.len(),
    decreases outcomes.len(),
{
    if outcomes.len() > 0 {
        lemma_counts_add_up(outcomes.drop_last());
    }
}

/// The outcomes of a run by kind.
#[derive(Clone, Copy, Debug, PartialEq, Eq)]
pub struct Summary {
    pub renamed: usize,
    pub skipped: usize,
    pub failed: usize,
}

/// Counts `outcomes` by kind.
pub fn summarize(outcomes: &[RenameOutcome]) -> (summary: Summary)
    ensures
        summary.renamed == renamed_in(outcomes@),
        summary.skipped == skipped_in(outcomes@),
        summary.failed == failed_in(outcomes@),
        summary.renamed + summary.skipped + summary.failed == outcomes@.len(),
{
    let mut summary = Summary { renamed: 0, skipped: 0, failed: 0 };
    let mut i: usize = 0;
    while i < outcomes.len()
        invariant
            i <= outcomes.len(),
            summary.renamed == renamed_in(outcomes@.take(i as int)),
            summary.skipped == skipped_in(outcomes@.take(i as int)),
            summary.failed == failed_in(outcomes@.take(i as int)),
            summary.renamed + summary.skipped + summary.failed == i,
        decreases outcomes.len() - i,
    {
        proof {
            assert(outcomes@.take(i + 1).drop_last() =~= outcomes@.take(i as int));
        }
        match &outcomes[i] {
            RenameOutcome::Renamed { .. } => {
                summary.renamed = summary.renamed + 1;
            },
            RenameOutcome::Skipped { .. } => {
                summary.skipped = summary.skipped + 1;
            },
            RenameOutcome::Failed { .. } => {
                summary.failed = summary.failed + 1;
            },
        }
        i += 1;
    }
    proof {
        assert(outcomes@.take(outcomes.len() as int) =~= outcomes@);
    }
    summary
}

/// All that a run, or a part of one, has to report.
#[derive(Clone, Debug, PartialEq, Eq)]
pub struct Report {
    pub outcomes: Vec<RenameOutcome>,
    pub pattern_errors: Vec<PatternSyntaxError>,
    pub directory_errors: Vec<DirectoryReadError>,
}

impl Report {
    /// A report with nothing in it.
    pub fn new() -> (report: Report)
        ensures
            report.outcomes@.len() == 0,
            report.pattern_errors@.len() == 0,
            report.directory_errors@.len() == 0,
    {
        Report { outcomes: Vec::new(), pattern_errors: Vec::new(), directory_errors: Vec::new() }
    }

    /// Adds the outcome of one file.
    pub fn record(&mut self, outcome: RenameOutcome)
        ensures
            final(self).outcomes@ == old(self).outcomes@.push(outcome),
            final(self).pattern_errors@ == old(self).pattern_errors@,
            final(self).directory_errors@ == old(self).directory_errors@,
    {
        self.outcomes.push(outcome);
    }

    /// Adds an input that is no well-formed pattern.
    pub fn record_pattern_error(&mut self, error: PatternSyntaxError)
        ensures
            final(self).outcomes@ == old(self).outcomes@,
            final(self).pattern_errors@ == old(self).pattern_errors@.push(error),
            final(self).directory_errors@ == old(self).directory_errors@,
    {
        self.pattern_errors.push(error);
    }

    /// Adds a directory that could not be listed.
    pub fn record_directory_error(&mut self, error: DirectoryReadError)
        ensures
            final(self).outcomes@ == old(self).outcomes@,
            final(self).pattern_errors@ == old(self).pattern_errors@,
            final(self).directory_errors@ == old(self).directory_errors@.push(error),
    {
        self.directory_errors.push(error);
    }

    /// Takes over all that `other` holds, behind what is here already:
    /// the reports of the parts of a run make the report of the run.
    pub fn absorb(&mut self, other: Report)
        ensures
            final(self).outcomes@ == old(self).outcomes@ + other.outcomes@,
            final(self).pattern_errors@ == old(self).pattern_errors@ + other.pattern_errors@,
            final(self).directory_errors@ == old(self).directory_errors@
                + other.directory_errors@,
    {
        let mut other = other;
        self.outcomes.append(&mut other.outcomes);
        self.pattern_errors.append(&mut other.pattern_errors);
        self.directory_errors.append(&mut other.directory_errors);
    }

    /// The outcomes by kind.
    pub fn summary(&self) -> (summary: Summary)
        ensures
            summary.renamed == renamed_in(self.outcomes@),
            summary.skipped == skipped_in(self.outcomes@),
            summary.failed == failed_in(self.outcomes@),
            summary.renamed + summary.skipped + summary.failed == self.outcomes@.len(),
    {
        summarize(self.outcomes.as_slice())
    }

    /// The exit code of the run: `EXIT_PATTERN` if an input was no
    /// well-formed pattern, else `EXIT_OK`, whatever became of the files.
    pub fn exit_code(&self) -> (code: u8)
        ensures
            code == if self.pattern_errors@.len() > 0 {
                EXIT_PATTERN
            } else {
                EXIT_OK
            },
    {
        if self.pattern_errors.len() > 0 {
            EXIT_PATTERN
        } else {
            EXIT_OK
        }
    }
}

/// The exit code when no run takes place: `EXIT_USAGE` without input,
/// `EXIT_OK` after `--help`.
pub fn usage_exit_code(usage: InvalidUsage) -> (code: u8)
    ensures
        code == match usage {
            InvalidUsage::NoInput => EXIT_USAGE,
            InvalidUsage::HelpRequested => EXIT_OK,
        },
{
    match usage {
        InvalidUsage::NoInput => EXIT_USAGE,
        InvalidUsage::HelpRequested => EXIT_OK,
    }
}

} // verus!
