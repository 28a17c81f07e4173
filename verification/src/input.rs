//! From one input of a run to the paths it stands for.
//!
//! An input is read as a glob pattern or as a literal path, by the
//! [`InputMode`] of the run. A pattern is compiled here; the caller walks
//! the matches, since that reads the file system.

use vstd::prelude::*;
use vstd::string::*;

verus! {

/// `glob::Paths`: the matches of a compiled pattern, not yet looked up.
/// Nothing inside it is read here; the caller iterates it.
#[verifier::external_type_specification]
#[verifier::external_body]
pub struct ExPaths(glob::Paths);

/// `glob::GlobError`: a directory that could not be read while the
/// caller walked the matches. It is named here because the matches hand
/// it out; nothing in this crate makes or reads one.
#[verifier::external_type_specification]
#[verifier::external_body]
pub struct ExGlobError(glob::GlobError);

/// `std::path::PathBuf`: one match, as the matches hand it out. Nothing
/// in this crate makes or reads one.
#[verifier::external_type_specification]
#[verifier::external_body]
pub struct ExPathBuf(std::path::PathBuf);

/// The fault that `glob::glob` finds in a pattern, if it finds one: its
/// position, counted in characters, and its message.
///
/// The function is not defined here: `compile` is trusted to report it.
pub uninterp spec fn pattern_fault(pattern: Seq<char>) -> Option<(usize, Seq<char>)>;

/// Calls `glob::glob` on `pattern` and, where that returns a
/// `glob::PatternError`, takes the fields `pos` and `msg` out of it.
///
/// Trusted: whether the pattern compiles, and if not with which position
/// and message, is settled by the text of the pattern; `pattern_fault` is
/// the name of that answer. Nothing is claimed of the matches, which
/// depend on the file system.
#[verifier::external_body]
fn compile(pattern: &str) -> (compiled: Result<glob::Paths, (usize, String)>)
    ensures
        match compiled {
            Ok(_) => pattern_fault(pattern@) is None,
            Err((position, message)) => pattern_fault(pattern@) == Some((position, message@)),
        },
{
    match glob::glob(pattern) {
        Ok(paths) => Ok(paths),
        Err(fault) => Err((fault.pos, fault.msg.to_string())),
    }
}

/// How the inputs of a run are read.
#[derive(Clone, Copy, Debug, PartialEq, Eq)]
pub enum InputMode {
    /// Each input is a glob pattern; a plain path is a pattern that
    /// matches itself. This is the default.
    Glob,
    /// Each input is one path, taken as it is written.
    Literal,
}

/// An input that is no well-formed pattern.
#[derive(Clone, Debug, PartialEq, Eq)]
pub struct PatternSyntaxError {
    /// The input as it was given.
    pub input: String,
    /// About where in the input the fault lies, counted in characters.
    pub position: usize,
    /// What is wrong there.
    pub message: String,
}

/// What one input stands for.
#[derive(Debug)]
pub enum InputPlan {
    /// One path, to be visited as it is.
    Literal(String),
    /// The matches of a pattern, each to be visited; there may be none.
    Matches(glob::Paths),
    /// No path: the input is reported and the run goes on with the next.
    Invalid(PatternSyntaxError),
}

/// Turns what compiling `input` gave into the plan for that input:
/// the matches, or else the error with the position and the message of
/// the fault.
pub fn plan_compiled(input: &str, compiled: Result<glob::Paths, (usize, String)>) -> (plan:
    InputPlan)
    ensures
        match compiled {
            Ok(paths) => plan == InputPlan::Matches(paths),
            Err((position, message)) => {
                &&& plan matches InputPlan::Invalid(error)
                &&& error.input@ == input@
                &&& error.position == position
                &&& error.message@ == message@
            },
        },
{
    match compiled {
        Ok(paths) => InputPlan::Matches(paths),
        Err((position, message)) => InputPlan::Invalid(
            PatternSyntaxError { input: input.to_owned(), position, message },
        ),
    }
}

/// Plans one input. In literal mode it is its own single path, whatever
/// it holds. In glob mode it is compiled as it stands: a pattern without
/// fault gives its matches, of which there may be none, and never an
/// error; a pattern with a fault gives the error for this input, with the
/// position and the message of the fault.
pub fn plan_input(input: &str, mode: InputMode) -> (plan: InputPlan)
    ensures
        match mode {
            InputMode::Literal => plan matches InputPlan::Literal(path) && path@ == input@,
            InputMode::Glob => match pattern_fault(input@) {
                None => plan is Matches,
                Some((position, message)) => {
                    &&& plan matches InputPlan::Invalid(error)
                    &&& error.input@ == input@
                    &&& error.position == position
                    &&& error.message@ == message
                },
            },
        },
{
    match mode {
        InputMode::Literal => InputPlan::Literal(input.to_owned()),
        InputMode::Glob => plan_compiled(input, compile(input)),
    }
}

} // verus!
