//! From the arguments of the program to the configuration of a run.

use vstd::prelude::*;
use vstd::string::*;
use crate::input::InputMode;

verus! {

/// Why no run takes place. Either way nothing on disk is touched.
#[derive(Clone, Copy, Debug, PartialEq, Eq)]
pub enum InvalidUsage {
    /// No path or pattern was given.
    NoInput,
    /// `--help` was given: the caller prints the usage text.
    HelpRequested,
}

/// What a run works on, and how it reads its inputs.
#[derive(Clone, Debug, PartialEq, Eq)]
pub struct Config {
    pub mode: InputMode,
    pub inputs: Vec<String>,
}

/// The argument that asks for the usage text.
pub open spec fn is_help_flag(arg: Seq<char>) -> bool {
    arg == "--help"@
}

/// The argument that has every input taken as a literal path.
pub open spec fn is_literal_flag(arg: Seq<char>) -> bool {
    arg == "--literal"@
}

/// Whether any argument, the program's name included, is `--help`.
pub open spec fn asks_help(args: Seq<String>) -> bool {
    exists|i: int| 0 <= i < args.len() && is_help_flag(#[trigger] args[i]@)
}

/// Whether an argument behind the program's name is `--literal`.
pub open spec fn asks_literal(args: Seq<String>) -> bool {
    exists|i: int| 1 <= i < args.len() && is_literal_flag(#[trigger] args[i]@)
}

/// The inputs among the arguments: all behind the program's name but
/// `--literal`, in order.
pub open spec fn inputs_of(args: Seq<String>) -> Seq<Seq<char>>
    decreases args.len(),
{
    if args.len() <= 1 {
        Seq::empty()
    } else if is_literal_flag(args.last()@) {
        inputs_of(args.drop_last())
    } else {
        inputs_of(args.drop_last()).push(args.last()@)
    }
}

/// Reads the arguments of the program, its name first.
///
/// Without an argument behind the name there is no input. Else `--help`
/// anywhere asks for the usage text. Else the inputs are run, as literal
/// paths if `--literal` is among the arguments and as glob patterns if not;
/// with `--literal` and nothing else there is no input again.
pub fn parse_args(args: &[String]) -> (result: Result<Config, InvalidUsage>)
    ensures
        match result {
            Ok(config) => {
                &&& args@.len() >= 2
                &&& !asks_help(args@)
                &&& inputs_of(args@).len() > 0
                &&& config.inputs.deep_view() == inputs_of(args@)
                &&& config.mode == if asks_literal(args@) {
                    InputMode::Literal
                } else {
                    InputMode::Glob
                }
            },
            Err(InvalidUsage::HelpRequested) => args@.len() >= 2 && asks_help(args@),
            Err(InvalidUsage::NoInput) => args@.len() < 2 || (!asks_help(args@) && inputs_of(
                args@,
            ).len() == 0),
        },
{
    if args.len() < 2 {
        return Err(InvalidUsage::NoInput);
    }
    let help = String::from_str("--help");
    let literal = String::from_str("--literal");
    let mut inputs: Vec<String> = Vec::new();
    let mut mode = InputMode::Glob;
    let mut help_seen = args[0] == help;
    let mut i: usize = 1;
    proof {
        let first = args@.take(1);
        assert(inputs.deep_view() =~= inputs_of(first));
        assert(first[0] == args@[0]);
        assert(help_seen == asks_help(first));
        assert(!asks_literal(first));
    }
    while i < args.len()
        invariant
            1 <= i <= args.len(),
            help@ == "--help"@,
            literal@ == "--literal"@,
            help_seen == asks_help(args@.take(i as int)),
            mode == if asks_literal(args@.take(i as int)) {
                InputMode::Literal
            } else {
                InputMode::Glob
            },
            inputs.deep_view() == inputs_of(args@.take(i as int)),
        decreases args.len() - i,
    {
        let arg = &args[i];
        let ghost seen = args@.take(i as int);
        let ghost next = args@.take(i + 1);
        let ghost collected = inputs.deep_view();
        proof {
            assert(next.drop_last() =~= seen);
            assert(next.last() == args@[i as int]);
            assert(asks_help(next) == (asks_help(seen) || is_help_flag(arg@))) by {
                if asks_help(seen) {
                    let k = choose|k: int| 0 <= k < seen.len() && is_help_flag(#[trigger] seen[k]@);
                    assert(is_help_flag(next[k]@));
                }
                if is_help_flag(arg@) {
                    assert(is_help_flag(next[i as int]@));
                }
                if asks_help(next) {
                    let k = choose|k: int| 0 <= k < next.len() && is_help_flag(#[trigger] next[k]@);
                    if k < i {
                        assert(is_help_flag(seen[k]@));
                    }
                }
            }
            assert(asks_literal(next) == (asks_literal(seen) || is_literal_flag(arg@))) by {
                if asks_literal(seen) {
                    let k = choose|k: int|
                        1 <= k < seen.len() && is_literal_flag(#[trigger] seen[k]@);
                    assert(is_literal_flag(next[k]@));
                }
                if is_literal_flag(arg@) {
                    assert(is_literal_flag(next[i as int]@));
                }
                if asks_literal(next) {
                    let k = choose|k: int|
                        1 <= k < next.len() && is_literal_flag(#[trigger] next[k]@);
                    if k < i {
                        assert(is_literal_flag(seen[k]@));
                    }
                }
            }
        }
        if *arg == help {
            help_seen = true;
        }
        if *arg == literal {
            mode = InputMode::Literal;
        } else {
            inputs.push(arg.clone());
            proof {
                assert(inputs.deep_view() =~= collected.push(arg@));
            }
        }
        i += 1;
    }
    proof {
        assert(args@.take(args.len() as int) =~= args@);
    }
    if help_seen {
        Err(InvalidUsage::HelpRequested)
    } else if inputs.len() == 0 {
        Err(InvalidUsage::NoInput)
    } else {
        Ok(Config { mode, inputs })
    }
}

} // verus!
