//! Command line argument parsing for the unset built-in.

use crate::args::{
    args_ok, parse_arguments, spec_operands, spec_options, specs_view, Mode as ParserMode,
    OptionOccurrence, OptionSpec, OptionSpecView, ParseError,
};
use crate::env::Env;
use crate::message::{Annotation, AnnotationType};
use crate::semantics::Field;
use vstd::prelude::*;

verus! {

/// What kind of thing the unset built-in removes.
#[derive(Clone, Copy, Debug, Eq, PartialEq, Structural)]
pub enum Mode {
    /// Remove variables.
    Variables,
    /// Remove functions.
    Functions,
}

impl Default for Mode {
    /// By default, variables are removed.
    fn default() -> (r: Mode)
        ensures
            r == Mode::Variables,
    {
        Mode::Variables
    }
}

/// The parsed form of an unset invocation.
#[derive(Debug, Eq, PartialEq)]
pub struct Command {
    /// What kind of thing to remove.
    pub mode: Mode,
    /// Names of the things to remove.
    pub names: Vec<Field>,
}

/// Error in parsing command line arguments.
#[derive(Debug, Eq, PartialEq)]
pub enum Error {
    /// An error occurred in the common parser.
    CommonError(ParseError),
}

impl Error {
    /// The annotation locating this error.
    pub fn main_annotation(&self) -> (r: Annotation)
        ensures
            r.annotation_type == AnnotationType::Error,
    {
        match self {
            Error::CommonError(inner) => inner.main_annotation(),
        }
    }
}

/// The names of the options the unset built-in accepts: `-f`/`--functions`
/// and `-v`/`--variables`.
pub open spec fn unset_specs() -> Seq<OptionSpecView> {
    seq![
        OptionSpecView {
            short: Some('f'),
            long: Some(seq!['f', 'u', 'n', 'c', 't', 'i', 'o', 'n', 's']),
        },
        OptionSpecView {
            short: Some('v'),
            long: Some(seq!['v', 'a', 'r', 'i', 'a', 'b', 'l', 'e', 's']),
        },
    ]
}

/// Builds the option specifications for the unset built-in.
fn unset_option_specs() -> (r: Vec<OptionSpec>)
    ensures
        specs_view(r@) =~= unset_specs(),
{
    let mut specs: Vec<OptionSpec> = Vec::new();
    specs.push(OptionSpec::new().short('f').long("functions"));
    specs.push(OptionSpec::new().short('v').long("variables"));
    proof {
        reveal_strlit("functions");
        reveal_strlit("variables");
        assert("functions"@ =~= seq!['f', 'u', 'n', 'c', 't', 'i', 'o', 'n', 's']);
        assert("variables"@ =~= seq!['v', 'a', 'r', 'i', 'a', 'b', 'l', 'e', 's']);
        assert(specs_view(specs@) =~= unset_specs());
    }
    specs
}

/// The removal mode an option occurrence selects.
pub open spec fn mode_of(o: OptionOccurrence) -> Mode {
    if o.spec_short == Some('f') {
        Mode::Functions
    } else {
        Mode::Variables
    }
}

/// The removal mode an option occurrence selects.
pub fn mode_for_option(option: &OptionOccurrence) -> (r: Mode)
    requires
        option.spec_short == Some('f') || option.spec_short == Some('v'),
    ensures
        r == mode_of(*option),
{
    match option.get_short() {
        Some(c) => {
            if c == 'f' {
                Mode::Functions
            } else {
                Mode::Variables
            }
        },
        None => vstd::pervasive::unreached(),
    }
}

/// Parses command line arguments for the unset built-in.
///
/// The last `-f` or `-v` option wins; with no option, variables are removed.
/// Every operand is a name to remove.
pub fn parse(env: &Env, args: Vec<Field>) -> (r: Result<Command, Error>)
    ensures
        ({
            let options = spec_options(unset_specs(), args@);
            let operands = spec_operands(unset_specs(), args@);
            match r {
                Ok(cmd) => args_ok(unset_specs(), args@) && cmd.mode == (if options.len() == 0 {
                    Mode::Variables
                } else {
                    mode_of(options.last())
                }) && cmd.names@ == operands,
                Err(_) => !args_ok(unset_specs(), args@),
            }
        }),
{
    let specs = unset_option_specs();
    let parser_mode = ParserMode::with_env(env);
    let (options, operands) = match parse_arguments(&specs, parser_mode, args) {
        Ok(pair) => pair,
        Err(e) => {
            return Err(Error::CommonError(e));
        },
    };
    let mode = if options.len() == 0 {
        Mode::Variables
    } else {
        proof {
            crate::args::lemma_spec_options_known(unset_specs(), args@);
            assert(options@.last() == options@[options@.len() - 1]);
        }
        mode_for_option(&options[options.len() - 1])
    };
    Ok(Command { mode, names: operands })
}

} // verus!
