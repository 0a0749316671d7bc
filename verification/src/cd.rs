//! Command line argument parsing for the cd built-in.

use crate::args::{
    args_ok, parse_arguments, spec_operands, spec_options, specs_view, Mode as ParserMode,
    OptionOccurrence, OptionSpec, OptionSpecView, ParseError,
};
use crate::env::Env;
use crate::message::{Annotation, AnnotationType};
use crate::semantics::Field;
use vstd::prelude::*;

verus! {

/// How the cd built-in resolves the new working directory.
#[derive(Clone, Copy, Debug, Eq, PartialEq, Structural)]
pub enum Mode {
    /// Resolve `.` and `..` logically, against the `PWD` value.
    Logical,
    /// Resolve the physical directory structure.
    Physical,
}

impl Default for Mode {
    /// The default resolution is logical.
    fn default() -> (r: Mode)
        ensures
            r == Mode::Logical,
    {
        Mode::Logical
    }
}

/// The parsed form of a cd invocation.
#[derive(Debug, Eq, PartialEq)]
pub struct Command {
    /// How to resolve the new working directory.
    pub mode: Mode,
    /// The operand naming the new working directory, if any.
    pub operand: Option<Field>,
}

impl Clone for Command {
    fn clone(&self) -> (r: Self)
        ensures
            r == *self,
    {
        Command {
            mode: self.mode,
            operand: match &self.operand {
                Some(f) => Some(f.clone()),
                None => None,
            },
        }
    }
}

/// Error in parsing command line arguments.
#[derive(Debug, Eq, PartialEq)]
pub enum Error {
    /// An error occurred in the common parser.
    CommonError(ParseError),
    /// More than one operand is given.
    UnexpectedOperands(Vec<Field>),
}

/// The suffix of the annotation label for an unexpected operand.
pub open spec fn unexpected_operand_suffix() -> Seq<char> {
    seq![':', ' ', 'u', 'n', 'e', 'x', 'p', 'e', 'c', 't', 'e', 'd', ' ', 'o', 'p', 'e', 'r', 'a', 'n', 'd']
}

impl Error {
    /// The annotation locating this error: the common parser's annotation, or
    /// the first unexpected operand.
    pub fn main_annotation(&self) -> (r: Annotation)
        requires
            self matches Error::UnexpectedOperands(v) ==> v@.len() > 0,
        ensures
            r.annotation_type == AnnotationType::Error,
            match self {
                Error::UnexpectedOperands(v) => r.label@ == v@[0].value@
                    + unexpected_operand_suffix() && r.location == v@[0].origin,
                Error::CommonError(_) => true,
            },
    {
        match self {
            Error::CommonError(e) => e.main_annotation(),
            Error::UnexpectedOperands(operands) => {
                let mut label = String::new();
                label.append(operands[0].value.as_str());
                label.append(": unexpected operand");
                proof {
                    reveal_strlit(": unexpected operand");
                    assert(label@ =~= operands@[0].value@ + unexpected_operand_suffix());
                }
                Annotation::new(AnnotationType::Error, label, &operands[0].origin)
            },
        }
    }
}

/// The names of the options the cd built-in accepts: `-L`/`--logical` and
/// `-P`/`--physical`.
pub open spec fn cd_specs() -> Seq<OptionSpecView> {
    seq![
        OptionSpecView {
            short: Some('L'),
            long: Some(seq!['l', 'o', 'g', 'i', 'c', 'a', 'l']),
        },
        OptionSpecView {
            short: Some('P'),
            long: Some(seq!['p', 'h', 'y', 's', 'i', 'c', 'a', 'l']),
        },
    ]
}

/// Builds the option specifications for the cd built-in.
fn cd_option_specs() -> (r: Vec<OptionSpec>)
    ensures
        specs_view(r@) =~= cd_specs(),
{
    let mut specs: Vec<OptionSpec> = Vec::new();
    specs.push(OptionSpec::new().short('L').long("logical"));
    specs.push(OptionSpec::new().short('P').long("physical"));
    proof {
        reveal_strlit("logical");
        reveal_strlit("physical");
        assert("logical"@ =~= seq!['l', 'o', 'g', 'i', 'c', 'a', 'l']);
        assert("physical"@ =~= seq!['p', 'h', 'y', 's', 'i', 'c', 'a', 'l']);
        assert(specs_view(specs@) =~= cd_specs());
    }
    specs
}

/// The resolution mode an option occurrence selects.
pub open spec fn mode_of(o: OptionOccurrence) -> Mode {
    if o.spec_short == Some('P') {
        Mode::Physical
    } else {
        Mode::Logical
    }
}

/// The resolution mode an option occurrence selects.
pub fn mode_for_option(option: &OptionOccurrence) -> (r: Mode)
    requires
        option.spec_short == Some('L') || option.spec_short == Some('P'),
    ensures
        r == mode_of(*option),
{
    match option.get_short() {
        Some(c) => {
            if c == 'P' {
                Mode::Physical
            } else {
                Mode::Logical
            }
        },
        None => vstd::pervasive::unreached(),
    }
}

/// Parses command line arguments for the cd built-in.
///
/// The last `-L` or `-P` option wins; with no option the mode is logical.
/// At most one operand is accepted; any further operands are the error.
pub fn parse(env: &Env, args: Vec<Field>) -> (r: Result<Command, Error>)
    ensures
        ({
            let options = spec_options(cd_specs(), args@);
            let operands = spec_operands(cd_specs(), args@);
            match r {
                Ok(cmd) => args_ok(cd_specs(), args@) && operands.len() <= 1 && cmd.mode == (
                if options.len() == 0 {
                    Mode::Logical
                } else {
                    mode_of(options.last())
                }) && cmd.operand == (if operands.len() == 0 {
                    None
                } else {
                    Some(operands[0])
                }),
                Err(Error::CommonError(_)) => !args_ok(cd_specs(), args@),
                Err(Error::UnexpectedOperands(extra)) => args_ok(cd_specs(), args@)
                    && operands.len() > 1 && extra@ == operands.skip(1),
            }
        }),
{
    let specs = cd_option_specs();
    let parser_mode = ParserMode::with_env(env);
    let (options, mut operands) = match parse_arguments(&specs, parser_mode, args) {
        Ok(pair) => pair,
        Err(e) => {
            return Err(Error::CommonError(e));
        },
    };
    let mode = if options.len() == 0 {
        Mode::Logical
    } else {
        proof {
            crate::args::lemma_spec_options_known(cd_specs(), args@);
            assert(options@.last() == options@[options@.len() - 1]);
        }
        mode_for_option(&options[options.len() - 1])
    };
    if operands.len() == 0 {
        Ok(Command { mode, operand: None })
    } else if operands.len() == 1 {
        let operand = match operands.pop() {
            Some(f) => f,
            None => vstd::pervasive::unreached(),
        };
        Ok(Command { mode, operand: Some(operand) })
    } else {
        let ghost full = operands@;
        let extra = operands.split_off(1);
        proof {
            assert(extra@ =~= full.skip(1));
        }
        Err(Error::UnexpectedOperands(extra))
    }
}

} // verus!
