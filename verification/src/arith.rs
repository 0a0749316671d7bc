//! Arithmetic expansion.
//!
//! The contained text is first expanded, then the resulting string is
//! evaluated as an integer expression by [`crate::arith_eval`], and the
//! decimal result becomes the expansion's characters.

use crate::arith_eval;
use crate::expansion::{
    all_literal_units, literal_text_chars, push_soft_chars, single_field_chars, soft_chars,
    AttrChar, CommandSubstituter, Error, ErrorCause, Origin, Phrase,
};
use crate::numeral::{
    dec_digits_value, dec_nat, digit_run, is_dec_numeral, lemma_dec_digits_bounds,
    lemma_digit_run,
};
use crate::semantics::ExitStatus;
use crate::source::{Code, Location, Source};
use crate::syntax::Text;
use crate::variable::VariableSet;
use vstd::prelude::*;
use vstd::string::StrSliceExecFns;

verus! {

/// Types of errors that may occur in arithmetic expansion.
///
/// This enum lists the evaluator's error variants flatly, carrying
/// informative [`Location`]s where the evaluator only had index ranges.
#[derive(Debug, Eq, PartialEq)]
pub enum ArithError {
    /// A value token contains an invalid character.
    InvalidNumericConstant,
    /// The expression contains a character that can start no token.
    InvalidCharacter,
    /// Expression with a missing value.
    IncompleteExpression,
    /// Operator missing.
    MissingOperator,
    /// `(` without `)`.
    UnclosedParenthesis {
        /// The location of the opening parenthesis.
        opening_location: Location,
    },
    /// `?` without `:`.
    QuestionWithoutColon {
        /// The location of the `?`.
        question_location: Location,
    },
    /// `:` without matching `?`.
    ColonWithoutQuestion,
    /// Other error in operator usage.
    InvalidOperator,
    /// A variable value that is not a valid number.
    InvalidVariableValue(String),
    /// Result out of bounds.
    Overflow,
    /// Division by zero.
    DivisionByZero,
    /// Left bit-shifting of a negative value.
    LeftShiftingNegative,
    /// Bit-shifting with a negative right-hand-side operand.
    ReverseShifting,
    /// Assignment with a left-hand-side operand not being a variable.
    AssignmentToValue,
}

/// The message describing each arithmetic error.
pub open spec fn arith_error_message(e: ArithError) -> Seq<char> {
    match e {
        ArithError::InvalidNumericConstant => "invalid numeric constant"@,
        ArithError::InvalidCharacter => "invalid character"@,
        ArithError::IncompleteExpression => "incomplete expression"@,
        ArithError::MissingOperator => "expected an operator"@,
        ArithError::UnclosedParenthesis { .. } => "unmatched parenthesis"@,
        ArithError::QuestionWithoutColon { .. } => "expected `:`"@,
        ArithError::ColonWithoutQuestion => "`:` without matching `?`"@,
        ArithError::InvalidOperator => "invalid use of operator"@,
        ArithError::InvalidVariableValue(value) => "invalid variable value: "@ + value@,
        ArithError::Overflow => "overflow"@,
        ArithError::DivisionByZero => "division by zero"@,
        ArithError::LeftShiftingNegative => "left-shifting a negative integer"@,
        ArithError::ReverseShifting => "negative shift width"@,
        ArithError::AssignmentToValue => "assignment to a non-variable"@,
    }
}

impl ArithError {
    /// A message describing this error.
    pub fn message(&self) -> (r: String)
        ensures
            r@ == arith_error_message(*self),
    {
        match self {
            ArithError::InvalidNumericConstant => "invalid numeric constant".to_owned(),
            ArithError::InvalidCharacter => "invalid character".to_owned(),
            ArithError::IncompleteExpression => "incomplete expression".to_owned(),
            ArithError::MissingOperator => "expected an operator".to_owned(),
            ArithError::UnclosedParenthesis { .. } => "unmatched parenthesis".to_owned(),
            ArithError::QuestionWithoutColon { .. } => "expected `:`".to_owned(),
            ArithError::ColonWithoutQuestion => "`:` without matching `?`".to_owned(),
            ArithError::InvalidOperator => "invalid use of operator".to_owned(),
            ArithError::InvalidVariableValue(value) => {
                let mut r = String::new();
                r.append("invalid variable value: ");
                r.append(value.as_str());
                proof {
                    assert(r@ =~= "invalid variable value: "@ + value@);
                }
                r
            },
            ArithError::Overflow => "overflow".to_owned(),
            ArithError::DivisionByZero => "division by zero".to_owned(),
            ArithError::LeftShiftingNegative => "left-shifting a negative integer".to_owned(),
            ArithError::ReverseShifting => "negative shift width".to_owned(),
            ArithError::AssignmentToValue => "assignment to a non-variable".to_owned(),
        }
    }

    /// Returns a location related with this error and a message describing
    /// the location, if any: the opening parenthesis for an unclosed
    /// parenthesis, and the `?` for a `?` without `:`.
    pub fn related_location(&self) -> (r: Option<(&Location, &str)>)
        ensures
            match self {
                ArithError::UnclosedParenthesis { opening_location } => (r matches Some(pair)
                    && *pair.0 == opening_location && pair.1@
                    == "the opening parenthesis was here"@),
                ArithError::QuestionWithoutColon { question_location } => (r matches Some(pair)
                    && *pair.0 == question_location && pair.1@ == "`?` was here"@),
                _ => r is None,
            },
    {
        match self {
            ArithError::UnclosedParenthesis { opening_location } => Some(
                (opening_location, "the opening parenthesis was here"),
            ),
            ArithError::QuestionWithoutColon { question_location } => Some(
                (question_location, "`?` was here"),
            ),
            _ => None,
        }
    }
}

/// The flat arithmetic error a failure cause maps to, with index ranges
/// turned into locations in the given code block.
pub open spec fn converted_cause(cause: arith_eval::ErrorCause, source: Code) -> ErrorCause {
    match cause {
        arith_eval::ErrorCause::SyntaxError(e) => match e {
            arith_eval::SyntaxError::TokenError(t) => match t {
                arith_eval::TokenError::InvalidNumericConstant => ErrorCause::ArithError(
                    ArithError::InvalidNumericConstant,
                ),
                arith_eval::TokenError::InvalidCharacter => ErrorCause::ArithError(
                    ArithError::InvalidCharacter,
                ),
            },
            arith_eval::SyntaxError::IncompleteExpression => ErrorCause::ArithError(
                ArithError::IncompleteExpression,
            ),
            arith_eval::SyntaxError::MissingOperator => ErrorCause::ArithError(
                ArithError::MissingOperator,
            ),
            arith_eval::SyntaxError::UnclosedParenthesis { opening_start, opening_end } => (
            ErrorCause::ArithError(
                ArithError::UnclosedParenthesis {
                    opening_location: (Location {
                        code: source,
                        range_start: opening_start,
                        range_end: opening_end,
                    }),
                },
            )),
            arith_eval::SyntaxError::QuestionWithoutColon { question_start, question_end } => (
            ErrorCause::ArithError(
                ArithError::QuestionWithoutColon {
                    question_location: (Location {
                        code: source,
                        range_start: question_start,
                        range_end: question_end,
                    }),
                },
            )),
            arith_eval::SyntaxError::ColonWithoutQuestion => ErrorCause::ArithError(
                ArithError::ColonWithoutQuestion,
            ),
            arith_eval::SyntaxError::InvalidOperator => ErrorCause::ArithError(
                ArithError::InvalidOperator,
            ),
        },
        arith_eval::ErrorCause::EvalError(e) => match e {
            arith_eval::EvalError::InvalidVariableValue(value) => ErrorCause::ArithError(
                ArithError::InvalidVariableValue(value),
            ),
            arith_eval::EvalError::Overflow => ErrorCause::ArithError(ArithError::Overflow),
            arith_eval::EvalError::DivisionByZero => ErrorCause::ArithError(
                ArithError::DivisionByZero,
            ),
            arith_eval::EvalError::LeftShiftingNegative => ErrorCause::ArithError(
                ArithError::LeftShiftingNegative,
            ),
            arith_eval::EvalError::ReverseShifting => ErrorCause::ArithError(
                ArithError::ReverseShifting,
            ),
            arith_eval::EvalError::AssignmentToValue => ErrorCause::ArithError(
                ArithError::AssignmentToValue,
            ),
            arith_eval::EvalError::AssignVariableError(e) => ErrorCause::AssignReadOnly(e),
        },
    }
}

/// Converts an evaluation failure cause into an expansion error cause.
///
/// The `source` argument must be the code block holding the arithmetic
/// expression being expanded; it is used to reproduce the locations the
/// evaluator reported as index ranges.
pub fn convert_error_cause(cause: arith_eval::ErrorCause, source: &Code) -> (r: ErrorCause)
    ensures
        r == converted_cause(cause, *source),
{
    match cause {
        arith_eval::ErrorCause::SyntaxError(e) => match e {
            arith_eval::SyntaxError::TokenError(t) => match t {
                arith_eval::TokenError::InvalidNumericConstant => ErrorCause::ArithError(
                    ArithError::InvalidNumericConstant,
                ),
                arith_eval::TokenError::InvalidCharacter => ErrorCause::ArithError(
                    ArithError::InvalidCharacter,
                ),
            },
            arith_eval::SyntaxError::IncompleteExpression => ErrorCause::ArithError(
                ArithError::IncompleteExpression,
            ),
            arith_eval::SyntaxError::MissingOperator => ErrorCause::ArithError(
                ArithError::MissingOperator,
            ),
            arith_eval::SyntaxError::UnclosedParenthesis { opening_start, opening_end } => {
                let opening_location = Location {
                    code: source.clone(),
                    range_start: opening_start,
                    range_end: opening_end,
                };
                ErrorCause::ArithError(ArithError::UnclosedParenthesis { opening_location })
            },
            arith_eval::SyntaxError::QuestionWithoutColon { question_start, question_end } => {
                let question_location = Location {
                    code: source.clone(),
                    range_start: question_start,
                    range_end: question_end,
                };
                ErrorCause::ArithError(ArithError::QuestionWithoutColon { question_location })
            },
            arith_eval::SyntaxError::ColonWithoutQuestion => ErrorCause::ArithError(
                ArithError::ColonWithoutQuestion,
            ),
            arith_eval::SyntaxError::InvalidOperator => ErrorCause::ArithError(
                ArithError::InvalidOperator,
            ),
        },
        arith_eval::ErrorCause::EvalError(e) => match e {
            arith_eval::EvalError::InvalidVariableValue(value) => ErrorCause::ArithError(
                ArithError::InvalidVariableValue(value),
            ),
            arith_eval::EvalError::Overflow => ErrorCause::ArithError(ArithError::Overflow),
            arith_eval::EvalError::DivisionByZero => ErrorCause::ArithError(
                ArithError::DivisionByZero,
            ),
            arith_eval::EvalError::LeftShiftingNegative => ErrorCause::ArithError(
                ArithError::LeftShiftingNegative,
            ),
            arith_eval::EvalError::ReverseShifting => ErrorCause::ArithError(
                ArithError::ReverseShifting,
            ),
            arith_eval::EvalError::AssignmentToValue => ErrorCause::ArithError(
                ArithError::AssignmentToValue,
            ),
            arith_eval::EvalError::AssignVariableError(e) => ErrorCause::AssignReadOnly(e),
        },
    }
}

/// Expands an arithmetic expansion: the text is expanded, the resulting
/// string evaluated as an integer expression, and the decimal result becomes
/// the expansion's characters, marked as soft expansion.
///
/// The exit status of the last command substitution that ran during the text
/// expansion is stored into `last_command_subst_exit_status`. A failure
/// carries a location whose code block holds the expanded expression tagged
/// with the original location of the expansion.
pub fn expand<S: CommandSubstituter>(
    text: &Text,
    location: &Location,
    vars: &mut VariableSet,
    substituter: &mut S,
    last_command_subst_exit_status: &mut Option<ExitStatus>,
) -> (r: Result<Phrase, Error>)
    requires
        old(vars).wf(),
    ensures
        final (vars).wf(),
        final (vars).ctxs() == old(vars).ctxs(),
        *final (last_command_subst_exit_status) == *old(last_command_subst_exit_status) || *final (
        last_command_subst_exit_status) is Some,
        (forall|i: int|
            0 <= i < text.0@.len() ==> crate::expansion::is_pure_unit(#[trigger] text.0@[i]))
            ==> (*final (last_command_subst_exit_status) == *old(last_command_subst_exit_status)
            && (r matches Err(e) ==> (e.location.code.start_line_number == 1 && (
        e.location.code.source matches Source::Arith { original } && *original == *location)
            && !(e.cause matches ErrorCause::CommandSubstError(_))))),
        all_literal_units(text.0@) ==> (r matches Err(e) ==> e.location.code.value@
            == literal_text_chars(text.0@)),
        all_literal_units(text.0@) && is_dec_numeral(literal_text_chars(text.0@))
            && dec_digits_value(literal_text_chars(text.0@)) <= i64::MAX ==> (r matches Ok(p) && (
        single_field_chars(p) == Some(soft_chars(literal_text_chars(text.0@), false))) && *final (
        vars) == *old(vars)),
        all_literal_units(text.0@) ==> (arith_eval::plus_chars(literal_text_chars(text.0@))
            matches Some(p) ==> (p.0 + p.1 <= i64::MAX ==> (r matches Ok(ph) && (
        single_field_chars(ph) == Some(soft_chars(dec_nat((p.0 + p.1) as nat), false))) && *final (
        vars) == *old(vars)))),
        all_literal_units(text.0@) ==> (arith_eval::neg_chars(literal_text_chars(text.0@))
            matches Some(nv) ==> (r matches Ok(ph) && (single_field_chars(ph) == Some(
            soft_chars(crate::numeral::dec_int(-nv), false),
        )) && *final (vars) == *old(vars))),
        all_literal_units(text.0@) ==> (arith_eval::ident_chars(literal_text_chars(text.0@))
            matches Some(nm) ==> ((old(vars).lookup(nm) is None ==> (r matches Ok(ph) && (
        single_field_chars(ph) == Some(soft_chars(dec_nat(0), false))) && *final (vars) == *old(
            vars,
        ))) && (arith_eval::numeral_scalar(old(vars).lookup(nm)) matches Some(nv) ==> (r matches
        Ok(ph) && (single_field_chars(ph) == Some(soft_chars(dec_nat(nv as nat), false)))
            && *final (vars) == *old(vars))))),
        all_literal_units(text.0@) ==> (arith_eval::assign_chars(literal_text_chars(text.0@))
            matches Some(av) ==> (old(vars).stack_of(av.0).len() == 0 ==> (r matches Ok(ph) && (
        single_field_chars(ph) == Some(soft_chars(dec_nat(av.1 as nat), false))) && (final (
        vars).lookup(av.0) matches Some(v) && (v.value matches crate::variable::Value::Scalar(sv)
            && sv@ == crate::numeral::dec_int(av.1)) && (v.last_assigned_location matches Some(
            loc,
        ) && loc.range_start == 0 && loc.range_end as int == av.0.len() && loc.code.value@
            == literal_text_chars(text.0@) && loc.code.start_line_number == 1 && (loc.code.source
            matches Source::Arith { original } && *original == *location)) && !v.is_exported
            && v.read_only_location is None) && (forall|m: Seq<char>|
            m != av.0 ==> final (vars).stack_of(m) == old(vars).stack_of(m))))),
        all_literal_units(text.0@) && crate::numeral::is_invalid_octal(literal_text_chars(text.0@))
            && crate::numeral::oct_digits_value(
            literal_text_chars(text.0@).take(
                crate::numeral::first_bad_octal(literal_text_chars(text.0@)),
            ),
        ) * 8 + 7 <= i64::MAX ==> (r matches Err(e) && e.cause == ErrorCause::ArithError(
            ArithError::InvalidNumericConstant,
        ) && e.location.range_start == 0 && e.location.range_end as int
            == crate::numeral::first_bad_octal(literal_text_chars(text.0@)) + 1 && *final (vars)
            == *old(vars)),
{
    let ghost units = text.0@;
    let ghost literal = all_literal_units(units);
    let ghost ltc = literal_text_chars(units);
    let ghost plus = literal && (arith_eval::plus_chars(ltc) matches Some(p) && p.0 + p.1
        <= i64::MAX);
    let ghost plus_sum = match arith_eval::plus_chars(ltc) {
        Some(p) => p.0 + p.1,
        None => 0,
    };
    let ghost ident_unset = literal && (arith_eval::ident_chars(ltc) matches Some(nm) && old(
        vars,
    ).lookup(nm) is None);
    let ghost ident_num = literal && (arith_eval::ident_chars(ltc) matches Some(nm)
        && arith_eval::numeral_scalar(old(vars).lookup(nm)) is Some);
    let ghost ident_val = match arith_eval::ident_chars(ltc) {
        Some(nm) => match arith_eval::numeral_scalar(old(vars).lookup(nm)) {
            Some(nv) => nv,
            None => 0,
        },
        None => 0,
    };
    let ghost neg = literal && arith_eval::neg_chars(ltc) is Some;
    let ghost neg_val = match arith_eval::neg_chars(ltc) {
        Some(nv) => nv,
        None => 0,
    };
    let ghost asg = literal && (arith_eval::assign_chars(ltc) matches Some(av) && old(
        vars,
    ).stack_of(av.0).len() == 0);
    let ghost asg_val = match arith_eval::assign_chars(ltc) {
        Some(av) => av.1,
        None => 0,
    };
    proof {
        if literal {
            assert(forall|i: int|
                0 <= i < units.len() ==> crate::expansion::is_pure_unit(#[trigger] units[i]));
            crate::expansion::lemma_literal_units_chars(units);
        }
        if plus {
            let j = digit_run(ltc);
            lemma_digit_run(ltc);
            assert(forall|k: int|
                0 <= k < ltc.take(j).len() ==> '0' <= #[trigger] ltc.take(j)[k] <= '9') by {
                assert(forall|k: int| 0 <= k < ltc.take(j).len() ==> ltc.take(j)[k] == ltc[k]);
            }
            assert(ltc.take(j).take(j) =~= ltc.take(j));
            lemma_dec_digits_bounds(ltc.take(j), j);
            lemma_dec_digits_bounds(ltc.skip(j + 1), ltc.skip(j + 1).len() as int);
            assert(ltc.skip(j + 1).take(ltc.skip(j + 1).len() as int) =~= ltc.skip(j + 1));
            assert(plus_sum >= 0);
        }
    }
    let mut attr_chars: Vec<AttrChar> = Vec::new();
    let exit_status = match crate::expansion::expand_text(
        text,
        false,
        &mut attr_chars,
        substituter,
    ) {
        Ok(status) => status,
        Err((errno, unit_location)) => {
            return Err(
                Error { cause: ErrorCause::CommandSubstError(errno), location: unit_location },
            );
        },
    };
    if exit_status.is_some() {
        *last_command_subst_exit_status = exit_status;
    }

    let mut expression = String::new();
    let mut i: usize = 0;
    while i < attr_chars.len()
        invariant
            i <= attr_chars@.len(),
            literal == all_literal_units(units),
            ltc == literal_text_chars(units),
            literal ==> (attr_chars@ == crate::expansion::pure_units_chars(units, false)
                && attr_chars@.len() == units.len() && ltc.len() == units.len() && expression@
                == ltc.take(i as int)),
        decreases attr_chars@.len() - i,
    {
        crate::syntax::push_char(&mut expression, attr_chars[i].value);
        proof {
            if literal {
                crate::expansion::lemma_literal_units_chars(units);
                assert(attr_chars@[i as int].value == ltc[i as int]);
                assert(ltc.take(i + 1 as int).drop_last() =~= ltc.take(i as int));
                assert(ltc.take(i + 1 as int).last() == ltc[i as int]);
                assert(expression@ =~= ltc.take(i + 1 as int));
            }
        }
        i = i + 1;
    }
    proof {
        if literal {
            assert(ltc.take(ltc.len() as int) =~= ltc);
            assert(expression@ == ltc);
        }
    }

    match arith_eval::eval(expression.as_str(), vars, location) {
        Ok(value) => {
            proof {
                if literal && is_dec_numeral(ltc) && dec_digits_value(ltc) <= i64::MAX {
                    crate::numeral::lemma_dec_numeral_round_trip(ltc);
                }
                if plus {
                    let j = digit_run(ltc);
                    lemma_digit_run(ltc);
                    assert(forall|k: int|
                        0 <= k < ltc.take(j).len() ==> '0' <= #[trigger] ltc.take(j)[k]
                            <= '9') by {
                        assert(forall|k: int|
                            0 <= k < ltc.take(j).len() ==> ltc.take(j)[k] == ltc[k]);
                    }
                    assert(ltc.take(j).take(j) =~= ltc.take(j));
                    lemma_dec_digits_bounds(ltc.take(j), j);
                    lemma_dec_digits_bounds(ltc.skip(j + 1), ltc.skip(j + 1).len() as int);
                    assert(ltc.skip(j + 1).take(ltc.skip(j + 1).len() as int) =~= ltc.skip(
                        j + 1,
                    ));
                    assert(plus_sum >= 0);
                    assert(value as int == plus_sum);
                }
                if asg {
                    let k = arith_eval::name_run(ltc);
                    lemma_dec_digits_bounds(ltc.skip(k + 1), ltc.skip(k + 1).len() as int);
                    assert(ltc.skip(k + 1).take(ltc.skip(k + 1).len() as int) =~= ltc.skip(
                        k + 1,
                    ));
                    assert(asg_val >= 0);
                    assert(value as int == asg_val);
                }
            }
            let rendered = crate::numeral::i64_to_dec_string(value);
            proof {
                if plus {
                    assert(rendered@ == dec_nat(plus_sum as nat));
                    assert(rendered@.len() > 0);
                }
                if asg {
                    assert(rendered@ == dec_nat(asg_val as nat));
                    assert(rendered@.len() > 0);
                }
                if neg {
                    assert(value as int == -neg_val);
                    assert(rendered@ == crate::numeral::dec_int(-neg_val));
                    assert(rendered@.len() > 0);
                }
                if ident_unset {
                    assert(value == 0);
                    assert(rendered@ == dec_nat(0));
                    assert(rendered@.len() > 0);
                }
                if ident_num {
                    assert(value as int == ident_val);
                    let nm = arith_eval::ident_chars(ltc)->Some_0;
                    match old(vars).lookup(nm) {
                        Some(var) => match var.value {
                            crate::variable::Value::Scalar(sv) => {
                                lemma_dec_digits_bounds(sv@, sv@.len() as int);
                                assert(sv@.take(sv@.len() as int) =~= sv@);
                            },
                            _ => {},
                        },
                        None => {},
                    }
                    assert(ident_val >= 0);
                    assert(rendered@ == dec_nat(ident_val as nat));
                    assert(rendered@.len() > 0);
                }
            }
            if rendered.as_str().unicode_len() == 1 {
                let c = rendered.as_str().get_char(0);
                let phrase = Phrase::Char(
                    AttrChar {
                        value: c,
                        origin: Origin::SoftExpansion,
                        is_quoted: false,
                        is_quoting: false,
                    },
                );
                proof {
                    if literal && is_dec_numeral(ltc) && dec_digits_value(ltc) <= i64::MAX {
                        assert(rendered@ == ltc);
                        assert(ltc.drop_last() =~= Seq::<char>::empty());
                        assert(soft_chars(ltc, false) =~= soft_chars(
                            Seq::<char>::empty(),
                            false,
                        ).push(
                            AttrChar {
                                value: ltc.last(),
                                origin: Origin::SoftExpansion,
                                is_quoted: false,
                                is_quoting: false,
                            },
                        ));
                        assert(single_field_chars(phrase) == Some(soft_chars(ltc, false)));
                    }
                    if plus || asg || neg || ident_unset || ident_num {
                        assert(rendered@.drop_last() =~= Seq::<char>::empty());
                        assert(soft_chars(rendered@, false) =~= soft_chars(
                            Seq::<char>::empty(),
                            false,
                        ).push(
                            AttrChar {
                                value: rendered@.last(),
                                origin: Origin::SoftExpansion,
                                is_quoted: false,
                                is_quoting: false,
                            },
                        ));
                        assert(rendered@.last() == rendered@[0]);
                        if plus {
                            assert(single_field_chars(phrase) == Some(
                                soft_chars(dec_nat(plus_sum as nat), false),
                            ));
                        }
                        if asg {
                            assert(single_field_chars(phrase) == Some(
                                soft_chars(dec_nat(asg_val as nat), false),
                            ));
                        }
                        if neg {
                            assert(single_field_chars(phrase) == Some(
                                soft_chars(crate::numeral::dec_int(-neg_val), false),
                            ));
                        }
                        if ident_unset {
                            assert(single_field_chars(phrase) == Some(
                                soft_chars(dec_nat(0), false),
                            ));
                        }
                        if ident_num {
                            assert(single_field_chars(phrase) == Some(
                                soft_chars(dec_nat(ident_val as nat), false),
                            ));
                        }
                    }
                }
                Ok(phrase)
            } else {
                let mut field: Vec<AttrChar> = Vec::new();
                push_soft_chars(&mut field, rendered.as_str(), false);
                proof {
                    if literal && is_dec_numeral(ltc) && dec_digits_value(ltc) <= i64::MAX {
                        assert(field@ =~= soft_chars(ltc, false));
                    }
                    if plus {
                        assert(field@ =~= soft_chars(dec_nat(plus_sum as nat), false));
                    }
                    if asg {
                        assert(field@ =~= soft_chars(dec_nat(asg_val as nat), false));
                    }
                    if neg {
                        assert(field@ =~= soft_chars(crate::numeral::dec_int(-neg_val), false));
                    }
                    if ident_unset {
                        assert(field@ =~= soft_chars(dec_nat(0), false));
                    }
                    if ident_num {
                        assert(field@ =~= soft_chars(dec_nat(ident_val as nat), false));
                    }
                }
                Ok(Phrase::Field(field))
            }
        },
        Err(failure) => {
            let code = Code {
                value: expression,
                start_line_number: 1,
                source: Source::Arith { original: Box::new(location.clone()) },
            };
            let cause = convert_error_cause(failure.cause, &code);
            proof {
                assert(!(cause matches ErrorCause::CommandSubstError(_)));
                if literal && crate::numeral::is_invalid_octal(ltc)
                    && crate::numeral::oct_digits_value(
                    ltc.take(crate::numeral::first_bad_octal(ltc)),
                ) * 8 + 7 <= i64::MAX {
                    crate::numeral::lemma_first_bad_octal(ltc);
                    assert(1 <= crate::numeral::first_bad_octal(ltc) < ltc.len());
                    assert(failure.range_end as int == crate::numeral::first_bad_octal(ltc) + 1);
                    assert(failure.cause == arith_eval::ErrorCause::SyntaxError(
                        arith_eval::SyntaxError::TokenError(
                            arith_eval::TokenError::InvalidNumericConstant,
                        ),
                    ));
                    assert(cause == ErrorCause::ArithError(ArithError::InvalidNumericConstant));
                }
            }
            Err(
                Error {
                    cause,
                    location: Location {
                        code,
                        range_start: failure.range_start,
                        range_end: failure.range_end,
                    },
                },
            )
        },
    }
}

} // verus!
