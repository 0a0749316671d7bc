//! Tests for arithmetic expansion and evaluation.

use yash_core::arith::{expand, ArithError};
use yash_core::arith_eval::{eval, ErrorCause as EvalCause, EvalError, SyntaxError};
use yash_core::expansion::{
    AttrChar, CommandSubstituter, ErrorCause, Origin, Phrase,
};
use yash_core::semantics::ExitStatus;
use yash_core::source::{Location, Source};
use yash_core::syntax::{DoubleQuotable, Literal, Text};
use yash_core::trap::Errno;
use yash_core::variable::{Scalar, Scope, Variable, VariableSet};

fn literal_text(s: &str) -> Text {
    Text(s.chars().map(Literal).collect())
}

/// A substituter that never runs: command substitution is not involved.
struct NoSubst;

impl CommandSubstituter for NoSubst {
    fn substitute(
        &mut self,
        _content: &str,
        _location: &Location,
    ) -> Result<(String, Option<ExitStatus>), Errno> {
        panic!("no command substitution expected");
    }
}

/// A substituter that returns a fixed string and exit status.
struct FixedSubst(&'static str, Option<ExitStatus>);

impl CommandSubstituter for FixedSubst {
    fn substitute(
        &mut self,
        _content: &str,
        _location: &Location,
    ) -> Result<(String, Option<ExitStatus>), Errno> {
        Ok((self.0.to_string(), self.1))
    }
}

/// A substituter that fails with the given error number.
struct FailingSubst(i32);

impl CommandSubstituter for FailingSubst {
    fn substitute(
        &mut self,
        _content: &str,
        _location: &Location,
    ) -> Result<(String, Option<ExitStatus>), Errno> {
        Err(Errno(self.0))
    }
}

#[test]
fn successful_inner_text_expansion() {
    let text = literal_text("17%9");
    let location = Location::dummy("my location");
    let mut vars = VariableSet::new();
    let mut status = None;
    let result = expand(&text, &location, &mut vars, &mut NoSubst, &mut status);
    let c = AttrChar {
        value: '8',
        origin: Origin::SoftExpansion,
        is_quoted: false,
        is_quoting: false,
    };
    assert_eq!(result, Ok(Phrase::Char(c)));
    assert_eq!(status, None);
}

#[test]
fn non_zero_exit_status_from_inner_text_expansion() {
    let text = Text(vec![DoubleQuotable::CommandSubst {
        content: "echo 0".to_string(),
        location: Location::dummy("$(echo 0)"),
    }]);
    let location = Location::dummy("my location");
    let mut vars = VariableSet::new();
    let mut status = None;
    let result = expand(
        &text,
        &location,
        &mut vars,
        &mut FixedSubst("0", Some(ExitStatus(63))),
        &mut status,
    );
    let c = AttrChar {
        value: '0',
        origin: Origin::SoftExpansion,
        is_quoted: false,
        is_quoting: false,
    };
    assert_eq!(result, Ok(Phrase::Char(c)));
    assert_eq!(status, Some(ExitStatus(63)));
}

#[test]
fn exit_status_is_kept_if_inner_text_expansion_contains_no_command_substitution() {
    let text = literal_text("0");
    let location = Location::dummy("my location");
    let mut vars = VariableSet::new();
    let mut status = Some(ExitStatus(123));
    let _ = expand(&text, &location, &mut vars, &mut NoSubst, &mut status);
    assert_eq!(status, Some(ExitStatus(123)));
}

#[test]
fn error_in_inner_text_expansion() {
    let subst_location = Location::dummy("$(x)");
    let text = Text(vec![DoubleQuotable::CommandSubst {
        content: "x".to_string(),
        location: subst_location.clone(),
    }]);
    let location = Location::dummy("my location");
    let mut vars = VariableSet::new();
    let mut status = None;
    let result = expand(
        &text,
        &location,
        &mut vars,
        &mut FailingSubst(38),
        &mut status,
    );
    let e = result.unwrap_err();
    assert_eq!(e.cause, ErrorCause::CommandSubstError(Errno(38)));
    assert_eq!(e.location, subst_location);
}

#[test]
fn variable_assigned_during_arithmetic_evaluation() {
    let text = literal_text("3 + (x = 4 * 6)");
    let location = Location::dummy("my location");
    let mut vars = VariableSet::new();
    let mut status = None;
    let result = expand(&text, &location, &mut vars, &mut NoSubst, &mut status);
    match result.unwrap() {
        Phrase::Field(chars) => {
            let rendered: String = chars.iter().map(|c| c.value).collect();
            assert_eq!(rendered, "27");
        }
        other => panic!("wrong phrase: {:?}", other),
    }

    let v = vars.get("x").unwrap();
    assert_eq!(v.value, Scalar("24".to_string()));
    let location2 = v.last_assigned_location.as_ref().unwrap();
    assert_eq!(location2.code.value, "3 + (x = 4 * 6)");
    assert_eq!(location2.code.start_line_number, 1);
    assert_eq!(
        location2.code.source,
        Source::Arith {
            original: Box::new(location)
        }
    );
    assert_eq!(location2.range_start, 5);
    assert_eq!(location2.range_end, 6);
    assert!(!v.is_exported);
    assert_eq!(v.read_only_location, None);
}

#[test]
fn error_in_arithmetic_evaluation() {
    let text = literal_text("09");
    let location = Location::dummy("my location");
    let mut vars = VariableSet::new();
    let mut status = None;
    let result = expand(&text, &location, &mut vars, &mut NoSubst, &mut status);
    let e = result.unwrap_err();
    assert_eq!(
        e.cause,
        ErrorCause::ArithError(ArithError::InvalidNumericConstant)
    );
    assert_eq!(e.location.code.value, "09");
    assert_eq!(
        e.location.code.source,
        Source::Arith {
            original: Box::new(location)
        }
    );
    assert_eq!(e.location.range_start, 0);
    assert_eq!(e.location.range_end, 2);
}

fn eval_str(expression: &str) -> Result<i64, yash_core::arith_eval::EvalFailure> {
    let mut vars = VariableSet::new();
    eval(expression, &mut vars, &Location::dummy(expression))
}

#[test]
fn eval_basic_operators() {
    assert_eq!(eval_str("1 + 2 * 3"), Ok(7));
    assert_eq!(eval_str("(1 + 2) * 3"), Ok(9));
    assert_eq!(eval_str("10 / 3"), Ok(3));
    assert_eq!(eval_str("10 % 3"), Ok(1));
    assert_eq!(eval_str("7 - 10"), Ok(-3));
    assert_eq!(eval_str("-5"), Ok(-5));
    assert_eq!(eval_str("!0"), Ok(1));
    assert_eq!(eval_str("~0"), Ok(-1));
    assert_eq!(eval_str("1 << 4"), Ok(16));
    assert_eq!(eval_str("32 >> 2"), Ok(8));
    assert_eq!(eval_str("3 < 4"), Ok(1));
    assert_eq!(eval_str("3 >= 4"), Ok(0));
    assert_eq!(eval_str("3 == 3"), Ok(1));
    assert_eq!(eval_str("3 != 3"), Ok(0));
    assert_eq!(eval_str("6 & 3"), Ok(2));
    assert_eq!(eval_str("6 | 3"), Ok(7));
    assert_eq!(eval_str("6 ^ 3"), Ok(5));
    assert_eq!(eval_str("1 && 0"), Ok(0));
    assert_eq!(eval_str("1 || 0"), Ok(1));
    assert_eq!(eval_str("1 ? 10 : 20"), Ok(10));
    assert_eq!(eval_str("0 ? 10 : 20"), Ok(20));
    assert_eq!(eval_str("0x10"), Ok(16));
    assert_eq!(eval_str("017"), Ok(15));
}

#[test]
fn eval_division_by_zero() {
    let failure = eval_str("1 / 0").unwrap_err();
    assert_eq!(failure.cause, EvalCause::EvalError(EvalError::DivisionByZero));
}

#[test]
fn eval_overflow() {
    let failure = eval_str("9223372036854775807 + 1").unwrap_err();
    assert_eq!(failure.cause, EvalCause::EvalError(EvalError::Overflow));
    let failure = eval_str("4611686018427387904 * 4").unwrap_err();
    assert_eq!(failure.cause, EvalCause::EvalError(EvalError::Overflow));
}

#[test]
fn eval_shift_errors() {
    let failure = eval_str("-1 << 2").unwrap_err();
    assert_eq!(
        failure.cause,
        EvalCause::EvalError(EvalError::LeftShiftingNegative)
    );
    let failure = eval_str("1 << -2").unwrap_err();
    assert_eq!(
        failure.cause,
        EvalCause::EvalError(EvalError::ReverseShifting)
    );
}

#[test]
fn eval_assignment_to_value() {
    let failure = eval_str("3 = 4").unwrap_err();
    assert_eq!(
        failure.cause,
        EvalCause::EvalError(EvalError::AssignmentToValue)
    );
}

#[test]
fn eval_syntax_errors() {
    let failure = eval_str("").unwrap_err();
    assert_eq!(
        failure.cause,
        EvalCause::SyntaxError(SyntaxError::IncompleteExpression)
    );
    let failure = eval_str("(1").unwrap_err();
    match failure.cause {
        EvalCause::SyntaxError(SyntaxError::UnclosedParenthesis { opening_start, .. }) => {
            assert_eq!(opening_start, 0);
        }
        other => panic!("wrong cause: {:?}", other),
    }
    let failure = eval_str("1 ? 2").unwrap_err();
    match failure.cause {
        EvalCause::SyntaxError(SyntaxError::QuestionWithoutColon { question_start, .. }) => {
            assert_eq!(question_start, 2);
        }
        other => panic!("wrong cause: {:?}", other),
    }
    let failure = eval_str("1 : 2").unwrap_err();
    assert_eq!(
        failure.cause,
        EvalCause::SyntaxError(SyntaxError::ColonWithoutQuestion)
    );
    let failure = eval_str("1 2").unwrap_err();
    assert_eq!(
        failure.cause,
        EvalCause::SyntaxError(SyntaxError::MissingOperator)
    );
    let failure = eval_str("1 + @").unwrap_err();
    match failure.cause {
        EvalCause::SyntaxError(SyntaxError::TokenError(_)) => {}
        other => panic!("wrong cause: {:?}", other),
    }
}

#[test]
fn eval_variables_and_compound_assignment() {
    let mut vars = VariableSet::new();
    vars.assign(
        Scope::Global,
        "n".to_string(),
        Variable {
            value: Scalar("20".to_string()),
            last_assigned_location: None,
            is_exported: false,
            read_only_location: None,
        },
    )
    .unwrap();
    let location = Location::dummy("n += 5");
    assert_eq!(eval("n += 5", &mut vars, &location), Ok(25));
    assert_eq!(vars.get("n").unwrap().value, Scalar("25".to_string()));
    // An unset variable reads as zero.
    assert_eq!(eval("unset_one + 3", &mut vars, &location), Ok(3));
}

#[test]
fn eval_invalid_variable_value() {
    let mut vars = VariableSet::new();
    vars.assign(
        Scope::Global,
        "bad".to_string(),
        Variable {
            value: Scalar("oops".to_string()),
            last_assigned_location: None,
            is_exported: false,
            read_only_location: None,
        },
    )
    .unwrap();
    let location = Location::dummy("bad + 1");
    let failure = eval("bad + 1", &mut vars, &location).unwrap_err();
    assert_eq!(
        failure.cause,
        EvalCause::EvalError(EvalError::InvalidVariableValue("oops".to_string()))
    );
}

#[test]
fn eval_read_only_assignment() {
    let mut vars = VariableSet::new();
    vars.assign(
        Scope::Global,
        "r".to_string(),
        Variable {
            value: Scalar("1".to_string()),
            last_assigned_location: None,
            is_exported: false,
            read_only_location: Some(Location::dummy("ro")),
        },
    )
    .unwrap();
    let location = Location::dummy("r = 2");
    let failure = eval("r = 2", &mut vars, &location).unwrap_err();
    match failure.cause {
        EvalCause::EvalError(EvalError::AssignVariableError(e)) => {
            assert_eq!(e.name, "r");
        }
        other => panic!("wrong cause: {:?}", other),
    }
}

#[test]
fn short_circuit_skips_side_effects() {
    let mut vars = VariableSet::new();
    let location = Location::dummy("0 && (x = 1)");
    assert_eq!(eval("0 && (x = 1)", &mut vars, &location), Ok(0));
    assert_eq!(vars.get("x"), None);
    assert_eq!(eval("1 || (x = 1)", &mut vars, &location), Ok(1));
    assert_eq!(vars.get("x"), None);
    assert_eq!(eval("1 ? 5 : (x = 1)", &mut vars, &location), Ok(5));
    assert_eq!(vars.get("x"), None);
}

#[test]
fn sum_of_two_numerals() {
    assert_eq!(eval_str("1+2"), Ok(3));
    assert_eq!(eval_str("19+23"), Ok(42));
    assert_eq!(eval_str("0+7"), Ok(7));
}

#[test]
fn sum_of_two_numerals_expansion() {
    let text = literal_text("19+23");
    let location = Location::dummy("my location");
    let mut vars = VariableSet::new();
    let mut status = None;
    let result = expand(&text, &location, &mut vars, &mut NoSubst, &mut status);
    match result.unwrap() {
        Phrase::Field(chars) => {
            let rendered: String = chars.iter().map(|c| c.value).collect();
            assert_eq!(rendered, "42");
            for c in &chars {
                assert_eq!(c.origin, Origin::SoftExpansion);
                assert!(!c.is_quoted);
                assert!(!c.is_quoting);
            }
        }
        other => panic!("wrong phrase: {:?}", other),
    }
    assert_eq!(status, None);
}

#[test]
fn assignment_of_numeral() {
    let mut vars = VariableSet::new();
    let location = Location::dummy("loc");
    let result = eval("total=42", &mut vars, &location);
    assert_eq!(result, Ok(42));
    let v = vars.get("total").unwrap();
    assert_eq!(v.value, Scalar("42".to_string()));
    assert!(!v.is_exported);
    assert!(v.read_only_location.is_none());
    let loc = v.last_assigned_location.as_ref().unwrap();
    assert_eq!(loc.code.value, "total=42");
    assert_eq!(loc.range_start, 0);
    assert_eq!(loc.range_end, 5);
}

#[test]
fn assignment_of_numeral_expansion() {
    let text = literal_text("x=5");
    let location = Location::dummy("my location");
    let mut vars = VariableSet::new();
    let mut status = None;
    let result = expand(&text, &location, &mut vars, &mut NoSubst, &mut status);
    match result.unwrap() {
        Phrase::Char(c) => assert_eq!(c.value, '5'),
        other => panic!("wrong phrase: {:?}", other),
    }
    let v = vars.get("x").unwrap();
    assert_eq!(v.value, Scalar("5".to_string()));
    let loc = v.last_assigned_location.as_ref().unwrap();
    assert_eq!(loc.code.value, "x=5");
    assert_eq!(loc.code.start_line_number, 1);
    assert_eq!(
        loc.code.source,
        Source::Arith {
            original: Box::new(location)
        }
    );
    assert_eq!(loc.range_start, 0);
    assert_eq!(loc.range_end, 1);
}

#[test]
fn negated_numeral() {
    assert_eq!(eval_str("-5"), Ok(-5));
    assert_eq!(eval_str("-0"), Ok(0));
}

#[test]
fn negated_numeral_expansion() {
    let text = literal_text("-12");
    let location = Location::dummy("my location");
    let mut vars = VariableSet::new();
    let mut status = None;
    let result = expand(&text, &location, &mut vars, &mut NoSubst, &mut status);
    match result.unwrap() {
        Phrase::Field(chars) => {
            let rendered: String = chars.iter().map(|c| c.value).collect();
            assert_eq!(rendered, "-12");
        }
        other => panic!("wrong phrase: {:?}", other),
    }
}

#[test]
fn unset_variable_reads_as_zero() {
    assert_eq!(eval_str("unset_name"), Ok(0));
}

#[test]
fn variable_read_as_integer() {
    let mut vars = VariableSet::new();
    vars.assign(
        Scope::Global,
        "answer".to_string(),
        Variable {
            value: Scalar("42".to_string()),
            last_assigned_location: None,
            is_exported: false,
            read_only_location: None,
        },
    )
    .unwrap();
    let location = Location::dummy("loc");
    assert_eq!(eval("answer", &mut vars, &location), Ok(42));
}

#[test]
fn variable_read_in_expansion() {
    let mut vars = VariableSet::new();
    vars.assign(
        Scope::Global,
        "n".to_string(),
        Variable {
            value: Scalar("7".to_string()),
            last_assigned_location: None,
            is_exported: false,
            read_only_location: None,
        },
    )
    .unwrap();
    let text = literal_text("n");
    let location = Location::dummy("my location");
    let mut status = None;
    let result = expand(&text, &location, &mut vars, &mut NoSubst, &mut status);
    match result.unwrap() {
        Phrase::Char(c) => assert_eq!(c.value, '7'),
        other => panic!("wrong phrase: {:?}", other),
    }
}
