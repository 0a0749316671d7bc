//! Tests for the built-in argument parsers and common helpers.

use yash_core::cd;
use yash_core::env::Env;
use yash_core::message::{AnnotationType, Message};
use yash_core::semantics::{Divert, Field};
use yash_core::stack::{Builtin, BuiltinEnv, Frame, Stack};
use yash_core::unset;

fn dummies(values: &[&str]) -> Vec<Field> {
    Field::dummies(values)
}

#[test]
fn no_arguments() {
    let env = Env::new();
    let result = cd::parse(&env, vec![]);
    assert_eq!(
        result,
        Ok(cd::Command {
            mode: cd::Mode::Logical,
            operand: None,
        })
    );
}

#[test]
fn logical_option() {
    let env = Env::new();
    let result = cd::parse(&env, dummies(&["-L"]));
    assert_eq!(
        result,
        Ok(cd::Command {
            mode: cd::Mode::Logical,
            operand: None,
        })
    );
}

#[test]
fn physical_option() {
    let env = Env::new();
    let result = cd::parse(&env, dummies(&["-P"]));
    assert_eq!(
        result,
        Ok(cd::Command {
            mode: cd::Mode::Physical,
            operand: None,
        })
    );
}

#[test]
fn last_option_wins() {
    let env = Env::new();

    let result = cd::parse(&env, dummies(&["-L", "-P"]));
    assert_eq!(result.unwrap().mode, cd::Mode::Physical);

    let result = cd::parse(&env, dummies(&["-P", "-L"]));
    assert_eq!(result.unwrap().mode, cd::Mode::Logical);

    let result = cd::parse(&env, dummies(&["-L", "-P", "-L"]));
    assert_eq!(result.unwrap().mode, cd::Mode::Logical);

    let result = cd::parse(&env, dummies(&["-PLP"]));
    assert_eq!(result.unwrap().mode, cd::Mode::Physical);
}

#[test]
fn with_operand() {
    let env = Env::new();
    let operand = Field::dummy("foo/bar");
    let result = cd::parse(&env, vec![operand.clone()]);
    assert_eq!(
        result,
        Ok(cd::Command {
            mode: cd::Mode::Logical,
            operand: Some(operand),
        })
    );
}

#[test]
fn option_and_operand() {
    let env = Env::new();
    let operand = Field::dummy("foo/bar");
    let args = vec![Field::dummy("-L"), Field::dummy("--"), operand.clone()];
    let result = cd::parse(&env, args);
    assert_eq!(
        result,
        Ok(cd::Command {
            mode: cd::Mode::Logical,
            operand: Some(operand),
        })
    );
}

#[test]
fn long_options() {
    let env = Env::new();
    let result = cd::parse(&env, dummies(&["--physical"]));
    assert_eq!(result.unwrap().mode, cd::Mode::Physical);
    let result = cd::parse(&env, dummies(&["--physical", "--logical"]));
    assert_eq!(result.unwrap().mode, cd::Mode::Logical);
}

#[test]
fn unexpected_operand() {
    let env = Env::new();
    let operand1 = Field::dummy("foo");
    let operand2 = Field::dummy("bar");
    let result = cd::parse(&env, vec![operand1, operand2.clone()]);
    assert_eq!(result, Err(cd::Error::UnexpectedOperands(vec![operand2])));
}

#[test]
fn unexpected_operands_after_options() {
    let env = Env::new();
    let args = dummies(&["-LP", "-L", "--", "one", "two", "three"]);
    let extra_operands = args[4..].to_vec();
    let result = cd::parse(&env, args);
    assert_eq!(result, Err(cd::Error::UnexpectedOperands(extra_operands)));
}

#[test]
fn unknown_option_is_reported() {
    let env = Env::new();
    let result = cd::parse(&env, dummies(&["-Z"]));
    match result {
        Err(cd::Error::CommonError(_)) => {}
        other => panic!("wrong result: {:?}", other),
    }
}

#[test]
fn unexpected_operand_annotation() {
    let error = cd::Error::UnexpectedOperands(vec![Field::dummy("extra")]);
    let annotation = error.main_annotation();
    assert_eq!(annotation.annotation_type, AnnotationType::Error);
    assert_eq!(annotation.label, "extra: unexpected operand");
}

#[test]
fn no_arguments_non_posix() {
    let env = Env::new();
    let result = unset::parse(&env, vec![]);
    assert_eq!(
        result,
        Ok(unset::Command {
            mode: unset::Mode::Variables,
            names: vec![],
        })
    );
}

#[test]
fn v_option() {
    let env = Env::new();
    let result = unset::parse(&env, dummies(&["-v"]));
    assert_eq!(
        result,
        Ok(unset::Command {
            mode: unset::Mode::Variables,
            names: vec![],
        })
    );

    // The same option can be specified multiple times.
    let result = unset::parse(&env, dummies(&["-vv", "--variables"]));
    assert_eq!(
        result,
        Ok(unset::Command {
            mode: unset::Mode::Variables,
            names: vec![],
        })
    );
}

#[test]
fn f_option() {
    let env = Env::new();
    let result = unset::parse(&env, dummies(&["-f"]));
    assert_eq!(
        result,
        Ok(unset::Command {
            mode: unset::Mode::Functions,
            names: vec![],
        })
    );

    // The same option can be specified multiple times.
    let result = unset::parse(&env, dummies(&["-ff", "--functions"]));
    assert_eq!(
        result,
        Ok(unset::Command {
            mode: unset::Mode::Functions,
            names: vec![],
        })
    );
}

#[test]
fn v_and_f_option() {
    let env = Env::new();
    let result = unset::parse(&env, dummies(&["-vf"]));
    assert_eq!(result.unwrap().mode, unset::Mode::Functions);
    let result = unset::parse(&env, dummies(&["-fv"]));
    assert_eq!(result.unwrap().mode, unset::Mode::Variables);
}

#[test]
fn operands() {
    let env = Env::new();
    let args = dummies(&["foo", "bar"]);
    let result = unset::parse(&env, args.clone());
    assert_eq!(
        result,
        Ok(unset::Command {
            mode: unset::Mode::Variables,
            names: args,
        })
    );
}

#[test]
fn builtin_name_in_stack() {
    let name = Field::dummy("my built-in");
    let is_special = false;
    let stack = Stack::from(vec![Frame::Builtin(Builtin { name, is_special })]);
    assert_eq!(stack.builtin_name().value, "my built-in");
}

#[test]
fn is_executing_special_builtin_true_in_stack() {
    let name = Field::dummy("my built-in");
    let is_special = true;
    let stack = Stack::from(vec![Frame::Builtin(Builtin { name, is_special })]);
    assert!(stack.is_executing_special_builtin());
}

#[test]
fn is_executing_special_builtin_false_in_stack() {
    let name = Field::dummy("my built-in");
    let is_special = false;
    let stack = Stack::from(vec![Frame::Builtin(Builtin { name, is_special })]);
    assert!(!stack.is_executing_special_builtin());
}

#[test]
fn is_executing_special_builtin_not_in_stack() {
    assert!(!Stack::from(vec![]).is_executing_special_builtin());
}

fn dummy_message() -> Message {
    Message {
        message_type: AnnotationType::Error,
        title: "foo".to_string(),
        annotations: vec![],
    }
}

#[test]
fn divert_without_builtin() {
    let env = Env::new();
    let (message, divert) = yash_core::builtin_common::builtin_message_and_divert(
        &env,
        dummy_message(),
    );
    assert_eq!(message, "foo");
    assert_eq!(divert, None);
}

#[test]
fn message_names_the_builtin() {
    let mut env = Env::new();
    env.stack.push_frame(Frame::Builtin(Builtin {
        name: Field::dummy("readonly"),
        is_special: true,
    }));
    let mut message = dummy_message();
    message.annotations.push(yash_core::message::Annotation::new(
        AnnotationType::Error,
        "bad argument".to_string(),
        &yash_core::source::Location::dummy("x"),
    ));
    let (message, _divert) = yash_core::builtin_common::builtin_message_and_divert(&env, message);
    assert_eq!(
        message,
        "foo\nbad argument\nerror occurred in the readonly built-in"
    );
}

#[test]
fn divert_with_special_builtin() {
    let mut env = Env::new();
    env.stack.push_frame(Frame::Builtin(Builtin {
        name: Field::dummy("builtin"),
        is_special: true,
    }));

    let (_message, divert) = yash_core::builtin_common::builtin_message_and_divert(
        &env,
        dummy_message(),
    );
    assert_eq!(divert, Some(Divert::Interrupt(None)));
}

#[test]
fn divert_with_non_special_builtin() {
    let mut env = Env::new();
    env.stack.push_frame(Frame::Builtin(Builtin {
        name: Field::dummy("builtin"),
        is_special: false,
    }));

    let (_message, divert) = yash_core::builtin_common::builtin_message_and_divert(
        &env,
        dummy_message(),
    );
    assert_eq!(divert, None);
}
