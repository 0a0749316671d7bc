//! Tests for the syntax tree types and their text rendering.

use yash_core::source::Location;
use yash_core::syntax::{
    Assign, Backslashed, CommandSubst, DoubleQuotable, DoubleQuote, HereDoc, Literal, MaybeLiteral,
    Operator, Redir, RedirBody, RedirOp, Unquoted, Word, WordUnit,
};
use yash_core::syntax::{Array, Scalar};

fn literal_word(s: &str) -> Word {
    Word {
        units: s.chars().map(|c| Unquoted(Literal(c))).collect(),
        location: Location::dummy(s),
    }
}

fn literal_assign(s: &str) -> Assign {
    Assign::try_from(literal_word(s)).unwrap()
}

#[test]
fn double_quotable_display() {
    let literal = Literal('A');
    assert_eq!(literal.unparse(), "A");
    let backslashed = Backslashed('X');
    assert_eq!(backslashed.unparse(), r"\X");
}

#[test]
fn command_subst_display() {
    let subst = CommandSubst {
        content: "echo".to_string(),
        location: Location::dummy("$(echo)"),
    };
    assert_eq!(subst.unparse(), "$(echo)");
}

#[test]
fn word_unit_display() {
    let unquoted = Unquoted(Literal('A'));
    assert_eq!(unquoted.unparse(), "A");
    let unquoted = Unquoted(Backslashed('B'));
    assert_eq!(unquoted.unparse(), "\\B");

    let double_quote = DoubleQuote(vec![]);
    assert_eq!(double_quote.unparse(), "\"\"");
    let double_quote = DoubleQuote(vec![Literal('A'), Backslashed('B')]);
    assert_eq!(double_quote.unparse(), "\"A\\B\"");
}

#[test]
fn word_to_string_if_literal_success() {
    let empty = literal_word("");
    let s = empty.to_string_if_literal().unwrap();
    assert_eq!(s, "");

    let nonempty = literal_word("foo");
    let s = nonempty.to_string_if_literal().unwrap();
    assert_eq!(s, "foo");
}

#[test]
fn word_to_string_if_literal_failure() {
    let location = Location::dummy("foo");
    let backslashed = Unquoted(Backslashed('?'));
    let word = Word {
        units: vec![backslashed],
        location,
    };
    assert_eq!(word.to_string_if_literal(), None);
}

#[test]
fn scalar_display() {
    let s = Scalar(literal_word("my scalar value"));
    assert_eq!(s.unparse(), "my scalar value");
}

#[test]
fn array_display_empty() {
    let a = Array(vec![]);
    assert_eq!(a.unparse(), "()");
}

#[test]
fn array_display_one() {
    let a = Array(vec![literal_word("one")]);
    assert_eq!(a.unparse(), "(one)");
}

#[test]
fn array_display_many() {
    let a = Array(vec![
        literal_word("let"),
        literal_word("me"),
        literal_word("see"),
    ]);
    assert_eq!(a.unparse(), "(let me see)");
}

#[test]
fn assign_display() {
    let mut a = literal_assign("foo=bar");
    assert_eq!(a.unparse(), "foo=bar");

    a.value = Array(vec![]);
    assert_eq!(a.unparse(), "foo=()");
}

#[test]
fn assign_try_from_word_without_equal() {
    let word = literal_word("foo");
    let result = Assign::try_from(word.clone());
    assert_eq!(result.unwrap_err(), word);
}

#[test]
fn assign_try_from_word_with_empty_name() {
    let word = literal_word("=foo");
    let result = Assign::try_from(word.clone());
    assert_eq!(result.unwrap_err(), word);
}

#[test]
fn assign_try_from_word_with_non_literal_name() {
    let mut word = literal_word("night=foo");
    word.units.insert(0, Unquoted(Backslashed('k')));
    let result = Assign::try_from(word.clone());
    assert_eq!(result.unwrap_err(), word);
}

#[test]
fn assign_try_from_word_with_literal_name() {
    let word = literal_word("night=foo");
    let location = word.location.clone();
    let assign = Assign::try_from(word).unwrap();
    assert_eq!(assign.name, "night");
    if let Scalar(value) = assign.value {
        assert_eq!(value.unparse(), "foo");
        assert_eq!(value.location, location);
    } else {
        panic!("wrong value: {:?}", assign.value);
    }
    assert_eq!(assign.location, location);
}

#[test]
fn redir_op_conversions() {
    for op in &[
        RedirOp::FileIn,
        RedirOp::FileInOut,
        RedirOp::FileOut,
        RedirOp::FileAppend,
        RedirOp::FileClobber,
        RedirOp::FdIn,
        RedirOp::FdOut,
        RedirOp::Pipe,
        RedirOp::String,
    ] {
        let op2 = RedirOp::try_from(op.to_operator());
        assert_eq!(op2, Ok(*op));
    }
}

#[test]
fn redir_op_display() {
    assert_eq!(RedirOp::FileIn.unparse(), "<");
    assert_eq!(RedirOp::Pipe.unparse(), ">>|");
    assert_eq!(Operator::LessLessDash.unparse(), "<<-");
}

#[test]
fn here_doc_display() {
    let heredoc = HereDoc {
        delimiter: literal_word("END"),
        remove_tabs: true,
        content: literal_word("here"),
    };
    assert_eq!(heredoc.unparse(), "<<-END");

    let heredoc = HereDoc {
        delimiter: literal_word("XXX"),
        remove_tabs: false,
        content: literal_word("there"),
    };
    assert_eq!(heredoc.unparse(), "<<XXX");
}

#[test]
fn here_doc_display_disambiguation() {
    let heredoc = HereDoc {
        delimiter: literal_word("--"),
        remove_tabs: false,
        content: literal_word("here"),
    };
    assert_eq!(heredoc.unparse(), "<< --");

    let heredoc = HereDoc {
        delimiter: literal_word("-"),
        remove_tabs: true,
        content: literal_word("here"),
    };
    assert_eq!(heredoc.unparse(), "<<- -");
}

#[test]
fn redir_display() {
    let heredoc = HereDoc {
        delimiter: literal_word("END"),
        remove_tabs: false,
        content: literal_word("here"),
    };

    let redir = Redir {
        fd: None,
        body: RedirBody::from(heredoc),
    };
    assert_eq!(redir.unparse(), "<<END");
    let redir = Redir {
        fd: Some(0),
        ..redir
    };
    assert_eq!(redir.unparse(), "0<<END");
    let redir = Redir {
        fd: Some(9),
        ..redir
    };
    assert_eq!(redir.unparse(), "9<<END");
}

#[test]
fn normal_redir_display() {
    let redir = Redir {
        fd: Some(2),
        body: RedirBody::Normal {
            operator: RedirOp::FileAppend,
            operand: literal_word("log"),
        },
    };
    assert_eq!(redir.unparse(), "2>>log");
}

#[test]
fn redir_fd_or_default() {
    let heredoc = HereDoc {
        delimiter: literal_word("END"),
        remove_tabs: false,
        content: literal_word(""),
    };
    let redir = Redir {
        fd: None,
        body: RedirBody::from(heredoc),
    };
    assert_eq!(redir.fd_or_default(), 0);

    let redir = Redir {
        fd: None,
        body: RedirBody::Normal {
            operator: RedirOp::FileOut,
            operand: literal_word("x"),
        },
    };
    assert_eq!(redir.fd_or_default(), 1);

    let redir = Redir {
        fd: Some(7),
        ..redir
    };
    assert_eq!(redir.fd_or_default(), 7);
}

#[test]
fn unit_literal_round_trip() {
    let unit = Unquoted(Literal('q'));
    assert_eq!(unit.to_string_if_literal().unwrap(), "q");
    let quoted: WordUnit = DoubleQuote(vec![Literal('q')]);
    assert_eq!(quoted.to_string_if_literal(), None);
    let dq: DoubleQuotable = Backslashed('q');
    assert_eq!(dq.to_string_if_literal(), None);
}
