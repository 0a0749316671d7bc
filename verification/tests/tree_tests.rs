//! Tests for command trees: rendering and parsing round trips.

use yash_core::parser::parse;
use yash_core::source::Location;
use yash_core::syntax::{
    AndOr, AndOrList, Assign, Command, CompoundCommand, FullCompoundCommand, HereDoc, Item, List,
    Literal, Pipeline, RedirBody, SimpleCommand, Unquoted, Word,
};

fn literal_word(s: &str) -> Word {
    Word {
        units: s.chars().map(|c| Unquoted(Literal(c))).collect(),
        location: Location::dummy(s),
    }
}

fn simple_command(s: &str) -> Command {
    Command::Simple(SimpleCommand {
        assigns: vec![],
        words: vec![literal_word(s)],
        redirs: vec![],
    })
}

fn pipeline(s: &str) -> Pipeline {
    Pipeline {
        commands: vec![simple_command(s)],
        negation: false,
    }
}

fn and_or(s: &str) -> AndOrList {
    AndOrList {
        first: pipeline(s),
        rest: vec![],
    }
}

#[test]
fn simple_command_display() {
    let mut command = SimpleCommand {
        assigns: vec![],
        words: vec![],
        redirs: vec![],
    };
    assert_eq!(command.unparse(), "");

    command
        .assigns
        .push(Assign::try_from(literal_word("name=value")).unwrap());
    assert_eq!(command.unparse(), "name=value");

    command
        .assigns
        .push(Assign::try_from(literal_word("hello=world")).unwrap());
    assert_eq!(command.unparse(), "name=value hello=world");

    command.words.push(literal_word("echo"));
    assert_eq!(command.unparse(), "name=value hello=world echo");

    command.words.push(literal_word("foo"));
    assert_eq!(command.unparse(), "name=value hello=world echo foo");

    command.redirs.push(yash_core::syntax::Redir {
        fd: None,
        body: RedirBody::from(HereDoc {
            delimiter: literal_word("END"),
            remove_tabs: false,
            content: literal_word(""),
        }),
    });
    assert_eq!(command.unparse(), "name=value hello=world echo foo <<END");

    command.assigns.clear();
    assert_eq!(command.unparse(), "echo foo <<END");

    command.words.clear();
    assert_eq!(command.unparse(), "<<END");

    command.redirs.push(yash_core::syntax::Redir {
        fd: Some(1),
        body: RedirBody::from(HereDoc {
            delimiter: literal_word("here"),
            remove_tabs: true,
            content: literal_word("ignored"),
        }),
    });
    assert_eq!(command.unparse(), "<<END 1<<-here");

    command
        .assigns
        .push(Assign::try_from(literal_word("foo=bar")).unwrap());
    assert_eq!(command.unparse(), "foo=bar <<END 1<<-here");
}

#[test]
fn grouping_display() {
    let list = parse("foo").unwrap();
    let grouping = CompoundCommand::Grouping(list);
    assert_eq!(grouping.unparse(), "{ foo; }");
}

#[test]
fn subshell_display() {
    let list = parse("bar").unwrap();
    let subshell = CompoundCommand::Subshell(list);
    assert_eq!(subshell.unparse(), "(bar)");
}

#[test]
fn function_definition_display() {
    let body = FullCompoundCommand {
        command: CompoundCommand::Subshell(parse("bar").unwrap()),
        redirs: vec![],
    };
    let fd = yash_core::syntax::FunctionDefinition {
        has_keyword: false,
        name: literal_word("foo"),
        body,
    };
    assert_eq!(fd.unparse(), "foo() (bar)");
}

#[test]
fn pipeline_display() {
    let mut p = Pipeline {
        commands: vec![],
        negation: false,
    };
    p.commands.push(simple_command("first"));
    assert_eq!(p.unparse(), "first");

    p.negation = true;
    assert_eq!(p.unparse(), "! first");

    p.commands.push(simple_command("second"));
    assert_eq!(p.unparse(), "! first | second");

    p.commands.push(simple_command("third"));
    p.negation = false;
    assert_eq!(p.unparse(), "first | second | third");
}

#[test]
fn and_or_conversions() {
    for op in &[AndOr::AndThen, AndOr::OrElse] {
        let op2 = AndOr::try_from(op.to_operator());
        assert_eq!(op2, Ok(*op));
    }
}

#[test]
fn and_or_list_display() {
    let p = pipeline("first");
    let mut aol = AndOrList {
        first: p,
        rest: vec![],
    };
    assert_eq!(aol.unparse(), "first");

    let p = pipeline("second");
    aol.rest.push((AndOr::AndThen, p));
    assert_eq!(aol.unparse(), "first && second");

    let p = pipeline("third");
    aol.rest.push((AndOr::OrElse, p));
    assert_eq!(aol.unparse(), "first && second || third");
}

#[test]
fn list_display() {
    let item = Item {
        and_or: and_or("first"),
        is_async: false,
    };
    let mut list = List(vec![item]);
    assert_eq!(list.unparse(), "first");

    let item = Item {
        and_or: and_or("second"),
        is_async: true,
    };
    list.0.push(item);
    assert_eq!(list.unparse(), "first; second&");

    let item = Item {
        and_or: and_or("third"),
        is_async: false,
    };
    list.0.push(item);
    assert_eq!(list.unparse(), "first; second& third");
}

#[test]
fn list_display_alternate() {
    let item = Item {
        and_or: and_or("first"),
        is_async: false,
    };
    let mut list = List(vec![item]);
    assert_eq!(list.unparse_alternate(), "first;");

    let item = Item {
        and_or: and_or("second"),
        is_async: true,
    };
    list.0.push(item);
    assert_eq!(list.unparse_alternate(), "first; second&");

    let item = Item {
        and_or: and_or("third"),
        is_async: false,
    };
    list.0.push(item);
    assert_eq!(list.unparse_alternate(), "first; second& third;");
}

#[test]
fn pipeline_and_async_list() {
    let list = parse("first; second& third").unwrap();
    assert_eq!(list.0.len(), 3);
    assert!(!list.0[0].is_async);
    assert!(list.0[1].is_async);
    assert!(!list.0[2].is_async);
    assert_eq!(list.unparse(), "first; second& third");
    assert_eq!(list.unparse_alternate(), "first; second& third;");
}

#[test]
fn parse_assignments_and_words() {
    let list = parse("name=value echo foo").unwrap();
    assert_eq!(list.0.len(), 1);
    let command = &list.0[0].and_or.first.commands[0];
    match command {
        Command::Simple(simple) => {
            assert_eq!(simple.assigns.len(), 1);
            assert_eq!(simple.assigns[0].name, "name");
            assert_eq!(simple.words.len(), 2);
            assert_eq!(simple.words[0].unparse(), "echo");
            assert_eq!(simple.words[1].unparse(), "foo");
        }
        other => panic!("wrong command: {:?}", other),
    }
}

#[test]
fn parse_rejects_leftover() {
    assert!(parse(")").is_err());
    assert!(parse("a \"b").is_err());
}

fn assert_round_trip(source: &str) {
    let list = parse(source).unwrap();
    let formatted = list.unparse();
    let reparsed = parse(&formatted).unwrap();
    // Once rendered canonically, parsing and rendering again must
    // reproduce the text exactly.
    assert_eq!(formatted, reparsed.unparse(), "source: {:?}", source);
}

#[test]
fn ast_round_trip() {
    assert_round_trip("first; second& third");
    assert_round_trip("a | b && c || d");
    assert_round_trip("! x | y");
    assert_round_trip("name=value echo foo");
    assert_round_trip("{ foo; }");
    assert_round_trip("(bar)");
    assert_round_trip("a; { b; c& }; (d | e)");
}

#[test]
fn assignment_round_trip() {
    let word = literal_word("night=foo");
    let assign = Assign::try_from(word).unwrap();
    assert_eq!(assign.name, "night");
    match &assign.value {
        yash_core::syntax::Value::Scalar(w) => assert_eq!(w.unparse(), "foo"),
        other => panic!("wrong value: {:?}", other),
    }
    assert_eq!(assign.unparse(), "night=foo");
}

#[test]
fn literal_word_round_trip() {
    let word = literal_word("night=foo");
    let rendered = word.unparse();
    let reparsed = yash_core::parser::parse_single_word(&rendered).unwrap();
    assert_eq!(reparsed.units, word.units);
}

#[test]
fn parse_empty_source() {
    let list = parse("").unwrap();
    assert_eq!(list.0.len(), 0);
    assert_eq!(list.unparse(), "");
}
