//! Tests for the initial expansion of text units.

use yash_core::expansion::{expand_text, expand_unit, AttrChar, CommandSubstituter, Origin};
use yash_core::semantics::ExitStatus;
use yash_core::source::Location;
use yash_core::syntax::{DoubleQuotable, Literal, Text};
use yash_core::trap::Errno;

struct NoSubst;

impl CommandSubstituter for NoSubst {
    fn substitute(
        &mut self,
        _content: &str,
        _location: &Location,
    ) -> Result<(String, Option<ExitStatus>), Errno> {
        panic!("no command substitution expected");
    }
}

struct FixedSubst(&'static str);

impl CommandSubstituter for FixedSubst {
    fn substitute(
        &mut self,
        _content: &str,
        _location: &Location,
    ) -> Result<(String, Option<ExitStatus>), Errno> {
        Ok((self.0.to_string(), None))
    }
}

#[test]
fn literal_expand_unquoted() {
    let mut field = Vec::<AttrChar>::default();
    let unit = DoubleQuotable::Literal('&');
    expand_unit(&unit, false, &mut field, &mut NoSubst).unwrap();
    assert_eq!(
        field,
        [AttrChar {
            value: '&',
            origin: Origin::Literal,
            is_quoted: false,
            is_quoting: false
        }]
    );
}

#[test]
fn backslashed_expand_unquoted() {
    let mut field = Vec::<AttrChar>::default();
    let unit = DoubleQuotable::Backslashed('$');
    expand_unit(&unit, false, &mut field, &mut NoSubst).unwrap();
    assert_eq!(
        field,
        [
            AttrChar {
                value: '\\',
                origin: Origin::Literal,
                is_quoted: false,
                is_quoting: true,
            },
            AttrChar {
                value: '$',
                origin: Origin::Literal,
                is_quoted: true,
                is_quoting: false,
            }
        ]
    );
}

#[test]
fn command_subst_expand_unquoted() {
    let mut field = Vec::<AttrChar>::default();
    let subst = DoubleQuotable::CommandSubst {
        content: "echo .".to_string(),
        location: Location::dummy(""),
    };
    expand_unit(&subst, false, &mut field, &mut FixedSubst(".")).unwrap();
    assert_eq!(
        field,
        [AttrChar {
            value: '.',
            origin: Origin::SoftExpansion,
            is_quoted: false,
            is_quoting: false
        }]
    );
}

#[test]
fn command_subst_expand_quoted() {
    let mut field = Vec::<AttrChar>::default();
    let subst = DoubleQuotable::CommandSubst {
        content: "echo q".to_string(),
        location: Location::dummy(""),
    };
    expand_unit(&subst, true, &mut field, &mut FixedSubst("q")).unwrap();
    assert_eq!(
        field,
        [AttrChar {
            value: 'q',
            origin: Origin::SoftExpansion,
            is_quoted: true,
            is_quoting: false
        }]
    );
}

#[test]
fn text_expand() {
    let mut field = Vec::<AttrChar>::default();
    let text = Text(vec![Literal('<'), Literal('-'), Literal('>')]);
    expand_text(&text, false, &mut field, &mut NoSubst).unwrap();
    assert_eq!(
        field,
        [
            AttrChar {
                value: '<',
                origin: Origin::Literal,
                is_quoted: false,
                is_quoting: false
            },
            AttrChar {
                value: '-',
                origin: Origin::Literal,
                is_quoted: false,
                is_quoting: false
            },
            AttrChar {
                value: '>',
                origin: Origin::Literal,
                is_quoted: false,
                is_quoting: false
            }
        ]
    );
}
