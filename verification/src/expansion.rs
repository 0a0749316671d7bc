//! Initial expansion: turning syntax into attributed characters.
//!
//! During expansion every character carries its origin and quotation state,
//! so that later phases know which characters may be split into fields and
//! which quoting marks must be removed at the end.

use crate::semantics::ExitStatus;
use crate::source::Location;
use crate::syntax::{DoubleQuotable, Text};
use crate::trap::Errno;
use crate::variable::ReadOnlyError;
use vstd::prelude::*;

verus! {

/// Where an expanded character came from.
#[derive(Clone, Copy, Debug, Eq, PartialEq, Structural)]
pub enum Origin {
    /// The character appeared literally in the word being expanded.
    Literal,
    /// The character was produced by a parameter, command, or arithmetic
    /// expansion and is subject to field splitting.
    SoftExpansion,
}

/// A character during expansion, tagged with origin and quoting flags.
#[derive(Clone, Copy, Debug, Eq, PartialEq, Structural)]
pub struct AttrChar {
    /// The character value.
    pub value: char,
    /// Where the character came from.
    pub origin: Origin,
    /// Whether this character is quoted: it must not be subject to later
    /// field splitting or pathname expansion.
    pub is_quoted: bool,
    /// Whether this character is a quotation mark itself, to be removed by
    /// quote removal.
    pub is_quoting: bool,
}

/// Intermediate expansion product: a sequence of attributed characters,
/// possibly already split into fields.
#[derive(Clone, Debug, Eq, PartialEq)]
pub enum Phrase {
    /// A single character.
    Char(AttrChar),
    /// One field.
    Field(Vec<AttrChar>),
    /// Any number of fields.
    Full(Vec<Vec<AttrChar>>),
}

/// Why an expansion failed.
#[derive(Debug, Eq, PartialEq)]
pub enum ErrorCause {
    /// An arithmetic expansion failed.
    ArithError(crate::arith::ArithError),
    /// An assignment hit a read-only variable.
    AssignReadOnly(ReadOnlyError),
    /// A command substitution could not be run.
    CommandSubstError(Errno),
}

/// An expansion failure: its cause and the location it points at.
#[derive(Debug, Eq, PartialEq)]
pub struct Error {
    /// Why the expansion failed.
    pub cause: ErrorCause,
    /// Location the failure points at.
    pub location: Location,
}

/// Runs the command of a command substitution and captures its output.
///
/// The implementor runs `content` as shell code in a subshell, captures its
/// standard output with trailing newlines removed, and reports the exit
/// status of the last command substitution, if any command ran.
pub trait CommandSubstituter {
    /// Runs one command substitution.
    fn substitute(&mut self, content: &str, location: &Location) -> Result<
        (String, Option<ExitStatus>),
        Errno,
    >;
}

/// The attributed characters a literal character expands to.
pub open spec fn literal_chars(c: char, is_quoted: bool) -> Seq<AttrChar> {
    seq![AttrChar { value: c, origin: Origin::Literal, is_quoted, is_quoting: false }]
}

/// The attributed characters a backslash-escaped character expands to: the
/// backslash as a quoting mark, then the character, quoted.
pub open spec fn backslashed_chars(c: char) -> Seq<AttrChar> {
    seq![
        AttrChar { value: '\\', origin: Origin::Literal, is_quoted: false, is_quoting: true },
        AttrChar { value: c, origin: Origin::Literal, is_quoted: true, is_quoting: false },
    ]
}

/// The attributed characters a string produced by an expansion turns into.
pub open spec fn soft_chars(s: Seq<char>, is_quoted: bool) -> Seq<AttrChar>
    decreases s.len(),
{
    if s.len() == 0 {
        Seq::empty()
    } else {
        soft_chars(s.drop_last(), is_quoted).push(
            AttrChar {
                value: s.last(),
                origin: Origin::SoftExpansion,
                is_quoted,
                is_quoting: false,
            },
        )
    }
}

/// Whether a unit expands without consulting anything outside the word: a
/// literal or backslash-escaped character.
pub open spec fn is_pure_unit(u: DoubleQuotable) -> bool {
    u matches DoubleQuotable::Literal(_) || u matches DoubleQuotable::Backslashed(_)
}

/// The attributed characters a pure unit expands to.
pub open spec fn pure_unit_chars(u: DoubleQuotable, is_quoted: bool) -> Seq<AttrChar> {
    match u {
        DoubleQuotable::Literal(c) => literal_chars(c, is_quoted),
        DoubleQuotable::Backslashed(c) => backslashed_chars(c),
        _ => Seq::empty(),
    }
}

/// Whether every unit of a text is a literal character.
pub open spec fn all_literal_units(units: Seq<DoubleQuotable>) -> bool {
    forall|i: int| 0 <= i < units.len() ==> (#[trigger] units[i]) matches DoubleQuotable::Literal(_)
}

/// The characters of a text of literal units, in order.
pub open spec fn literal_text_chars(units: Seq<DoubleQuotable>) -> Seq<char>
    decreases units,
{
    if units.len() == 0 {
        Seq::empty()
    } else {
        literal_text_chars(units.drop_last()).push(
            match units.last() {
                DoubleQuotable::Literal(c) => c,
                _ => ' ',
            },
        )
    }
}

/// The attributed characters of one field of a phrase, when the phrase is a
/// single field.
pub open spec fn single_field_chars(p: Phrase) -> Option<Seq<AttrChar>> {
    match p {
        Phrase::Char(a) => Some(seq![a]),
        Phrase::Field(f) => Some(f@),
        Phrase::Full(_) => None,
    }
}

/// A text of literal units expands, unquoted, to one attributed character
/// per unit, carrying the unit's character.
pub proof fn lemma_literal_units_chars(units: Seq<DoubleQuotable>)
    requires
        all_literal_units(units),
    ensures
        pure_units_chars(units, false).len() == units.len(),
        literal_text_chars(units).len() == units.len(),
        forall|i: int|
            0 <= i < units.len() ==> (#[trigger] pure_units_chars(units, false)[i]) == (AttrChar {
                value: literal_text_chars(units)[i],
                origin: Origin::Literal,
                is_quoted: false,
                is_quoting: false,
            }),
    decreases units.len(),
{
    if units.len() > 0 {
        let prefix = units.drop_last();
        assert(forall|i: int| 0 <= i < prefix.len() ==> #[trigger] prefix[i] == units[i]);
        lemma_literal_units_chars(prefix);
        assert(pure_units_chars(units, false) =~= pure_units_chars(prefix, false)
            + pure_unit_chars(units.last(), false));
        assert(literal_text_chars(units).drop_last() =~= literal_text_chars(prefix));
    }
}

/// The concatenated expansion of a sequence of pure units.
pub open spec fn pure_units_chars(units: Seq<DoubleQuotable>, is_quoted: bool) -> Seq<AttrChar>
    decreases units,
{
    if units.len() == 0 {
        Seq::empty()
    } else {
        pure_units_chars(units.drop_last(), is_quoted) + pure_unit_chars(units.last(), is_quoted)
    }
}

/// Appends the soft-expansion characters of a string.
pub(crate) fn push_soft_chars(output: &mut Vec<AttrChar>, s: &str, is_quoted: bool)
    ensures
        final (output)@ == old(output)@ + soft_chars(s@, is_quoted),
{
    let n = s.unicode_len();
    let mut i: usize = 0;
    proof {
        assert(s@.take(0) =~= Seq::<char>::empty());
        assert(output@ =~= output@ + soft_chars(s@.take(0), is_quoted));
    }
    while i < n
        invariant
            i <= n,
            n == s@.len(),
            output@ =~= old(output)@ + soft_chars(s@.take(i as int), is_quoted),
        decreases n - i,
    {
        let c = s.get_char(i);
        output.push(
            AttrChar { value: c, origin: Origin::SoftExpansion, is_quoted, is_quoting: false },
        );
        proof {
            assert(s@.take(i + 1 as int).drop_last() =~= s@.take(i as int));
            assert(s@.take(i + 1 as int).last() == s@[i as int]);
            assert(output@ =~= old(output)@ + soft_chars(s@.take(i + 1 as int), is_quoted));
        }
        i = i + 1;
    }
    proof {
        assert(s@.take(n as int) =~= s@);
        assert(final (output)@ =~= old(output)@ + soft_chars(s@, is_quoted));
    }
}

/// Expands one unit of a word or text, appending its attributed characters.
///
/// A literal character keeps its value and quotation; a backslash-escaped
/// character becomes a quoting backslash followed by the quoted character; a
/// command substitution runs through the substituter and appends its output
/// as soft-expansion characters, reporting the substitution's exit status.
/// Whatever the substituter returned, every appended character keeps the
/// requested quotation and is never a quoting mark.
pub fn expand_unit<S: CommandSubstituter>(
    unit: &DoubleQuotable,
    is_quoted: bool,
    output: &mut Vec<AttrChar>,
    substituter: &mut S,
) -> (r: Result<Option<ExitStatus>, (Errno, Location)>)
    ensures
        is_pure_unit(*unit) ==> r is Ok,
        match r {
            Ok(exit_status) => {
                &&& is_pure_unit(*unit) ==> final (output)@ == old(output)@ + pure_unit_chars(
                    *unit,
                    is_quoted,
                ) && exit_status is None
                &&& unit matches DoubleQuotable::CommandSubst { .. } ==> exists|s: Seq<char>|
                    final (output)@ == old(output)@ + soft_chars(s, is_quoted)
            },
            Err(_) => final (output)@ == old(output)@,
        },
{
    match unit {
        DoubleQuotable::Literal(c) => {
            output.push(
                AttrChar { value: *c, origin: Origin::Literal, is_quoted, is_quoting: false },
            );
            proof {
                assert(final (output)@ =~= old(output)@ + literal_chars(*c, is_quoted));
            }
            Ok(None)
        },
        DoubleQuotable::Backslashed(c) => {
            output.push(
                AttrChar { value: '\\', origin: Origin::Literal, is_quoted: false, is_quoting: true },
            );
            output.push(
                AttrChar { value: *c, origin: Origin::Literal, is_quoted: true, is_quoting: false },
            );
            proof {
                assert(final (output)@ =~= old(output)@ + backslashed_chars(*c));
            }
            Ok(None)
        },
        DoubleQuotable::CommandSubst { content, location } => {
            let (result, exit_status) = match substituter.substitute(content.as_str(), location) {
                Ok(pair) => pair,
                Err(errno) => {
                    return Err((errno, location.clone()));
                },
            };
            push_soft_chars(output, result.as_str(), is_quoted);
            Ok(exit_status)
        },
    }
}

/// Expands a text, appending the attributed characters of every unit.
///
/// The returned exit status is that of the last command substitution that
/// ran, if any. When every unit of the text is a literal or backslash-escaped
/// character, the appended characters are exactly the units' expansions in
/// order.
pub fn expand_text<S: CommandSubstituter>(
    text: &Text,
    is_quoted: bool,
    output: &mut Vec<AttrChar>,
    substituter: &mut S,
) -> (r: Result<Option<ExitStatus>, (Errno, Location)>)
    ensures
        (forall|i: int| 0 <= i < text.0@.len() ==> is_pure_unit(#[trigger] text.0@[i])) ==> (
        r matches Ok(exit_status) && exit_status is None && final (output)@ == old(output)@
            + pure_units_chars(text.0@, is_quoted)),
{
    let n = text.0.len();
    let mut i: usize = 0;
    let mut last_status: Option<ExitStatus> = None;
    while i < n
        invariant
            i <= n,
            n == text.0@.len(),
            (forall|j: int| 0 <= j < i ==> is_pure_unit(#[trigger] text.0@[j])) ==> (output@
                == old(output)@ + pure_units_chars(text.0@.take(i as int), is_quoted)
                && last_status is None),
        decreases n - i,
    {
        let status = match expand_unit(&text.0[i], is_quoted, output, substituter) {
            Ok(status) => status,
            Err(e) => {
                return Err(e);
            },
        };
        if status.is_some() {
            last_status = status;
        }
        proof {
            assert(text.0@.take(i + 1 as int).drop_last() =~= text.0@.take(i as int));
            if forall|j: int| 0 <= j < i + 1 ==> is_pure_unit(#[trigger] text.0@[j]) {
                assert(output@ =~= old(output)@ + pure_units_chars(
                    text.0@.take(i + 1 as int),
                    is_quoted,
                ));
            }
        }
        i = i + 1;
    }
    proof {
        assert(text.0@.take(n as int) =~= text.0@);
    }
    Ok(last_status)
}

} // verus!
