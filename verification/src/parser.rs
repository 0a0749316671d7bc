//! Parsing shell source text into syntax trees.
//!
//! The parser reads a [`List`] from source text: simple commands of
//! assignment and ordinary words, pipelines with negation, and-or lists,
//! `;`/`&`-separated items, and `{ ... }` and `(...)` compound commands.
//! Words consist of literal characters, backslash escapes, double-quoted
//! groups, and `$(...)` command substitutions.

use crate::source::{Code, Location, Source};
use crate::syntax::{
    first_equal_index, is_assign_word, units_literal_string, AndOr, AndOrList, Assign, Command,
    CompoundCommand, DoubleQuotable, FullCompoundCommand, Item, List, Pipeline, SimpleCommand,
    Value, Word, WordUnit,
};
use crate::unparse::{unit_str, units_str, word_str};
use vstd::prelude::*;
use vstd::string::StrSliceExecFns;

verus! {

/// An error in parsing source text, with the index it points at.
#[derive(Clone, Copy, Debug, Eq, PartialEq, Structural)]
pub enum ParseError {
    /// A token that cannot stand here.
    UnexpectedToken(usize),
    /// A double quote without a closing quote.
    UnclosedQuote(usize),
    /// A `$(` without a closing parenthesis.
    UnclosedSubstitution(usize),
    /// A `{` or `(` without its closing counterpart.
    UnclosedGroup(usize),
    /// A command was expected but none was found.
    MissingCommand(usize),
}

/// Whether a character has no special meaning to the parser: it is not a
/// blank, a newline, an operator character, a backslash, a quote, or a
/// dollar sign.
pub open spec fn is_plain_char(c: char) -> bool {
    c != ' ' && c != '\t' && c != '\n' && c != ';' && c != '&' && c != '|' && c != '(' && c != ')'
        && c != '\\' && c != '"' && c != '$'
}

/// The word units a sequence of plain characters parses to: one unquoted
/// literal per character.
pub open spec fn plain_units(s: Seq<char>) -> Seq<WordUnit>
    decreases s.len(),
{
    if s.len() == 0 {
        Seq::empty()
    } else {
        plain_units(s.drop_last()).push(WordUnit::Unquoted(DoubleQuotable::Literal(s.last())))
    }
}

/// Whether a word unit is an unquoted literal plain character.
pub open spec fn is_plain_unit(u: WordUnit) -> bool {
    u matches WordUnit::Unquoted(dq) && dq matches DoubleQuotable::Literal(c) && is_plain_char(c)
}

/// Whether every character of a sequence is plain.
pub open spec fn all_plain(s: Seq<char>) -> bool {
    forall|i: int| 0 <= i < s.len() ==> is_plain_char(#[trigger] s[i])
}

/// Whether a source is one plain word for the parser: non-empty, all plain
/// characters, not a lone `!` (which would be a negation), and not starting
/// with `}` (which would end an enclosing group).
pub open spec fn is_plain_word_source(s: Seq<char>) -> bool {
    s.len() > 0 && all_plain(s) && s != seq!['!'] && s[0] != '}'
}

/// The simple command a plain-word source parses to: one assignment and no
/// words when the word has the assignment form, else the one word; never any
/// redirections.
pub open spec fn plain_simple_command(c: SimpleCommand, s: Seq<char>) -> bool {
    let units = plain_units(s);
    &&& c.redirs@.len() == 0
    &&& if is_assign_word(units) {
        let k = first_equal_index(units);
        &&& c.assigns@.len() == 1
        &&& c.words@.len() == 0
        &&& Some(c.assigns@[0].name@) == units_literal_string(units.take(k))
        &&& (c.assigns@[0].value matches Value::Scalar(w) && w.units@ == units.skip(k + 1))
    } else {
        c.assigns@.len() == 0 && c.words@.len() == 1 && c.words@[0].units@ == units
    }
}

/// The command a plain-word source parses to.
pub open spec fn plain_command(c: Command, s: Seq<char>) -> bool {
    c matches Command::Simple(sc) && plain_simple_command(sc, s)
}

/// The pipeline a plain-word source parses to.
pub open spec fn plain_pipeline(p: Pipeline, s: Seq<char>) -> bool {
    !p.negation && p.commands@.len() == 1 && plain_command(p.commands@[0], s)
}

/// The and-or list a plain-word source parses to.
pub open spec fn plain_and_or(a: AndOrList, s: Seq<char>) -> bool {
    plain_pipeline(a.first, s) && a.rest@.len() == 0
}

/// The list a plain-word source parses to: one synchronous item holding the
/// one command.
pub open spec fn plain_list(l: List, s: Seq<char>) -> bool {
    l.0@.len() == 1 && !l.0@[0].is_async && plain_and_or(l.0@[0].and_or, s)
}

/// One direction of the syntax round trip, proved for words of plain literal
/// characters: the rendering of such a word consists of exactly its
/// characters, and parsing those characters back yields exactly the word's
/// units. Together with the contract of [`parse_single_word`], re-parsing
/// the rendering of such a word restores it, up to its location.
pub proof fn lemma_plain_word_round_trip(w: Word)
    requires
        forall|i: int| 0 <= i < w.units@.len() ==> is_plain_unit(#[trigger] w.units@[i]),
    ensures
        plain_units(word_str(w)) == w.units@,
        forall|i: int| 0 <= i < word_str(w).len() ==> is_plain_char(#[trigger] word_str(w)[i]),
{
    lemma_plain_units_str(w.units@);
}

proof fn lemma_plain_units_str(units: Seq<WordUnit>)
    requires
        forall|i: int| 0 <= i < units.len() ==> is_plain_unit(#[trigger] units[i]),
    ensures
        plain_units(units_str(units)) == units,
        forall|i: int| 0 <= i < units_str(units).len() ==> is_plain_char(#[trigger] units_str(units)[i]),
    decreases units.len(),
{
    if units.len() > 0 {
        let prefix = units.drop_last();
        assert(forall|i: int| 0 <= i < prefix.len() ==> #[trigger] prefix[i] == units[i]);
        lemma_plain_units_str(prefix);
        let last = units.last();
        let c = last->Unquoted_0->Literal_0;
        assert(unit_str(last) =~= seq![c]);
        assert(units_str(units) =~= units_str(prefix) + seq![c]);
        assert(units_str(units).drop_last() =~= units_str(prefix));
        assert(units_str(units).last() == c);
        assert(plain_units(units_str(units)) =~= plain_units(units_str(prefix)).push(
            WordUnit::Unquoted(DoubleQuotable::Literal(c)),
        ));
        assert(plain_units(units_str(units)) =~= units);
    } else {
        assert(units_str(units) =~= Seq::<char>::empty());
    }
}

fn is_blank(c: char) -> (r: bool)
    ensures
        r == (c == ' ' || c == '\t'),
{
    c == ' ' || c == '\t'
}

/// Whether a character ends a word.
fn is_word_end(c: char) -> (r: bool)
    ensures
        r == (c == ' ' || c == '\t' || c == '\n' || c == ';' || c == '&' || c == '|' || c == '('
            || c == ')'),
{
    c == ' ' || c == '\t' || c == '\n' || c == ';' || c == '&' || c == '|' || c == '(' || c == ')'
}

/// Collects the characters of a string.
fn source_chars(s: &str) -> (r: Vec<char>)
    ensures
        r@ == s@,
{
    let n = s.unicode_len();
    let mut r: Vec<char> = Vec::new();
    let mut i: usize = 0;
    while i < n
        invariant
            i <= n,
            n == s@.len(),
            r@ =~= s@.take(i as int),
        decreases n - i,
    {
        r.push(s.get_char(i));
        proof {
            assert(r@ =~= s@.take(i + 1 as int));
        }
        i = i + 1;
    }
    proof {
        assert(s@.take(n as int) =~= s@);
    }
    r
}

/// A location within the source, ranging over the given indices.
fn location_at(code: &Code, start: usize, end: usize) -> (r: Location)
    ensures
        r.code == *code,
        r.range_start == start,
        r.range_end == end,
{
    Location { code: code.clone(), range_start: start, range_end: end }
}

/// Advances past blanks.
fn skip_blanks(chars: &Vec<char>, pos: &mut usize)
    requires
        *old(pos) <= chars@.len(),
    ensures
        *old(pos) <= *final (pos) <= chars@.len(),
        *old(pos) == chars@.len() || !(chars@[*old(pos) as int] == ' ' || chars@[*old(
            pos,
        ) as int] == '\t') ==> *final (pos) == *old(pos),
{
    let n = chars.len();
    while *pos < n && is_blank(chars[*pos])
        invariant
            *old(pos) <= *pos <= n,
            n == chars@.len(),
            *old(pos) == n || !(chars@[*old(pos) as int] == ' ' || chars@[*old(pos) as int]
                == '\t') ==> *pos == *old(pos),
        decreases n - *pos,
    {
        *pos = *pos + 1;
    }
}

/// Advances past blanks and newlines.
fn skip_blanks_and_newlines(chars: &Vec<char>, pos: &mut usize)
    requires
        *old(pos) <= chars@.len(),
    ensures
        *old(pos) <= *final (pos) <= chars@.len(),
        *old(pos) == chars@.len() || !(chars@[*old(pos) as int] == ' ' || chars@[*old(
            pos,
        ) as int] == '\t' || chars@[*old(pos) as int] == '\n') ==> *final (pos) == *old(pos),
{
    let n = chars.len();
    while *pos < n && (is_blank(chars[*pos]) || chars[*pos] == '\n')
        invariant
            *old(pos) <= *pos <= n,
            n == chars@.len(),
            *old(pos) == n || !(chars@[*old(pos) as int] == ' ' || chars@[*old(pos) as int]
                == '\t' || chars@[*old(pos) as int] == '\n') ==> *pos == *old(pos),
        decreases n - *pos,
    {
        *pos = *pos + 1;
    }
}

/// Reads one word starting at the current position. The word ends at a
/// blank, newline, or operator character. The word may be empty when the
/// position already stands at such a character.
fn parse_word(chars: &Vec<char>, pos: &mut usize, code: &Code) -> (r: Result<Word, ParseError>)
    requires
        *old(pos) <= chars@.len(),
    ensures
        *old(pos) <= *final (pos) <= chars@.len(),
        (forall|k: int| *old(pos) <= k < chars@.len() ==> is_plain_char(#[trigger] chars@[k]))
            ==> (r matches Ok(w) && w.units@ == plain_units(chars@.skip(*old(pos) as int))
            && *final (pos) == chars@.len()),
{
    let n = chars.len();
    let start = *pos;
    let mut units: Vec<WordUnit> = Vec::new();
    while *pos < n && !is_word_end(chars[*pos])
        invariant
            *old(pos) <= *pos <= n,
            start == *old(pos),
            n == chars@.len(),
            (forall|k: int| start <= k < n ==> is_plain_char(#[trigger] chars@[k])) ==> units@
                == plain_units(chars@.subrange(start as int, *pos as int)),
        decreases n - *pos,
    {
        let c = chars[*pos];
        if c == '\\' {
            if *pos + 1 >= n {
                return Err(ParseError::UnexpectedToken(*pos));
            }
            units.push(WordUnit::Unquoted(DoubleQuotable::Backslashed(chars[*pos + 1])));
            *pos = *pos + 2;
        } else if c == '"' {
            let quote_start = *pos;
            *pos = *pos + 1;
            let mut inner: Vec<DoubleQuotable> = Vec::new();
            while *pos < n && chars[*pos] != '"'
                invariant
                    *old(pos) <= *pos <= n,
                    quote_start < *pos,
                    n == chars@.len(),
                decreases n - *pos,
            {
                let d = chars[*pos];
                if d == '\\' {
                    if *pos + 1 >= n {
                        return Err(ParseError::UnclosedQuote(quote_start));
                    }
                    inner.push(DoubleQuotable::Backslashed(chars[*pos + 1]));
                    *pos = *pos + 2;
                } else {
                    inner.push(DoubleQuotable::Literal(d));
                    *pos = *pos + 1;
                }
            }
            if *pos >= n {
                return Err(ParseError::UnclosedQuote(quote_start));
            }
            *pos = *pos + 1;
            units.push(WordUnit::DoubleQuote(inner));
        } else if c == '$' && *pos + 1 < n && chars[*pos + 1] == '(' {
            let subst_start = *pos;
            *pos = *pos + 2;
            let content_start = *pos;
            let mut depth: usize = 1;
            while *pos < n && depth > 0
                invariant
                    *old(pos) <= content_start <= *pos <= n,
                    (*pos == content_start && depth == 1) || *pos > content_start,
                    n == chars@.len(),
                decreases n - *pos,
            {
                if chars[*pos] == '(' {
                    if depth < usize::MAX {
                        depth = depth + 1;
                    }
                    *pos = *pos + 1;
                } else if chars[*pos] == ')' {
                    depth = depth - 1;
                    *pos = *pos + 1;
                } else {
                    *pos = *pos + 1;
                }
            }
            if depth > 0 {
                return Err(ParseError::UnclosedSubstitution(subst_start));
            }
            let content_end = *pos - 1;
            let mut content = String::new();
            let mut k = content_start;
            while k < content_end
                invariant
                    content_start <= k <= content_end <= n,
                    n == chars@.len(),
                decreases content_end - k,
            {
                crate::syntax::push_char(&mut content, chars[k]);
                k = k + 1;
            }
            units.push(
                WordUnit::Unquoted(
                    DoubleQuotable::CommandSubst {
                        content,
                        location: location_at(code, subst_start, *pos),
                    },
                ),
            );
        } else {
            units.push(WordUnit::Unquoted(DoubleQuotable::Literal(c)));
            *pos = *pos + 1;
            proof {
                let done = chars@.subrange(start as int, *pos as int);
                assert(done.drop_last() =~= chars@.subrange(start as int, *pos - 1));
                assert(done.last() == c);
            }
        }
    }
    proof {
        if forall|k: int| start <= k < n ==> is_plain_char(#[trigger] chars@[k]) {
            assert(*pos == n);
            assert(chars@.subrange(start as int, n as int) =~= chars@.skip(start as int));
        }
    }
    Ok(Word { units, location: location_at(code, start, *pos) })
}

/// Reads a simple command: leading assignment words, then ordinary words.
fn parse_simple_command(chars: &Vec<char>, pos: &mut usize, code: &Code) -> (r: Result<
    SimpleCommand,
    ParseError,
>)
    requires
        *old(pos) <= chars@.len(),
    ensures
        *old(pos) <= *final (pos) <= chars@.len(),
        r is Ok ==> *old(pos) < *final (pos),
        *old(pos) == 0 && is_plain_word_source(chars@) ==> (r matches Ok(c)
            && plain_simple_command(c, chars@) && *final (pos) == chars@.len()),
{
    let n = chars.len();
    let mut assigns: Vec<Assign> = Vec::new();
    let mut words: Vec<Word> = Vec::new();
    let start = *pos;
    loop
        invariant
            *old(pos) <= *pos <= n,
            start == *old(pos),
            n == chars@.len(),
            assigns@.len() > 0 || words@.len() > 0 ==> *old(pos) < *pos,
            *old(pos) == 0 && is_plain_word_source(chars@) ==> ((*pos == 0 && assigns@.len() == 0
                && words@.len() == 0) || (*pos == n && plain_collections(
                assigns@,
                words@,
                chars@,
            ))),
        decreases n - *pos,
    {
        proof {
            if *old(pos) == 0 && is_plain_word_source(chars@) && *pos == 0 {
                assert(is_plain_char(chars@[0]));
            }
        }
        skip_blanks(chars, pos);
        if *pos >= n || is_word_end(chars[*pos]) {
            if assigns.len() == 0 && words.len() == 0 {
                return Err(ParseError::MissingCommand(*pos));
            }
            return Ok(SimpleCommand { assigns, words, redirs: Vec::new() });
        }
        let word_start = *pos;
        let word = match parse_word(chars, pos, code) {
            Ok(w) => w,
            Err(e) => {
                return Err(e);
            },
        };
        if *pos == word_start {
            if assigns.len() == 0 && words.len() == 0 {
                return Err(ParseError::MissingCommand(*pos));
            }
            return Ok(SimpleCommand { assigns, words, redirs: Vec::new() });
        }
        let ghost word_units = word.units@;
        proof {
            if *old(pos) == 0 && is_plain_word_source(chars@) {
                assert(chars@.skip(0) =~= chars@);
                assert(word_units == plain_units(chars@));
            }
        }
        if words.len() == 0 {
            match Assign::try_from(word) {
                Ok(assign) => {
                    assigns.push(assign);
                },
                Err(word) => {
                    words.push(word);
                },
            }
        } else {
            words.push(word);
        }
    }
}

/// Whether the collected assignments and words are those of the one plain
/// word of the source.
pub open spec fn plain_collections(
    assigns: Seq<Assign>,
    words: Seq<Word>,
    s: Seq<char>,
) -> bool {
    let units = plain_units(s);
    if is_assign_word(units) {
        let k = first_equal_index(units);
        &&& assigns.len() == 1
        &&& words.len() == 0
        &&& Some(assigns[0].name@) == units_literal_string(units.take(k))
        &&& (assigns[0].value matches Value::Scalar(w) && w.units@ == units.skip(k + 1))
    } else {
        assigns.len() == 0 && words.len() == 1 && words[0].units@ == units
    }
}

/// Reads one command: a `{ ... }` grouping, a `(...)` subshell, or a simple
/// command.
fn parse_command(chars: &Vec<char>, pos: &mut usize, code: &Code) -> (r: Result<
    Command,
    ParseError,
>)
    requires
        *old(pos) <= chars@.len(),
    ensures
        *old(pos) <= *final (pos) <= chars@.len(),
        r is Ok ==> *old(pos) < *final (pos),
        *old(pos) == 0 && is_plain_word_source(chars@) ==> (r matches Ok(c) && plain_command(
            c,
            chars@,
        ) && *final (pos) == chars@.len()),
    decreases chars@.len() - *pos, 1int,
{
    let n = chars.len();
    proof {
        if *old(pos) == 0 && is_plain_word_source(chars@) {
            assert(is_plain_char(chars@[0]));
        }
    }
    skip_blanks(chars, pos);
    if *pos < n && chars[*pos] == '(' {
        let open = *pos;
        *pos = *pos + 1;
        let list = match parse_list(chars, pos, code) {
            Ok(l) => l,
            Err(e) => {
                return Err(e);
            },
        };
        skip_blanks_and_newlines(chars, pos);
        if *pos >= n || chars[*pos] != ')' {
            return Err(ParseError::UnclosedGroup(open));
        }
        *pos = *pos + 1;
        return Ok(
            Command::Compound(
                FullCompoundCommand {
                    command: CompoundCommand::Subshell(list),
                    redirs: Vec::new(),
                },
            ),
        );
    }
    if n - *pos > 1 && chars[*pos] == '{' && (is_blank(chars[*pos + 1]) || chars[*pos + 1]
        == '\n') {
        let open = *pos;
        *pos = *pos + 1;
        let list = match parse_list(chars, pos, code) {
            Ok(l) => l,
            Err(e) => {
                return Err(e);
            },
        };
        skip_blanks_and_newlines(chars, pos);
        if *pos >= n || chars[*pos] != '}' {
            return Err(ParseError::UnclosedGroup(open));
        }
        *pos = *pos + 1;
        return Ok(
            Command::Compound(
                FullCompoundCommand {
                    command: CompoundCommand::Grouping(list),
                    redirs: Vec::new(),
                },
            ),
        );
    }
    match parse_simple_command(chars, pos, code) {
        Ok(simple) => Ok(Command::Simple(simple)),
        Err(e) => Err(e),
    }
}

/// Reads a pipeline: an optional `!`, then commands separated by `|`.
fn parse_pipeline(chars: &Vec<char>, pos: &mut usize, code: &Code) -> (r: Result<
    Pipeline,
    ParseError,
>)
    requires
        *old(pos) <= chars@.len(),
    ensures
        *old(pos) <= *final (pos) <= chars@.len(),
        r is Ok ==> *old(pos) < *final (pos),
        *old(pos) == 0 && is_plain_word_source(chars@) ==> (r matches Ok(p) && plain_pipeline(
            p,
            chars@,
        ) && *final (pos) == chars@.len()),
    decreases chars@.len() - *pos, 2int,
{
    let n = chars.len();
    proof {
        if *old(pos) == 0 && is_plain_word_source(chars@) {
            assert(is_plain_char(chars@[0]));
            if chars@.len() > 1 {
                assert(is_plain_char(chars@[1]));
            }
        }
    }
    skip_blanks(chars, pos);
    let mut negation = false;
    proof {
        if *old(pos) == 0 && is_plain_word_source(chars@) && chars@[0] == '!' && n == 1 {
            assert(chars@ =~= seq!['!']);
        }
    }
    if *pos < n && chars[*pos] == '!' && (n - *pos <= 1 || is_blank(chars[*pos + 1])) {
        negation = true;
        *pos = *pos + 1;
    }
    let first = match parse_command(chars, pos, code) {
        Ok(c) => c,
        Err(e) => {
            return Err(e);
        },
    };
    let mut commands: Vec<Command> = Vec::new();
    commands.push(first);
    loop
        invariant
            *old(pos) < *pos <= n,
            n == chars@.len(),
            *old(pos) == 0 && is_plain_word_source(chars@) ==> (!negation && *pos == n
                && commands@.len() == 1 && plain_command(commands@[0], chars@)),
        decreases n - *pos,
    {
        skip_blanks(chars, pos);
        if *pos < n && chars[*pos] == '|' && !(n - *pos > 1 && chars[*pos + 1] == '|') {
            *pos = *pos + 1;
            skip_blanks_and_newlines(chars, pos);
            let next = match parse_command(chars, pos, code) {
                Ok(c) => c,
                Err(e) => {
                    return Err(e);
                },
            };
            commands.push(next);
        } else {
            break ;
        }
    }
    Ok(Pipeline { commands, negation })
}

/// Reads an and-or list: pipelines separated by `&&` and `||`.
fn parse_and_or(chars: &Vec<char>, pos: &mut usize, code: &Code) -> (r: Result<
    AndOrList,
    ParseError,
>)
    requires
        *old(pos) <= chars@.len(),
    ensures
        *old(pos) <= *final (pos) <= chars@.len(),
        r is Ok ==> *old(pos) < *final (pos),
        *old(pos) == 0 && is_plain_word_source(chars@) ==> (r matches Ok(a) && plain_and_or(
            a,
            chars@,
        ) && *final (pos) == chars@.len()),
    decreases chars@.len() - *pos, 3int,
{
    let n = chars.len();
    let first = match parse_pipeline(chars, pos, code) {
        Ok(p) => p,
        Err(e) => {
            return Err(e);
        },
    };
    let mut rest: Vec<(AndOr, Pipeline)> = Vec::new();
    loop
        invariant
            *old(pos) < *pos <= n,
            n == chars@.len(),
            *old(pos) == 0 && is_plain_word_source(chars@) ==> (*pos == n && rest@.len() == 0
                && plain_pipeline(first, chars@)),
        decreases n - *pos,
    {
        skip_blanks(chars, pos);
        let op = if n - *pos > 1 && chars[*pos] == '&' && chars[*pos + 1] == '&' {
            AndOr::AndThen
        } else if n - *pos > 1 && chars[*pos] == '|' && chars[*pos + 1] == '|' {
            AndOr::OrElse
        } else {
            break ;
        };
        *pos = *pos + 2;
        skip_blanks_and_newlines(chars, pos);
        let next = match parse_pipeline(chars, pos, code) {
            Ok(p) => p,
            Err(e) => {
                return Err(e);
            },
        };
        rest.push((op, next));
    }
    Ok(AndOrList { first, rest })
}

/// Reads a list: and-or lists separated or terminated by `;`, `&`, and
/// newlines. Reading stops before an unmatched `)` or `}`.
fn parse_list(chars: &Vec<char>, pos: &mut usize, code: &Code) -> (r: Result<List, ParseError>)
    requires
        *old(pos) <= chars@.len(),
    ensures
        *old(pos) <= *final (pos) <= chars@.len(),
        *old(pos) == 0 && is_plain_word_source(chars@) ==> (r matches Ok(l) && plain_list(
            l,
            chars@,
        ) && *final (pos) == chars@.len()),
        *old(pos) == chars@.len() ==> (r matches Ok(l) && l.0@.len() == 0 && *final (pos) == *old(
            pos,
        )),
    decreases chars@.len() - *pos, 4int,
{
    let n = chars.len();
    let mut items: Vec<Item> = Vec::new();
    loop
        invariant
            *old(pos) <= *pos <= n,
            n == chars@.len(),
            *old(pos) == 0 && is_plain_word_source(chars@) ==> ((*pos == 0 && items@.len() == 0)
                || (*pos == n && items@.len() == 1 && !items@[0].is_async && plain_and_or(
                items@[0].and_or,
                chars@,
            ))),
            *old(pos) == n ==> (*pos == n && items@.len() == 0),
        decreases n - *pos,
    {
        proof {
            if *old(pos) == 0 && is_plain_word_source(chars@) && *pos == 0 {
                assert(is_plain_char(chars@[0]));
            }
        }
        skip_blanks_and_newlines(chars, pos);
        if *pos >= n || chars[*pos] == ')' || chars[*pos] == '}' {
            proof {
                if *old(pos) == 0 && is_plain_word_source(chars@) && *pos == 0 {
                    assert(is_plain_char(chars@[0]));
                    assert(false);
                }
            }
            return Ok(List(items));
        }
        let and_or = match parse_and_or(chars, pos, code) {
            Ok(a) => a,
            Err(e) => {
                return Err(e);
            },
        };
        skip_blanks(chars, pos);
        let mut is_async = false;
        if *pos < n && chars[*pos] == ';' {
            *pos = *pos + 1;
        } else if *pos < n && chars[*pos] == '&' {
            is_async = true;
            *pos = *pos + 1;
        }
        items.push(Item { and_or, is_async });
    }
}

/// Parses source text into a list of commands.
///
/// The text must hold nothing but the list: trailing characters other than
/// blanks and newlines are the error. A source consisting of one plain word
/// parses to the single simple command holding that word, classified as an
/// assignment exactly when the word has the assignment form; an empty
/// source parses to the empty list.
pub fn parse(source: &str) -> (r: Result<List, ParseError>)
    ensures
        is_plain_word_source(source@) ==> (r matches Ok(l) && plain_list(l, source@)),
        source@.len() == 0 ==> (r matches Ok(l) && l.0@.len() == 0),
{
    let chars = source_chars(source);
    let code = Code {
        value: source.to_owned(),
        start_line_number: 1,
        source: Source::Unknown,
    };
    let mut pos: usize = 0;
    let list = match parse_list(&chars, &mut pos, &code) {
        Ok(l) => l,
        Err(e) => {
            return Err(e);
        },
    };
    if pos < chars.len() {
        return Err(ParseError::UnexpectedToken(pos));
    }
    Ok(list)
}

/// Parses source text that must hold exactly one word.
///
/// When every character of the text is plain, parsing succeeds and yields
/// one unquoted literal unit per character; with
/// [`lemma_plain_word_round_trip`], re-parsing the rendering of a word of
/// plain literal characters restores the word's units.
pub fn parse_single_word(source: &str) -> (r: Result<Word, ParseError>)
    ensures
        (forall|i: int| 0 <= i < source@.len() ==> is_plain_char(#[trigger] source@[i])) ==> (
        r matches Ok(w) && w.units@ == plain_units(source@)),
{
    let chars = source_chars(source);
    let code = Code {
        value: source.to_owned(),
        start_line_number: 1,
        source: Source::Unknown,
    };
    let mut pos: usize = 0;
    let word = match parse_word(&chars, &mut pos, &code) {
        Ok(w) => w,
        Err(e) => {
            return Err(e);
        },
    };
    if pos < chars.len() {
        return Err(ParseError::UnexpectedToken(pos));
    }
    proof {
        assert(source@.skip(0) =~= source@);
    }
    Ok(word)
}

} // verus!
