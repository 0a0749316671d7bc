//! Shell command language syntax.
//!
//! This module contains the types that represent abstract syntax trees of the
//! shell language, together with the specification functions that define what
//! each node means as text. Re-rendering a tree as text lives in
//! [`crate::unparse`].

use crate::source::Location;
use vstd::prelude::*;

verus! {

/// Token identifier for the operators the lexer recognizes.
#[derive(Clone, Copy, Debug, Eq, PartialEq, Structural)]
pub enum Operator {
    /// `<`
    Less,
    /// `<>`
    LessGreater,
    /// `>`
    Greater,
    /// `>>`
    GreaterGreater,
    /// `>|`
    GreaterBar,
    /// `<&`
    LessAnd,
    /// `>&`
    GreaterAnd,
    /// `>>|`
    GreaterGreaterBar,
    /// `<<<`
    LessLessLess,
    /// `<<`
    LessLess,
    /// `<<-`
    LessLessDash,
    /// `&&`
    AndAnd,
    /// `||`
    BarBar,
    /// `|`
    Bar,
    /// `;`
    Semicolon,
    /// `&`
    And,
    /// `(`
    OpenParen,
    /// `)`
    CloseParen,
    /// Newline token
    Newline,
    /// End of input
    EndOfInput,
}

/// Possibly literal syntax element.
///
/// When an instance of an implementor is literal, it can be converted directly
/// to a string.
pub trait MaybeLiteral {
    /// The characters this element denotes if it is fully literal.
    spec fn literal_string(&self) -> Option<Seq<char>>;

    /// Checks if `self` is literal and, if so, converts to a string.
    fn to_string_if_literal(&self) -> (r: Option<String>)
        ensures
            match r {
                Some(s) => self.literal_string() == Some(s@),
                None => self.literal_string() is None,
            },
    ;
}

/// Element of a [`Word`] that can be double-quoted.
#[derive(Clone, Debug, Eq, PartialEq)]
pub enum DoubleQuotable {
    /// Literal single character.
    Literal(char),
    /// Backslash-escaped single character.
    Backslashed(char),
    /// Command substitution of the form `$(...)`.
    CommandSubst { content: String, location: Location },
}

pub use DoubleQuotable::{Backslashed, CommandSubst, Literal};

/// Sequence of [`DoubleQuotable`]s, as the content of an arithmetic expansion
/// or another context where quotation does not apply.
#[derive(Clone, Debug, Eq, PartialEq)]
pub struct Text(pub Vec<DoubleQuotable>);

/// The character a [`DoubleQuotable`] denotes when it is a literal.
pub open spec fn dq_literal_char(u: DoubleQuotable) -> Option<char> {
    match u {
        DoubleQuotable::Literal(c) => Some(c),
        _ => None,
    }
}

impl MaybeLiteral for DoubleQuotable {
    open spec fn literal_string(&self) -> Option<Seq<char>> {
        match dq_literal_char(*self) {
            Some(c) => Some(seq![c]),
            None => None,
        }
    }

    /// If `self` is `Literal`, returns the character converted to a string.
    /// Otherwise, returns `None`.
    fn to_string_if_literal(&self) -> (r: Option<String>) {
        if let DoubleQuotable::Literal(c) = self {
            let mut s = String::new();
            push_char(&mut s, *c);
            proof {
                assert(s@ =~= seq![*c]);
            }
            Some(s)
        } else {
            None
        }
    }
}

/// Element of a [`Word`].
#[derive(Clone, Debug, Eq, PartialEq)]
pub enum WordUnit {
    /// Unquoted [`DoubleQuotable`] as a word unit.
    Unquoted(DoubleQuotable),
    /// Any number of [`DoubleQuotable`]s surrounded with a pair of double
    /// quotations.
    DoubleQuote(Vec<DoubleQuotable>),
}

pub use WordUnit::{DoubleQuote, Unquoted};

/// The character a [`WordUnit`] denotes when it is an unquoted literal.
pub open spec fn unit_literal_char(u: WordUnit) -> Option<char> {
    match u {
        WordUnit::Unquoted(dq) => dq_literal_char(dq),
        _ => None,
    }
}

impl MaybeLiteral for WordUnit {
    open spec fn literal_string(&self) -> Option<Seq<char>> {
        match unit_literal_char(*self) {
            Some(c) => Some(seq![c]),
            None => None,
        }
    }

    /// If `self` is `Unquoted(Literal(_))`, returns the character converted to
    /// a string. Otherwise, returns `None`.
    fn to_string_if_literal(&self) -> (r: Option<String>) {
        if let WordUnit::Unquoted(dq) = self {
            dq.to_string_if_literal()
        } else {
            None
        }
    }
}

/// The string a sequence of word units denotes when every unit is an unquoted
/// literal, or `None` when some unit is not.
pub open spec fn units_literal_string(units: Seq<WordUnit>) -> Option<Seq<char>>
    decreases units.len(),
{
    if units.len() == 0 {
        Some(Seq::empty())
    } else {
        match (units_literal_string(units.drop_last()), unit_literal_char(units.last())) {
            (Some(prefix), Some(c)) => Some(prefix.push(c)),
            _ => None,
        }
    }
}

/// Converts the word units to a string if all the word units are literal,
/// that is, `WordUnit::Unquoted(DoubleQuotable::Literal(_))`.
pub fn units_to_string_if_literal(units: &Vec<WordUnit>) -> (r: Option<String>)
    ensures
        match r {
            Some(s) => units_literal_string(units@) == Some(s@),
            None => units_literal_string(units@) is None,
        },
{
    let mut s = String::new();
    let mut i: usize = 0;
    while i < units.len()
        invariant
            i <= units.len(),
            units_literal_string(units@.take(i as int)) == Some(s@),
        decreases units.len() - i,
    {
        let c = match &units[i] {
            WordUnit::Unquoted(DoubleQuotable::Literal(c)) => *c,
            _ => {
                proof {
                    lemma_units_literal_string(units@);
                    assert(unit_literal_char(units@[i as int]) is None);
                }
                return None;
            },
        };
        push_char(&mut s, c);
        proof {
            assert(units@.take(i + 1 as int).drop_last() =~= units@.take(i as int));
            assert(units@.take(i + 1 as int).last() == units@[i as int]);
        }
        i = i + 1;
    }
    proof {
        assert(units@.take(units@.len() as int) =~= units@);
    }
    Some(s)
}

/// Every unit is an unquoted literal if and only if the sequence as a whole
/// denotes a string, and that string is the concatenation of the units'
/// characters in order.
pub proof fn lemma_units_literal_string(units: Seq<WordUnit>)
    ensures
        units_literal_string(units) is Some <==> (forall|i: int|
            0 <= i < units.len() ==> unit_literal_char(#[trigger] units[i]) is Some),
        units_literal_string(units) is Some ==> units_literal_string(units)->0 =~= Seq::new(
            units.len(),
            |i: int| unit_literal_char(units[i])->0,
        ),
    decreases units.len(),
{
    if units.len() > 0 {
        lemma_units_literal_string(units.drop_last());
        assert(forall|i: int|
            0 <= i < units.len() - 1 ==> #[trigger] units[i] == units.drop_last()[i]);
    }
}

/// Token that may involve expansion.
///
/// It depends on context whether an empty word is valid or not. It is the
/// caller's responsibility to ensure a word is non-empty in a context where it
/// cannot be empty.
#[derive(Clone, Debug, Eq, PartialEq)]
pub struct Word {
    /// Word units that constitute the word.
    pub units: Vec<WordUnit>,
    /// Location of the first character of the word.
    pub location: Location,
}

impl MaybeLiteral for Word {
    open spec fn literal_string(&self) -> Option<Seq<char>> {
        units_literal_string(self.units@)
    }

    /// Converts the word to a string if the word is fully literal, that is,
    /// all composed of `WordUnit::Unquoted(DoubleQuotable::Literal(_))`.
    fn to_string_if_literal(&self) -> (r: Option<String>) {
        units_to_string_if_literal(&self.units)
    }
}

/// Value of an [assignment](Assign).
#[derive(Clone, Debug, Eq, PartialEq)]
pub enum Value {
    /// Scalar value, a possibly empty word.
    ///
    /// Note: Because a scalar assignment value is created from a normal
    /// command word, the location of the word in the scalar value points to
    /// the first character of the entire assignment word rather than the
    /// assigned value.
    Scalar(Word),
    /// Array, possibly empty list of non-empty words.
    Array(Vec<Word>),
}

pub use Value::{Array, Scalar};

/// Assignment word.
#[derive(Clone, Debug, Eq, PartialEq)]
pub struct Assign {
    /// Name of the variable to assign to.
    ///
    /// In the valid assignment syntax, the name must not be empty.
    pub name: String,
    /// Value assigned to the variable.
    pub value: Value,
    /// Location of the first character of the assignment word.
    pub location: Location,
}

/// Whether a word unit is an unquoted literal `=`.
pub open spec fn is_unquoted_equal(u: WordUnit) -> bool {
    u == WordUnit::Unquoted(DoubleQuotable::Literal('='))
}

/// Index of the first unquoted literal `=` in the units, or the length of the
/// sequence when there is none.
pub open spec fn first_equal_index(units: Seq<WordUnit>) -> int
    decreases units.len(),
{
    if units.len() == 0 {
        0
    } else if is_unquoted_equal(units[0]) {
        0
    } else {
        1 + first_equal_index(units.drop_first())
    }
}

/// The first-`=` index is within bounds, points at a `=` when in bounds, and
/// nothing before it is a `=`.
pub proof fn lemma_first_equal_index(units: Seq<WordUnit>)
    ensures
        0 <= first_equal_index(units) <= units.len(),
        first_equal_index(units) < units.len() ==> is_unquoted_equal(
            units[first_equal_index(units)],
        ),
        forall|i: int| 0 <= i < first_equal_index(units) ==> !is_unquoted_equal(#[trigger] units[i]),
    decreases units.len(),
{
    if units.len() > 0 && !is_unquoted_equal(units[0]) {
        lemma_first_equal_index(units.drop_first());
        assert(forall|i: int|
            1 <= i < units.len() ==> #[trigger] units[i] == units.drop_first()[i - 1]);
    }
}

/// Whether a word is convertible to an assignment: its first unquoted `=` is
/// preceded by a non-empty, fully literal prefix.
pub open spec fn is_assign_word(units: Seq<WordUnit>) -> bool {
    let k = first_equal_index(units);
    k < units.len() && k > 0 && units_literal_string(units.take(k)) is Some
}

impl Assign {
    /// Converts a word into an assignment.
    ///
    /// For a successful conversion, the word must be of the form `name=value`,
    /// where `name` is a non-empty literal word, `=` is an unquoted equal
    /// sign, and `value` is a word. If the input word does not match this
    /// syntax, it is returned intact in `Err`.
    pub fn try_from(word: Word) -> (r: Result<Assign, Word>)
        ensures
            match r {
                Ok(a) => {
                    let k = first_equal_index(word.units@);
                    &&& is_assign_word(word.units@)
                    &&& Some(a.name@) == units_literal_string(word.units@.take(k))
                    &&& match a.value {
                        Value::Scalar(w) => w.units@ == word.units@.skip(k + 1) && w.location
                            == word.location,
                        Value::Array(_) => false,
                    }
                    &&& a.location == word.location
                },
                Err(w) => w == word && !is_assign_word(word.units@),
            },
    {
        proof {
            lemma_first_equal_index(word.units@);
        }
        let ghost k = first_equal_index(word.units@);
        let n = word.units.len();
        let mut eq: usize = 0;
        while eq < n && !unit_is_equal(&word.units[eq])
            invariant
                eq <= n,
                n == word.units.len(),
                k == first_equal_index(word.units@),
                eq <= k,
            decreases n - eq,
        {
            proof {
                lemma_first_equal_index_step(word.units@, eq as int);
            }
            eq = eq + 1;
        }
        proof {
            if eq < n {
                lemma_first_equal_index_step(word.units@, eq as int);
            }
            assert(eq == k);
        }
        if eq == 0 || eq >= n {
            return Err(word);
        }
        let mut name = String::new();
        let mut i: usize = 0;
        while i < eq
            invariant
                i <= eq,
                eq < word.units.len(),
                eq == first_equal_index(word.units@),
                units_literal_string(word.units@.take(i as int)) == Some(name@),
            decreases eq - i,
        {
            let c = match &word.units[i] {
                WordUnit::Unquoted(DoubleQuotable::Literal(c)) => *c,
                _ => {
                    proof {
                        lemma_units_literal_string(word.units@.take(eq as int));
                        assert(unit_literal_char(word.units@.take(eq as int)[i as int]) is None);
                    }
                    return Err(word);
                },
            };
            push_char(&mut name, c);
            proof {
                assert(word.units@.take(i + 1 as int).drop_last() =~= word.units@.take(i as int));
            }
            i = i + 1;
        }
        let ghost original_units = word.units@;
        let mut word = word;
        let tail = word.units.split_off(eq + 1);
        proof {
            assert(original_units.subrange(eq + 1 as int, original_units.len() as int)
                =~= original_units.skip(eq + 1));
        }
        let location = word.location.clone();
        let value_word = Word { units: tail, location };
        Ok(Assign { name, value: Value::Scalar(value_word), location: word.location })
    }
}

/// Whether a word unit is an unquoted literal `=` character.
fn unit_is_equal(u: &WordUnit) -> (r: bool)
    ensures
        r == is_unquoted_equal(*u),
{
    match u {
        WordUnit::Unquoted(DoubleQuotable::Literal(c)) => *c == '=',
        _ => false,
    }
}

/// Unfolding step for [`first_equal_index`]: if nothing up to `i` is a `=`,
/// the first-`=` index is decided by position `i`.
proof fn lemma_first_equal_index_step(units: Seq<WordUnit>, i: int)
    requires
        0 <= i < units.len(),
        first_equal_index(units) >= i,
    ensures
        is_unquoted_equal(units[i]) ==> first_equal_index(units) == i,
        !is_unquoted_equal(units[i]) ==> first_equal_index(units) >= i + 1,
    decreases units.len(),
{
    lemma_first_equal_index(units);
    if i > 0 && units.len() > 0 && !is_unquoted_equal(units[0]) {
        lemma_first_equal_index_step(units.drop_first(), i - 1);
    }
}

/// Redirection operators.
///
/// This enum defines the redirection operator types except here-document and
/// process redirection.
#[derive(Clone, Copy, Debug, Eq, PartialEq, Structural)]
pub enum RedirOp {
    /// `<` (open a file for input)
    FileIn,
    /// `<>` (open a file for input and output)
    FileInOut,
    /// `>` (open a file for output; truncate or fail if existing)
    FileOut,
    /// `>>` (open a file for output; append if existing)
    FileAppend,
    /// `>|` (open a file for output; always truncate if existing)
    FileClobber,
    /// `<&` (copy or close a file descriptor for input)
    FdIn,
    /// `>&` (copy or close a file descriptor for output)
    FdOut,
    /// `>>|` (open a pipe, one end for input and the other output)
    Pipe,
    /// `<<<` (here-string)
    String,
}

/// The operator token of each redirection operator.
pub open spec fn redir_op_operator(op: RedirOp) -> Operator {
    match op {
        RedirOp::FileIn => Operator::Less,
        RedirOp::FileInOut => Operator::LessGreater,
        RedirOp::FileOut => Operator::Greater,
        RedirOp::FileAppend => Operator::GreaterGreater,
        RedirOp::FileClobber => Operator::GreaterBar,
        RedirOp::FdIn => Operator::LessAnd,
        RedirOp::FdOut => Operator::GreaterAnd,
        RedirOp::Pipe => Operator::GreaterGreaterBar,
        RedirOp::String => Operator::LessLessLess,
    }
}

/// The redirection operator denoted by an operator token, if any.
pub open spec fn operator_redir_op(op: Operator) -> Option<RedirOp> {
    match op {
        Operator::Less => Some(RedirOp::FileIn),
        Operator::LessGreater => Some(RedirOp::FileInOut),
        Operator::Greater => Some(RedirOp::FileOut),
        Operator::GreaterGreater => Some(RedirOp::FileAppend),
        Operator::GreaterBar => Some(RedirOp::FileClobber),
        Operator::LessAnd => Some(RedirOp::FdIn),
        Operator::GreaterAnd => Some(RedirOp::FdOut),
        Operator::GreaterGreaterBar => Some(RedirOp::Pipe),
        Operator::LessLessLess => Some(RedirOp::String),
        _ => None,
    }
}

impl RedirOp {
    /// Converts an operator token to a redirection operator; a token that is
    /// no redirection operator is the error.
    pub fn try_from(op: Operator) -> (r: Result<RedirOp, ()>)
        ensures
            match r {
                Ok(ro) => operator_redir_op(op) == Some(ro),
                Err(()) => operator_redir_op(op) is None,
            },
    {
        match op {
            Operator::Less => Ok(RedirOp::FileIn),
            Operator::LessGreater => Ok(RedirOp::FileInOut),
            Operator::Greater => Ok(RedirOp::FileOut),
            Operator::GreaterGreater => Ok(RedirOp::FileAppend),
            Operator::GreaterBar => Ok(RedirOp::FileClobber),
            Operator::LessAnd => Ok(RedirOp::FdIn),
            Operator::GreaterAnd => Ok(RedirOp::FdOut),
            Operator::GreaterGreaterBar => Ok(RedirOp::Pipe),
            Operator::LessLessLess => Ok(RedirOp::String),
            _ => Err(()),
        }
    }

    /// Converts a redirection operator to its operator token.
    pub fn to_operator(self) -> (r: Operator)
        ensures
            r == redir_op_operator(self),
    {
        match self {
            RedirOp::FileIn => Operator::Less,
            RedirOp::FileInOut => Operator::LessGreater,
            RedirOp::FileOut => Operator::Greater,
            RedirOp::FileAppend => Operator::GreaterGreater,
            RedirOp::FileClobber => Operator::GreaterBar,
            RedirOp::FdIn => Operator::LessAnd,
            RedirOp::FdOut => Operator::GreaterAnd,
            RedirOp::Pipe => Operator::GreaterGreaterBar,
            RedirOp::String => Operator::LessLessLess,
        }
    }
}

/// The two conversions between redirection operators and operator tokens
/// invert each other.
pub proof fn lemma_redir_op_conversions_bijective()
    ensures
        forall|ro: RedirOp| operator_redir_op(#[trigger] redir_op_operator(ro)) == Some(ro),
        forall|op: Operator|
            (#[trigger] operator_redir_op(op)) is Some ==> redir_op_operator(
                operator_redir_op(op)->0,
            ) == op,
{
}

/// Here-document.
#[derive(Clone, Debug, Eq, PartialEq)]
pub struct HereDoc {
    /// Token that marks the end of the content of the here-document.
    pub delimiter: Word,
    /// Whether leading tab characters should be removed from each line of the
    /// here-document content. This value is `true` for the `<<-` operator and
    /// `false` for `<<`.
    pub remove_tabs: bool,
    /// Content of the here-document.
    ///
    /// The content ends with a newline unless it is empty. If the delimiter is
    /// quoted, the content must not contain any expansion.
    pub content: Word,
}

/// Part of a redirection that defines the nature of the resulting file
/// descriptor.
#[derive(Clone, Debug, Eq, PartialEq)]
pub enum RedirBody {
    /// Normal redirection.
    Normal { operator: RedirOp, operand: Word },
    /// Here-document.
    HereDoc(HereDoc),
}

impl RedirBody {
    /// Wraps a here-document in a redirection body.
    pub fn from(h: HereDoc) -> (r: RedirBody)
        ensures
            r == RedirBody::HereDoc(h),
    {
        RedirBody::HereDoc(h)
    }
}

/// File descriptor number, as used by redirections.
pub type RawFd = i32;

/// File descriptor the shell reads from by default.
pub const STDIN_FD: RawFd = 0;

/// File descriptor the shell writes to by default.
pub const STDOUT_FD: RawFd = 1;

/// Redirection.
#[derive(Clone, Debug, Eq, PartialEq)]
pub struct Redir {
    /// File descriptor that is modified by this redirection.
    pub fd: Option<RawFd>,
    /// Nature of the resulting file descriptor.
    pub body: RedirBody,
}

/// Default file descriptor of a redirection body: standard input for
/// input-class operators and here-documents, standard output for output-class
/// operators.
pub open spec fn default_fd(body: RedirBody) -> RawFd {
    match body {
        RedirBody::Normal { operator, .. } => match operator {
            RedirOp::FileIn | RedirOp::FileInOut | RedirOp::FdIn | RedirOp::String => STDIN_FD,
            _ => STDOUT_FD,
        },
        RedirBody::HereDoc(_) => STDIN_FD,
    }
}

impl Redir {
    /// Computes the file descriptor that is modified by this redirection.
    ///
    /// If `self.fd` is `Some(_)`, the `RawFd` value is returned intact.
    /// Otherwise, the default file descriptor is selected depending on the
    /// type of `self.body`.
    pub fn fd_or_default(&self) -> (r: RawFd)
        ensures
            r == match self.fd {
                Some(fd) => fd,
                None => default_fd(self.body),
            },
    {
        match self.fd {
            Some(fd) => fd,
            None => match &self.body {
                RedirBody::Normal { operator, .. } => match operator {
                    RedirOp::FileIn | RedirOp::FileInOut | RedirOp::FdIn | RedirOp::String => {
                        STDIN_FD
                    },
                    _ => STDOUT_FD,
                },
                RedirBody::HereDoc(_) => STDIN_FD,
            },
        }
    }
}

/// Command that involves assignments, redirections, and word expansions.
///
/// In the shell language syntax, a valid simple command must contain at least
/// one of assignments, redirections, and words. The parser must not produce a
/// completely empty simple command.
#[derive(Clone, Debug, Eq, PartialEq)]
pub struct SimpleCommand {
    /// Assignments of the command.
    pub assigns: Vec<Assign>,
    /// Command name and arguments.
    pub words: Vec<Word>,
    /// Redirections of the command.
    pub redirs: Vec<Redir>,
}

impl SimpleCommand {
    /// Returns true if the simple command does not contain any assignments,
    /// words, or redirections.
    pub fn is_empty(&self) -> (r: bool)
        ensures
            r == (self.assigns@.len() == 0 && self.words@.len() == 0 && self.redirs@.len() == 0),
    {
        self.assigns.len() == 0 && self.words.len() == 0 && self.redirs.len() == 0
    }

    /// Returns true if the simple command contains only one word.
    pub fn is_one_word(&self) -> (r: bool)
        ensures
            r == (self.assigns@.len() == 0 && self.words@.len() == 1 && self.redirs@.len() == 0),
    {
        self.assigns.len() == 0 && self.words.len() == 1 && self.redirs.len() == 0
    }
}

/// Command that contains other commands.
#[derive(Debug)]
pub enum CompoundCommand {
    /// List as a command, `{ ... }`.
    Grouping(List),
    /// Command for executing commands in a subshell, `(...)`.
    Subshell(List),
}

/// Compound command with redirections.
#[derive(Debug)]
pub struct FullCompoundCommand {
    /// The main part.
    pub command: CompoundCommand,
    /// Redirections.
    pub redirs: Vec<Redir>,
}

/// Function definition command.
#[derive(Debug)]
pub struct FunctionDefinition {
    /// Whether the function definition command starts with the `function`
    /// reserved word.
    pub has_keyword: bool,
    /// Function name.
    pub name: Word,
    /// Function body.
    pub body: FullCompoundCommand,
}

/// Element of a pipe sequence.
#[derive(Debug)]
pub enum Command {
    /// Simple command.
    Simple(SimpleCommand),
    /// Compound command.
    Compound(FullCompoundCommand),
    /// Function definition command.
    Function(FunctionDefinition),
}

/// Commands separated by `|`.
#[derive(Debug)]
pub struct Pipeline {
    /// Elements of the pipeline.
    ///
    /// A valid pipeline must have at least one command.
    pub commands: Vec<Command>,
    /// True if the pipeline begins with a `!`.
    pub negation: bool,
}

/// Condition that decides if a [`Pipeline`] in an [and-or list](AndOrList)
/// should be executed.
#[derive(Clone, Copy, Debug, Eq, PartialEq, Structural)]
pub enum AndOr {
    /// `&&`
    AndThen,
    /// `||`
    OrElse,
}

/// The operator token of each and-or operator.
pub open spec fn and_or_operator(op: AndOr) -> Operator {
    match op {
        AndOr::AndThen => Operator::AndAnd,
        AndOr::OrElse => Operator::BarBar,
    }
}

/// The and-or operator denoted by an operator token, if any.
pub open spec fn operator_and_or(op: Operator) -> Option<AndOr> {
    match op {
        Operator::AndAnd => Some(AndOr::AndThen),
        Operator::BarBar => Some(AndOr::OrElse),
        _ => None,
    }
}

impl AndOr {
    /// Converts an operator token to an and-or operator; a token that is
    /// neither `&&` nor `||` is the error.
    pub fn try_from(op: Operator) -> (r: Result<AndOr, ()>)
        ensures
            match r {
                Ok(ao) => operator_and_or(op) == Some(ao),
                Err(()) => operator_and_or(op) is None,
            },
    {
        match op {
            Operator::AndAnd => Ok(AndOr::AndThen),
            Operator::BarBar => Ok(AndOr::OrElse),
            _ => Err(()),
        }
    }

    /// Converts an and-or operator to its operator token.
    pub fn to_operator(self) -> (r: Operator)
        ensures
            r == and_or_operator(self),
    {
        match self {
            AndOr::AndThen => Operator::AndAnd,
            AndOr::OrElse => Operator::BarBar,
        }
    }
}

/// The two conversions between and-or operators and operator tokens invert
/// each other.
pub proof fn lemma_and_or_conversions_bijective()
    ensures
        forall|ao: AndOr| operator_and_or(#[trigger] and_or_operator(ao)) == Some(ao),
        forall|op: Operator|
            (#[trigger] operator_and_or(op)) is Some ==> and_or_operator(operator_and_or(op)->0)
                == op,
{
}

/// Pipelines separated by `&&` and `||`.
#[derive(Debug)]
pub struct AndOrList {
    /// First pipeline of the list.
    pub first: Pipeline,
    /// Remaining pipelines, each with the operator that connects it.
    pub rest: Vec<(AndOr, Pipeline)>,
}

/// Element of a [`List`].
#[derive(Debug)]
pub struct Item {
    /// Main part of this item.
    pub and_or: AndOrList,
    /// True if this item is terminated by `&`.
    pub is_async: bool,
}

/// Sequence of [and-or lists](AndOrList) separated by `;` or `&`.
///
/// It depends on context whether an empty list is a valid syntax.
#[derive(Debug)]
pub struct List(pub Vec<Item>);

/// Appends one character to a string.
///
/// Relies on `String::push`: appends the character to the end of the string.
#[verifier::external_body]
pub(crate) fn push_char(s: &mut String, c: char)
    ensures
        final (s)@ == old(s)@.push(c),
{
    s.push(c);
}

} // verus!
