//! Rendering syntax trees back into shell source text.
//!
//! Each node type gets an `unparse` method returning the canonical text of the
//! node, together with a specification function that defines that text
//! character by character. [`Item`] and [`List`] additionally have an
//! alternate form that always terminates every item with `;` or `&`; the
//! default form omits the final `;`.

use crate::syntax::{
    and_or_operator, push_char, AndOr, AndOrList, Assign, Command, CompoundCommand, DoubleQuotable,
    FullCompoundCommand, FunctionDefinition, HereDoc, Item, List, Operator, Pipeline, Redir,
    RedirBody, RedirOp, SimpleCommand, Value, Word, WordUnit, redir_op_operator,
};
use crate::numeral::{dec_int, push_dec_i64};
use vstd::prelude::*;

verus! {

broadcast use vstd::std_specs::vec::axiom_vec_index_decreases;

/// The text of an operator token.
pub open spec fn operator_str(op: Operator) -> Seq<char> {
    match op {
        Operator::Less => seq!['<'],
        Operator::LessGreater => seq!['<', '>'],
        Operator::Greater => seq!['>'],
        Operator::GreaterGreater => seq!['>', '>'],
        Operator::GreaterBar => seq!['>', '|'],
        Operator::LessAnd => seq!['<', '&'],
        Operator::GreaterAnd => seq!['>', '&'],
        Operator::GreaterGreaterBar => seq!['>', '>', '|'],
        Operator::LessLessLess => seq!['<', '<', '<'],
        Operator::LessLess => seq!['<', '<'],
        Operator::LessLessDash => seq!['<', '<', '-'],
        Operator::AndAnd => seq!['&', '&'],
        Operator::BarBar => seq!['|', '|'],
        Operator::Bar => seq!['|'],
        Operator::Semicolon => seq![';'],
        Operator::And => seq!['&'],
        Operator::OpenParen => seq!['('],
        Operator::CloseParen => seq![')'],
        Operator::Newline => seq!['\n'],
        Operator::EndOfInput => Seq::empty(),
    }
}

/// The text of a double-quotable unit.
pub open spec fn dq_str(u: DoubleQuotable) -> Seq<char> {
    match u {
        DoubleQuotable::Literal(c) => seq![c],
        DoubleQuotable::Backslashed(c) => seq!['\\', c],
        DoubleQuotable::CommandSubst { content, .. } => seq!['$', '('] + content@ + seq![')'],
    }
}

/// The concatenated text of a sequence of double-quotable units.
pub open spec fn dqs_str(units: Seq<DoubleQuotable>) -> Seq<char>
    decreases units,
{
    if units.len() == 0 {
        Seq::empty()
    } else {
        dqs_str(units.drop_last()) + dq_str(units.last())
    }
}

/// The text of a word unit.
pub open spec fn unit_str(u: WordUnit) -> Seq<char> {
    match u {
        WordUnit::Unquoted(dq) => dq_str(dq),
        WordUnit::DoubleQuote(dqs) => seq!['"'] + dqs_str(dqs@) + seq!['"'],
    }
}

/// The concatenated text of a sequence of word units.
pub open spec fn units_str(units: Seq<WordUnit>) -> Seq<char>
    decreases units,
{
    if units.len() == 0 {
        Seq::empty()
    } else {
        units_str(units.drop_last()) + unit_str(units.last())
    }
}

/// The text of a word: its units in order.
pub open spec fn word_str(w: Word) -> Seq<char> {
    units_str(w.units@)
}

/// Pieces joined with a separator between each two.
pub open spec fn join_pieces(pieces: Seq<Seq<char>>, sep: Seq<char>) -> Seq<char>
    decreases pieces,
{
    if pieces.len() == 0 {
        Seq::empty()
    } else if pieces.len() == 1 {
        pieces[0]
    } else {
        join_pieces(pieces.drop_last(), sep) + sep + pieces.last()
    }
}

/// The character views of a sequence of strings.
pub open spec fn views_of(strings: Seq<String>) -> Seq<Seq<char>> {
    Seq::new(strings.len(), |i: int| strings[i]@)
}

/// The texts of a sequence of words.
pub open spec fn word_pieces(words: Seq<Word>) -> Seq<Seq<char>>
    decreases words,
{
    if words.len() == 0 {
        Seq::empty()
    } else {
        word_pieces(words.drop_last()).push(word_str(words.last()))
    }
}

/// The text of an assignment value: the word for a scalar, the words joined
/// by spaces inside parentheses for an array.
pub open spec fn value_str(v: Value) -> Seq<char> {
    match v {
        Value::Scalar(w) => word_str(w),
        Value::Array(words) => seq!['('] + join_pieces(word_pieces(words@), seq![' ']) + seq![')'],
    }
}

/// The text of an assignment: name, `=`, value.
pub open spec fn assign_str(a: Assign) -> Seq<char> {
    a.name@ + seq!['='] + value_str(a.value)
}

/// The text of a redirection operator.
pub open spec fn redir_op_str(op: RedirOp) -> Seq<char> {
    operator_str(redir_op_operator(op))
}

/// Whether the rendering of a here-document operator needs a disambiguating
/// space: the delimiter starts with an unquoted literal `-`.
pub open spec fn heredoc_needs_space(h: HereDoc) -> bool {
    h.delimiter.units@.len() > 0 && h.delimiter.units@[0] == WordUnit::Unquoted(
        DoubleQuotable::Literal('-'),
    )
}

/// The text of a here-document operator: `<<` or `<<-`, a space when the
/// delimiter starts with a literal `-` (so that `<< -` is never confused with
/// `<<-`), and the delimiter.
pub open spec fn heredoc_str(h: HereDoc) -> Seq<char> {
    (if h.remove_tabs {
        seq!['<', '<', '-']
    } else {
        seq!['<', '<']
    }) + (if heredoc_needs_space(h) {
        seq![' ']
    } else {
        Seq::empty()
    }) + word_str(h.delimiter)
}

/// The text of a redirection body.
pub open spec fn redir_body_str(b: RedirBody) -> Seq<char> {
    match b {
        RedirBody::Normal { operator, operand } => redir_op_str(operator) + word_str(operand),
        RedirBody::HereDoc(h) => heredoc_str(h),
    }
}

/// The text of a redirection: the explicit file descriptor, if any, followed
/// by the body.
pub open spec fn redir_str(r: Redir) -> Seq<char> {
    (match r.fd {
        Some(fd) => dec_int(fd as int),
        None => Seq::empty(),
    }) + redir_body_str(r.body)
}

/// The texts of a sequence of assignments.
pub open spec fn assign_pieces(assigns: Seq<Assign>) -> Seq<Seq<char>>
    decreases assigns,
{
    if assigns.len() == 0 {
        Seq::empty()
    } else {
        assign_pieces(assigns.drop_last()).push(assign_str(assigns.last()))
    }
}

/// The texts of a sequence of redirections.
pub open spec fn redir_pieces(redirs: Seq<Redir>) -> Seq<Seq<char>>
    decreases redirs,
{
    if redirs.len() == 0 {
        Seq::empty()
    } else {
        redir_pieces(redirs.drop_last()).push(redir_str(redirs.last()))
    }
}

/// The text of a simple command: assignments, words, and redirections, in
/// that order, joined by single spaces.
pub open spec fn simple_command_str(c: SimpleCommand) -> Seq<char> {
    join_pieces(
        assign_pieces(c.assigns@) + word_pieces(c.words@) + redir_pieces(c.redirs@),
        seq![' '],
    )
}

/// The text of a compound command: `{ ... }` around the alternate form of the
/// list, or `(...)` around the default form.
pub open spec fn compound_str(c: CompoundCommand) -> Seq<char>
    decreases c,
{
    match c {
        CompoundCommand::Grouping(list) => seq!['{', ' '] + list_str(list, true) + seq![' ', '}'],
        CompoundCommand::Subshell(list) => seq!['('] + list_str(list, false) + seq![')'],
    }
}

/// The trailing redirections of a compound command, each preceded by a space.
pub open spec fn trailing_redirs_str(redirs: Seq<Redir>) -> Seq<char>
    decreases redirs,
{
    if redirs.len() == 0 {
        Seq::empty()
    } else {
        trailing_redirs_str(redirs.drop_last()) + seq![' '] + redir_str(redirs.last())
    }
}

/// The text of a compound command with its redirections.
pub open spec fn full_compound_str(c: FullCompoundCommand) -> Seq<char>
    decreases c,
{
    compound_str(c.command) + trailing_redirs_str(c.redirs@)
}

/// The text of a function definition.
pub open spec fn function_str(f: FunctionDefinition) -> Seq<char>
    decreases f,
{
    (if f.has_keyword {
        seq!['f', 'u', 'n', 'c', 't', 'i', 'o', 'n', ' ']
    } else {
        Seq::empty()
    }) + word_str(f.name) + seq!['(', ')', ' '] + full_compound_str(f.body)
}

/// The text of a command.
pub open spec fn command_str(c: Command) -> Seq<char>
    decreases c,
{
    match c {
        Command::Simple(s) => simple_command_str(s),
        Command::Compound(f) => full_compound_str(f),
        Command::Function(f) => function_str(f),
    }
}

/// The texts of the commands of a pipeline.
pub open spec fn command_pieces(cmds: Seq<Command>) -> Seq<Seq<char>>
    decreases cmds,
{
    if cmds.len() == 0 {
        Seq::empty()
    } else {
        command_pieces(cmds.drop_last()).push(command_str(cmds.last()))
    }
}

/// The text of a pipeline: `! ` when negated, then the commands joined with
/// ` | `.
pub open spec fn pipeline_str(p: Pipeline) -> Seq<char>
    decreases p,
{
    (if p.negation {
        seq!['!', ' ']
    } else {
        Seq::empty()
    }) + join_pieces(command_pieces(p.commands@), seq![' ', '|', ' '])
}

/// The text of an and-or operator.
pub open spec fn and_or_str(op: AndOr) -> Seq<char> {
    operator_str(and_or_operator(op))
}

/// The trailing pipelines of an and-or list, each preceded by its operator,
/// with spaces around the operator.
pub open spec fn and_or_rest_str(rest: Seq<(AndOr, Pipeline)>) -> Seq<char>
    decreases rest,
{
    if rest.len() == 0 {
        Seq::empty()
    } else {
        and_or_rest_str(rest.drop_last()) + seq![' '] + and_or_str(rest.last().0) + seq![' ']
            + pipeline_str(rest.last().1)
    }
}

/// The text of an and-or list.
pub open spec fn and_or_list_str(l: AndOrList) -> Seq<char>
    decreases l,
{
    pipeline_str(l.first) + and_or_rest_str(l.rest@)
}

/// The text of an item: its and-or list, then `&` when asynchronous, or `;`
/// in the alternate form.
pub open spec fn item_str(i: Item, alternate: bool) -> Seq<char>
    decreases i,
{
    and_or_list_str(i.and_or) + (if i.is_async {
        seq!['&']
    } else if alternate {
        seq![';']
    } else {
        Seq::empty()
    })
}

/// The leading items of a list, each in the alternate form and followed by a
/// space.
pub open spec fn list_prefix_str(items: Seq<Item>) -> Seq<char>
    decreases items,
{
    if items.len() == 0 {
        Seq::empty()
    } else {
        list_prefix_str(items.drop_last()) + item_str(items.last(), true) + seq![' ']
    }
}

/// The text of a list: every item but the last in the alternate form followed
/// by a space, then the last item in the requested form.
pub open spec fn list_str(l: List, alternate: bool) -> Seq<char>
    decreases l,
{
    if l.0@.len() == 0 {
        Seq::empty()
    } else {
        list_prefix_str(l.0@.drop_last()) + item_str(l.0@.last(), alternate)
    }
}

/// Joins strings with a separator between each two.
///
/// Relies on `itertools::join`: concatenates the items with the separator
/// inserted between each pair of consecutive items.
#[verifier::external_body]
pub(crate) fn join_strings(strings: &Vec<String>, sep: &str) -> (r: String)
    ensures
        r@ == join_pieces(views_of(strings@), sep@),
{
    itertools::join(strings.iter(), sep)
}

impl Operator {
    /// The text of this operator token.
    pub fn unparse(self) -> (r: String)
        ensures
            r@ == operator_str(self),
    {
        let mut s = String::new();
        push_operator(&mut s, self);
        proof {
            assert(Seq::<char>::empty() + operator_str(self) =~= operator_str(self));
        }
        s
    }
}

fn push_operator(s: &mut String, op: Operator)
    ensures
        final (s)@ == old(s)@ + operator_str(op),
{
    match op {
        Operator::Less => push_char(s, '<'),
        Operator::LessGreater => {
            push_char(s, '<');
            push_char(s, '>');
        },
        Operator::Greater => push_char(s, '>'),
        Operator::GreaterGreater => {
            push_char(s, '>');
            push_char(s, '>');
        },
        Operator::GreaterBar => {
            push_char(s, '>');
            push_char(s, '|');
        },
        Operator::LessAnd => {
            push_char(s, '<');
            push_char(s, '&');
        },
        Operator::GreaterAnd => {
            push_char(s, '>');
            push_char(s, '&');
        },
        Operator::GreaterGreaterBar => {
            push_char(s, '>');
            push_char(s, '>');
            push_char(s, '|');
        },
        Operator::LessLessLess => {
            push_char(s, '<');
            push_char(s, '<');
            push_char(s, '<');
        },
        Operator::LessLess => {
            push_char(s, '<');
            push_char(s, '<');
        },
        Operator::LessLessDash => {
            push_char(s, '<');
            push_char(s, '<');
            push_char(s, '-');
        },
        Operator::AndAnd => {
            push_char(s, '&');
            push_char(s, '&');
        },
        Operator::BarBar => {
            push_char(s, '|');
            push_char(s, '|');
        },
        Operator::Bar => push_char(s, '|'),
        Operator::Semicolon => push_char(s, ';'),
        Operator::And => push_char(s, '&'),
        Operator::OpenParen => push_char(s, '('),
        Operator::CloseParen => push_char(s, ')'),
        Operator::Newline => push_char(s, '\n'),
        Operator::EndOfInput => {},
    }
    proof {
        assert(final (s)@ =~= old(s)@ + operator_str(op));
    }
}

fn push_dq(s: &mut String, u: &DoubleQuotable)
    ensures
        final (s)@ == old(s)@ + dq_str(*u),
{
    match u {
        DoubleQuotable::Literal(c) => push_char(s, *c),
        DoubleQuotable::Backslashed(c) => {
            push_char(s, '\\');
            push_char(s, *c);
        },
        DoubleQuotable::CommandSubst { content, .. } => {
            push_char(s, '$');
            push_char(s, '(');
            s.append(content.as_str());
            push_char(s, ')');
        },
    }
    proof {
        assert(final (s)@ =~= old(s)@ + dq_str(*u));
    }
}

fn push_dqs(s: &mut String, units: &Vec<DoubleQuotable>)
    ensures
        final (s)@ == old(s)@ + dqs_str(units@),
{
    let mut i: usize = 0;
    while i < units.len()
        invariant
            i <= units.len(),
            s@ == old(s)@ + dqs_str(units@.take(i as int)),
        decreases units.len() - i,
    {
        push_dq(s, &units[i]);
        proof {
            assert(units@.take(i + 1 as int).drop_last() =~= units@.take(i as int));
            assert(s@ =~= old(s)@ + dqs_str(units@.take(i + 1 as int)));
        }
        i = i + 1;
    }
    proof {
        assert(units@.take(units@.len() as int) =~= units@);
    }
}

fn push_unit(s: &mut String, u: &WordUnit)
    ensures
        final (s)@ == old(s)@ + unit_str(*u),
{
    match u {
        WordUnit::Unquoted(dq) => push_dq(s, dq),
        WordUnit::DoubleQuote(dqs) => {
            push_char(s, '"');
            push_dqs(s, dqs);
            push_char(s, '"');
        },
    }
    proof {
        assert(final (s)@ =~= old(s)@ + unit_str(*u));
    }
}

fn push_word(s: &mut String, w: &Word)
    ensures
        final (s)@ == old(s)@ + word_str(*w),
{
    let mut i: usize = 0;
    while i < w.units.len()
        invariant
            i <= w.units.len(),
            s@ == old(s)@ + units_str(w.units@.take(i as int)),
        decreases w.units.len() - i,
    {
        push_unit(s, &w.units[i]);
        proof {
            assert(w.units@.take(i + 1 as int).drop_last() =~= w.units@.take(i as int));
            assert(s@ =~= old(s)@ + units_str(w.units@.take(i + 1 as int)));
        }
        i = i + 1;
    }
    proof {
        assert(w.units@.take(w.units@.len() as int) =~= w.units@);
    }
}

impl DoubleQuotable {
    /// The text of this unit.
    pub fn unparse(&self) -> (r: String)
        ensures
            r@ == dq_str(*self),
    {
        let mut s = String::new();
        push_dq(&mut s, self);
        proof {
            assert(Seq::<char>::empty() + dq_str(*self) =~= dq_str(*self));
        }
        s
    }
}

impl WordUnit {
    /// The text of this word unit.
    pub fn unparse(&self) -> (r: String)
        ensures
            r@ == unit_str(*self),
    {
        let mut s = String::new();
        push_unit(&mut s, self);
        proof {
            assert(Seq::<char>::empty() + unit_str(*self) =~= unit_str(*self));
        }
        s
    }
}

impl Word {
    /// The text of this word.
    pub fn unparse(&self) -> (r: String)
        ensures
            r@ == word_str(*self),
    {
        let mut s = String::new();
        push_word(&mut s, self);
        proof {
            assert(Seq::<char>::empty() + word_str(*self) =~= word_str(*self));
        }
        s
    }
}

/// Collects the texts of words into a vector of strings.
fn word_strings(words: &Vec<Word>) -> (r: Vec<String>)
    ensures
        views_of(r@) =~= word_pieces(words@),
{
    let mut pieces: Vec<String> = Vec::new();
    let mut i: usize = 0;
    while i < words.len()
        invariant
            i <= words.len(),
            views_of(pieces@) =~= word_pieces(words@.take(i as int)),
        decreases words.len() - i,
    {
        pieces.push(words[i].unparse());
        proof {
            assert(words@.take(i + 1 as int).drop_last() =~= words@.take(i as int));
            assert(views_of(pieces@) =~= word_pieces(words@.take(i + 1 as int)));
        }
        i = i + 1;
    }
    proof {
        assert(words@.take(words@.len() as int) =~= words@);
    }
    pieces
}

impl Value {
    /// The text of this assignment value.
    pub fn unparse(&self) -> (r: String)
        ensures
            r@ == value_str(*self),
    {
        match self {
            Value::Scalar(w) => w.unparse(),
            Value::Array(words) => {
                let mut s = String::new();
                push_char(&mut s, '(');
                let pieces = word_strings(words);
                s.append(join_strings(&pieces, " ").as_str());
                push_char(&mut s, ')');
                proof {
                    reveal_strlit(" ");
                    assert(" "@ =~= seq![' ']);
                    assert(s@ =~= value_str(*self));
                }
                s
            },
        }
    }
}

impl Assign {
    /// The text of this assignment: name, `=`, value.
    pub fn unparse(&self) -> (r: String)
        ensures
            r@ == assign_str(*self),
    {
        let mut s = String::new();
        s.append(self.name.as_str());
        push_char(&mut s, '=');
        s.append(self.value.unparse().as_str());
        proof {
            assert(s@ =~= assign_str(*self));
        }
        s
    }
}

impl RedirOp {
    /// The text of this redirection operator.
    pub fn unparse(self) -> (r: String)
        ensures
            r@ == redir_op_str(self),
    {
        self.to_operator().unparse()
    }
}

impl HereDoc {
    /// The text of this here-document operator and delimiter. A space is
    /// inserted before a delimiter whose first unit is a literal `-`, so that
    /// `<< -` is never confused with `<<-`.
    pub fn unparse(&self) -> (r: String)
        ensures
            r@ == heredoc_str(*self),
    {
        let mut s = String::new();
        push_char(&mut s, '<');
        push_char(&mut s, '<');
        if self.remove_tabs {
            push_char(&mut s, '-');
        }
        let needs_space = match self.delimiter.units.get(0) {
            Some(WordUnit::Unquoted(DoubleQuotable::Literal(c))) => *c == '-',
            _ => false,
        };
        if needs_space {
            push_char(&mut s, ' ');
        }
        push_word(&mut s, &self.delimiter);
        proof {
            assert(s@ =~= heredoc_str(*self));
        }
        s
    }
}

impl RedirBody {
    /// The text of this redirection body.
    pub fn unparse(&self) -> (r: String)
        ensures
            r@ == redir_body_str(*self),
    {
        match self {
            RedirBody::Normal { operator, operand } => {
                let mut s = operator.unparse();
                push_word(&mut s, operand);
                s
            },
            RedirBody::HereDoc(h) => h.unparse(),
        }
    }
}

impl Redir {
    /// The text of this redirection: the explicit file descriptor, if any,
    /// followed by the body.
    pub fn unparse(&self) -> (r: String)
        ensures
            r@ == redir_str(*self),
    {
        let mut s = String::new();
        if let Some(fd) = self.fd {
            push_dec_i64(&mut s, fd as i64);
        }
        s.append(self.body.unparse().as_str());
        proof {
            assert(s@ =~= redir_str(*self));
        }
        s
    }
}

impl SimpleCommand {
    /// The text of this simple command: assignments, words, and redirections,
    /// joined by single spaces.
    pub fn unparse(&self) -> (r: String)
        ensures
            r@ == simple_command_str(*self),
    {
        let mut pieces: Vec<String> = Vec::new();
        let mut i: usize = 0;
        while i < self.assigns.len()
            invariant
                i <= self.assigns.len(),
                views_of(pieces@) =~= assign_pieces(self.assigns@.take(i as int)),
            decreases self.assigns.len() - i,
        {
            pieces.push(self.assigns[i].unparse());
            proof {
                assert(self.assigns@.take(i + 1 as int).drop_last() =~= self.assigns@.take(
                    i as int,
                ));
                assert(views_of(pieces@) =~= assign_pieces(self.assigns@.take(i + 1 as int)));
            }
            i = i + 1;
        }
        proof {
            assert(self.assigns@.take(self.assigns@.len() as int) =~= self.assigns@);
        }
        let mut j: usize = 0;
        while j < self.words.len()
            invariant
                j <= self.words.len(),
                views_of(pieces@) =~= assign_pieces(self.assigns@) + word_pieces(
                    self.words@.take(j as int),
                ),
            decreases self.words.len() - j,
        {
            let ghost prev = pieces@;
            pieces.push(self.words[j].unparse());
            proof {
                assert(self.words@.take(j + 1 as int).drop_last() =~= self.words@.take(j as int));
                assert(views_of(pieces@) =~= views_of(prev).push(pieces@.last()@));
                assert(views_of(pieces@) =~= assign_pieces(self.assigns@) + word_pieces(
                    self.words@.take(j + 1 as int),
                ));
            }
            j = j + 1;
        }
        proof {
            assert(self.words@.take(self.words@.len() as int) =~= self.words@);
        }
        let mut k: usize = 0;
        while k < self.redirs.len()
            invariant
                k <= self.redirs.len(),
                views_of(pieces@) =~= assign_pieces(self.assigns@) + word_pieces(self.words@)
                    + redir_pieces(self.redirs@.take(k as int)),
            decreases self.redirs.len() - k,
        {
            let ghost prev = pieces@;
            pieces.push(self.redirs[k].unparse());
            proof {
                assert(self.redirs@.take(k + 1 as int).drop_last() =~= self.redirs@.take(k as int));
                assert(views_of(pieces@) =~= views_of(prev).push(pieces@.last()@));
                assert(views_of(pieces@) =~= assign_pieces(self.assigns@) + word_pieces(self.words@)
                    + redir_pieces(self.redirs@.take(k + 1 as int)));
            }
            k = k + 1;
        }
        proof {
            assert(self.redirs@.take(self.redirs@.len() as int) =~= self.redirs@);
        }
        let r = join_strings(&pieces, " ");
        proof {
            reveal_strlit(" ");
            assert(" "@ =~= seq![' ']);
        }
        r
    }
}

impl CompoundCommand {
    /// The text of this compound command.
    pub fn unparse(&self) -> (r: String)
        ensures
            r@ == compound_str(*self),
    {
        let mut s = String::new();
        push_compound(&mut s, self);
        proof {
            assert(Seq::<char>::empty() + compound_str(*self) =~= compound_str(*self));
        }
        s
    }
}

impl FullCompoundCommand {
    /// The text of this compound command with its redirections.
    pub fn unparse(&self) -> (r: String)
        ensures
            r@ == full_compound_str(*self),
    {
        let mut s = String::new();
        push_full_compound(&mut s, self);
        proof {
            assert(Seq::<char>::empty() + full_compound_str(*self) =~= full_compound_str(*self));
        }
        s
    }
}

impl FunctionDefinition {
    /// The text of this function definition.
    pub fn unparse(&self) -> (r: String)
        ensures
            r@ == function_str(*self),
    {
        let mut s = String::new();
        push_function(&mut s, self);
        proof {
            assert(Seq::<char>::empty() + function_str(*self) =~= function_str(*self));
        }
        s
    }
}

impl Command {
    /// The text of this command.
    pub fn unparse(&self) -> (r: String)
        ensures
            r@ == command_str(*self),
    {
        let mut s = String::new();
        push_command(&mut s, self);
        proof {
            assert(Seq::<char>::empty() + command_str(*self) =~= command_str(*self));
        }
        s
    }
}

impl Pipeline {
    /// The text of this pipeline: `! ` when negated, then the commands joined
    /// with ` | `.
    pub fn unparse(&self) -> (r: String)
        ensures
            r@ == pipeline_str(*self),
    {
        let mut s = String::new();
        push_pipeline(&mut s, self);
        proof {
            assert(Seq::<char>::empty() + pipeline_str(*self) =~= pipeline_str(*self));
        }
        s
    }
}

impl AndOr {
    /// The text of this and-or operator.
    pub fn unparse(self) -> (r: String)
        ensures
            r@ == and_or_str(self),
    {
        self.to_operator().unparse()
    }
}

impl AndOrList {
    /// The text of this and-or list.
    pub fn unparse(&self) -> (r: String)
        ensures
            r@ == and_or_list_str(*self),
    {
        let mut s = String::new();
        push_and_or_list(&mut s, self);
        proof {
            assert(Seq::<char>::empty() + and_or_list_str(*self) =~= and_or_list_str(*self));
        }
        s
    }
}

impl Item {
    /// The text of this item in the default form: the `;` terminator is
    /// omitted.
    pub fn unparse(&self) -> (r: String)
        ensures
            r@ == item_str(*self, false),
    {
        let mut s = String::new();
        push_item(&mut s, self, false);
        proof {
            assert(Seq::<char>::empty() + item_str(*self, false) =~= item_str(*self, false));
        }
        s
    }

    /// The text of this item in the alternate form: always terminated by
    /// either `;` or `&`.
    pub fn unparse_alternate(&self) -> (r: String)
        ensures
            r@ == item_str(*self, true),
    {
        let mut s = String::new();
        push_item(&mut s, self, true);
        proof {
            assert(Seq::<char>::empty() + item_str(*self, true) =~= item_str(*self, true));
        }
        s
    }
}

impl List {
    /// The text of this list in the default form: the last `;` terminator is
    /// omitted.
    pub fn unparse(&self) -> (r: String)
        ensures
            r@ == list_str(*self, false),
    {
        let mut s = String::new();
        push_list(&mut s, self, false);
        proof {
            assert(Seq::<char>::empty() + list_str(*self, false) =~= list_str(*self, false));
        }
        s
    }

    /// The text of this list in the alternate form: always terminated by
    /// either `;` or `&`.
    pub fn unparse_alternate(&self) -> (r: String)
        ensures
            r@ == list_str(*self, true),
    {
        let mut s = String::new();
        push_list(&mut s, self, true);
        proof {
            assert(Seq::<char>::empty() + list_str(*self, true) =~= list_str(*self, true));
        }
        s
    }
}

#[verifier::rlimit(50)]
fn push_compound(s: &mut String, c: &CompoundCommand)
    ensures
        final (s)@ == old(s)@ + compound_str(*c),
    decreases *c,
{
    match c {
        CompoundCommand::Grouping(list) => {
            push_char(s, '{');
            push_char(s, ' ');
            push_list(s, list, true);
            push_char(s, ' ');
            push_char(s, '}');
            proof {
                assert(final (s)@ =~= old(s)@ + compound_str(*c));
            }
        },
        CompoundCommand::Subshell(list) => {
            push_char(s, '(');
            push_list(s, list, false);
            push_char(s, ')');
            proof {
                assert(final (s)@ =~= old(s)@ + compound_str(*c));
            }
        },
    }
}

fn push_full_compound(s: &mut String, c: &FullCompoundCommand)
    ensures
        final (s)@ == old(s)@ + full_compound_str(*c),
    decreases *c,
{
    push_compound(s, &c.command);
    let mut i: usize = 0;
    while i < c.redirs.len()
        invariant
            i <= c.redirs.len(),
            s@ == old(s)@ + compound_str(c.command) + trailing_redirs_str(c.redirs@.take(i as int)),
        decreases c.redirs.len() - i,
    {
        push_char(s, ' ');
        let piece = c.redirs[i].unparse();
        s.append(piece.as_str());
        proof {
            assert(c.redirs@.take(i + 1 as int).drop_last() =~= c.redirs@.take(i as int));
            assert(s@ =~= old(s)@ + compound_str(c.command) + trailing_redirs_str(
                c.redirs@.take(i + 1 as int),
            ));
        }
        i = i + 1;
    }
    proof {
        assert(c.redirs@.take(c.redirs@.len() as int) =~= c.redirs@);
        assert(final (s)@ =~= old(s)@ + full_compound_str(*c));
    }
}

fn push_function(s: &mut String, f: &FunctionDefinition)
    ensures
        final (s)@ == old(s)@ + function_str(*f),
    decreases *f,
{
    if f.has_keyword {
        push_char(s, 'f');
        push_char(s, 'u');
        push_char(s, 'n');
        push_char(s, 'c');
        push_char(s, 't');
        push_char(s, 'i');
        push_char(s, 'o');
        push_char(s, 'n');
        push_char(s, ' ');
    }
    push_word(s, &f.name);
    push_char(s, '(');
    push_char(s, ')');
    push_char(s, ' ');
    push_full_compound(s, &f.body);
    proof {
        assert(final (s)@ =~= old(s)@ + function_str(*f));
    }
}

fn push_command(s: &mut String, c: &Command)
    ensures
        final (s)@ == old(s)@ + command_str(*c),
    decreases *c,
{
    match c {
        Command::Simple(simple) => {
            let piece = simple.unparse();
            s.append(piece.as_str());
        },
        Command::Compound(full) => push_full_compound(s, full),
        Command::Function(f) => push_function(s, f),
    }
    proof {
        assert(final (s)@ =~= old(s)@ + command_str(*c));
    }
}

fn push_pipeline(s: &mut String, p: &Pipeline)
    ensures
        final (s)@ == old(s)@ + pipeline_str(*p),
    decreases *p,
{
    if p.negation {
        push_char(s, '!');
        push_char(s, ' ');
    }
    let mut pieces: Vec<String> = Vec::new();
    let mut i: usize = 0;
    while i < p.commands.len()
        invariant
            i <= p.commands.len(),
            views_of(pieces@) =~= command_pieces(p.commands@.take(i as int)),
        decreases p.commands.len() - i,
    {
        let mut piece = String::new();
        push_command(&mut piece, &p.commands[i]);
        let ghost prev = pieces@;
        pieces.push(piece);
        proof {
            assert(p.commands@.take(i + 1 as int).drop_last() =~= p.commands@.take(i as int));
            assert(views_of(pieces@) =~= views_of(prev).push(pieces@.last()@));
            assert(pieces@.last()@ =~= command_str(p.commands@[i as int]));
            assert(views_of(pieces@) =~= command_pieces(p.commands@.take(i + 1 as int)));
        }
        i = i + 1;
    }
    proof {
        assert(p.commands@.take(p.commands@.len() as int) =~= p.commands@);
    }
    let joined = join_strings(&pieces, " | ");
    s.append(joined.as_str());
    proof {
        reveal_strlit(" | ");
        assert(" | "@ =~= seq![' ', '|', ' ']);
        assert(final (s)@ =~= old(s)@ + pipeline_str(*p));
    }
}

fn push_and_or_list(s: &mut String, l: &AndOrList)
    ensures
        final (s)@ == old(s)@ + and_or_list_str(*l),
    decreases *l,
{
    push_pipeline(s, &l.first);
    let mut i: usize = 0;
    while i < l.rest.len()
        invariant
            i <= l.rest.len(),
            s@ == old(s)@ + pipeline_str(l.first) + and_or_rest_str(l.rest@.take(i as int)),
        decreases l.rest.len() - i,
    {
        push_char(s, ' ');
        push_operator(s, l.rest[i].0.to_operator());
        push_char(s, ' ');
        push_pipeline(s, &l.rest[i].1);
        proof {
            assert(l.rest@.take(i + 1 as int).drop_last() =~= l.rest@.take(i as int));
            assert(s@ =~= old(s)@ + pipeline_str(l.first) + and_or_rest_str(
                l.rest@.take(i + 1 as int),
            ));
        }
        i = i + 1;
    }
    proof {
        assert(l.rest@.take(l.rest@.len() as int) =~= l.rest@);
        assert(final (s)@ =~= old(s)@ + and_or_list_str(*l));
    }
}

fn push_item(s: &mut String, i: &Item, alternate: bool)
    ensures
        final (s)@ == old(s)@ + item_str(*i, alternate),
    decreases *i,
{
    push_and_or_list(s, &i.and_or);
    if i.is_async {
        push_char(s, '&');
    } else if alternate {
        push_char(s, ';');
    }
    proof {
        assert(final (s)@ =~= old(s)@ + item_str(*i, alternate));
    }
}

fn push_list(s: &mut String, l: &List, alternate: bool)
    ensures
        final (s)@ == old(s)@ + list_str(*l, alternate),
    decreases *l,
{
    let n = l.0.len();
    if n == 0 {
        proof {
            assert(final (s)@ =~= old(s)@ + list_str(*l, alternate));
        }
        return ;
    }
    let mut i: usize = 0;
    while i < n - 1
        invariant
            i <= n - 1,
            n == l.0.len(),
            n >= 1,
            s@ == old(s)@ + list_prefix_str(l.0@.take(i as int)),
        decreases n - 1 - i,
    {
        push_item(s, &l.0[i], true);
        push_char(s, ' ');
        proof {
            assert(l.0@.take(i + 1 as int).drop_last() =~= l.0@.take(i as int));
            assert(s@ =~= old(s)@ + list_prefix_str(l.0@.take(i + 1 as int)));
        }
        i = i + 1;
    }
    push_item(s, &l.0[n - 1], alternate);
    proof {
        assert(l.0@.take(n - 1 as int) =~= l.0@.drop_last());
        assert(l.0@.last() == l.0@[n - 1]);
        assert(final (s)@ =~= old(s)@ + list_str(*l, alternate));
    }
}

} // verus!
