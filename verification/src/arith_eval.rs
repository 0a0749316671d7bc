//! Evaluation of arithmetic expressions.
//!
//! The expression grammar is C-like: unary `+ - ! ~`, binary arithmetic,
//! bit-wise and shift operators, comparisons, logical and bit-logical
//! operators, the ternary conditional, and plain and compound assignment.
//! Variables are read as integers from their scalar string values;
//! assignments store the decimal result into the `Global` scope with a
//! last-assigned location pointing into the expression text.

use crate::numeral::{
    dec_digits_value, digit_run, first_bad_octal, is_dec_numeral, is_invalid_octal,
    lemma_dec_digits_bounds, lemma_digit_run, lemma_first_bad_octal, lemma_oct_digits_bounds,
    oct_digits_value,
};
use crate::source::{Code, Location, Source};
use crate::variable::{ReadOnlyError, Scope, Value, Variable, VariableSet};
use vstd::prelude::*;
use vstd::string::StrSliceExecFns;

verus! {

/// An error in recognizing a token.
#[derive(Clone, Copy, Debug, Eq, PartialEq, Structural)]
pub enum TokenError {
    /// A value token contains an invalid character.
    InvalidNumericConstant,
    /// The expression contains a character that can start no token.
    InvalidCharacter,
}

/// An error in the syntax of the expression.
#[derive(Clone, Copy, Debug, Eq, PartialEq, Structural)]
pub enum SyntaxError {
    /// An error in recognizing a token.
    TokenError(TokenError),
    /// The expression ends where a value is required.
    IncompleteExpression,
    /// Two values stand side by side without an operator.
    MissingOperator,
    /// `(` without `)`; the range locates the opening parenthesis.
    UnclosedParenthesis {
        /// Start of the opening parenthesis within the expression.
        opening_start: usize,
        /// End of the opening parenthesis within the expression.
        opening_end: usize,
    },
    /// `?` without `:`; the range locates the `?`.
    QuestionWithoutColon {
        /// Start of the `?` within the expression.
        question_start: usize,
        /// End of the `?` within the expression.
        question_end: usize,
    },
    /// `:` without matching `?`.
    ColonWithoutQuestion,
    /// Other invalid use of an operator.
    InvalidOperator,
}

/// An error in evaluating the expression.
#[derive(Debug, Eq, PartialEq)]
pub enum EvalError {
    /// A variable value that is not a valid number.
    InvalidVariableValue(String),
    /// A result out of bounds.
    Overflow,
    /// Division by zero.
    DivisionByZero,
    /// Left-shifting a negative value.
    LeftShiftingNegative,
    /// Bit-shifting with a negative shift width.
    ReverseShifting,
    /// Assignment with a left-hand side that is not a variable.
    AssignmentToValue,
    /// Assignment to a read-only variable.
    AssignVariableError(ReadOnlyError),
}

/// Why evaluation failed.
#[derive(Debug, Eq, PartialEq)]
pub enum ErrorCause {
    /// The expression is not syntactically valid.
    SyntaxError(SyntaxError),
    /// The expression could not be evaluated.
    EvalError(EvalError),
}

/// An evaluation failure: its cause and the range within the expression it
/// points at.
#[derive(Debug, Eq, PartialEq)]
pub struct EvalFailure {
    /// Why evaluation failed.
    pub cause: ErrorCause,
    /// Start of the range within the expression.
    pub range_start: usize,
    /// End of the range within the expression.
    pub range_end: usize,
}

/// A punctuation token.
#[derive(Clone, Copy, Debug, Eq, PartialEq, Structural)]
enum Punct {
    Plus,
    Minus,
    Star,
    Slash,
    Percent,
    ShiftLeft,
    ShiftRight,
    Less,
    Greater,
    LessEq,
    GreaterEq,
    EqEq,
    NotEq,
    Amp,
    Caret,
    Bar,
    AmpAmp,
    BarBar,
    Question,
    Colon,
    Bang,
    Tilde,
    OpenParen,
    CloseParen,
    Assign,
    PlusAssign,
    MinusAssign,
    StarAssign,
    SlashAssign,
    PercentAssign,
    ShiftLeftAssign,
    ShiftRightAssign,
    AmpAssign,
    CaretAssign,
    BarAssign,
}

/// One token of the expression.
#[derive(Debug)]
enum TokenKind {
    Number(i64),
    Identifier(String),
    Punct(Punct),
}

/// A token with its range within the expression.
#[derive(Debug)]
struct Token {
    kind: TokenKind,
    start: usize,
    end: usize,
}

fn is_digit(c: char) -> (r: bool)
    ensures
        r == ('0' <= c <= '9'),
{
    '0' <= c && c <= '9'
}

fn is_name_start(c: char) -> (r: bool)
    ensures
        r == ('a' <= c <= 'z' || 'A' <= c <= 'Z' || c == '_'),
{
    ('a' <= c && c <= 'z') || ('A' <= c && c <= 'Z') || c == '_'
}

fn is_name_char(c: char) -> (r: bool)
    ensures
        r == ('a' <= c <= 'z' || 'A' <= c <= 'Z' || c == '_' || '0' <= c <= '9'),
{
    is_name_start(c) || is_digit(c)
}

fn digit_value(c: char) -> (r: Option<u32>)
    ensures
        '0' <= c <= '9' ==> (r matches Some(d) && d < 10 && d as int == c as int - '0' as int),
        !('0' <= c <= '9') && !('a' <= c <= 'f') && !('A' <= c <= 'F') ==> r is None,
{
    if '0' <= c && c <= '9' {
        Some(c as u32 - '0' as u32)
    } else if 'a' <= c && c <= 'f' {
        Some(c as u32 - 'a' as u32 + 10)
    } else if 'A' <= c && c <= 'F' {
        Some(c as u32 - 'A' as u32 + 10)
    } else {
        None
    }
}

/// Collects the characters of a string.
fn str_chars(s: &str) -> (r: Vec<char>)
    ensures
        r@ == s@,
{
    let n = s.unicode_len();
    let mut r: Vec<char> = Vec::new();
    let mut i: usize = 0;
    while i < n
        invariant
            i <= n,
            n == s@.len(),
            r@ =~= s@.take(i as int),
        decreases n - i,
    {
        r.push(s.get_char(i));
        proof {
            assert(r@ =~= s@.take(i + 1 as int));
        }
        i = i + 1;
    }
    proof {
        assert(s@.take(n as int) =~= s@);
    }
    r
}

/// Reads a numeric constant starting at `start`: decimal, octal with a `0`
/// prefix, or hexadecimal with a `0x` prefix. The constant must not run into
/// name characters and must fit into the value range.
fn scan_number(chars: &Vec<char>, start: usize) -> (r: Result<(i64, usize), EvalFailure>)
    requires
        start < chars@.len(),
        '0' <= chars@[start as int] <= '9',
    ensures
        match r {
            Ok((_, end)) => start < end <= chars@.len(),
            Err(_) => true,
        },
        is_dec_numeral(chars@.skip(start as int)) && dec_digits_value(chars@.skip(start as int))
            <= i64::MAX ==> (r matches Ok(pair) && pair.1 == chars@.len() && pair.0 as int
            == dec_digits_value(chars@.skip(start as int))),
        is_invalid_octal(chars@.skip(start as int)) && oct_digits_value(
            chars@.skip(start as int).take(first_bad_octal(chars@.skip(start as int))),
        ) * 8 + 7 <= i64::MAX ==> r == Err::<(i64, usize), EvalFailure>(
            EvalFailure {
                cause: ErrorCause::SyntaxError(
                    SyntaxError::TokenError(TokenError::InvalidNumericConstant),
                ),
                range_start: start,
                range_end: (start + first_bad_octal(chars@.skip(start as int)) + 1) as usize,
            },
        ),
        ({
            let t = chars@.skip(start as int);
            let j = digit_run(t);
            0 < j < t.len() && t[j] == '+' && is_dec_numeral(t.take(j)) && dec_digits_value(
                t.take(j),
            ) <= i64::MAX
        }) ==> (r matches Ok(pair) && pair.0 as int == dec_digits_value(
            chars@.skip(start as int).take(digit_run(chars@.skip(start as int))),
        ) && pair.1 as int == start + digit_run(chars@.skip(start as int))),
{
    let ghost tail = chars@.skip(start as int);
    let ghost numeral = is_dec_numeral(tail) && dec_digits_value(tail) <= i64::MAX;
    let ghost bad_octal = is_invalid_octal(tail) && oct_digits_value(
        tail.take(first_bad_octal(tail)),
    ) * 8 + 7 <= i64::MAX;
    let ghost bad_at = first_bad_octal(tail);
    let ghost jrun = digit_run(tail);
    let ghost nmrl = tail.take(jrun);
    let ghost prefix = 0 < jrun < tail.len() && tail[jrun] == '+' && is_dec_numeral(nmrl)
        && dec_digits_value(nmrl) <= i64::MAX;
    proof {
        if prefix {
            lemma_digit_run(tail);
            assert(forall|k: int| 0 <= k < nmrl.len() ==> '0' <= #[trigger] nmrl[k] <= '9') by {
                assert(forall|k: int| 0 <= k < nmrl.len() ==> nmrl[k] == tail[k]);
            }
            assert(tail.take(0) =~= Seq::<char>::empty());
            if tail[0] == '0' {
                assert(nmrl[0] == '0');
                assert(jrun == 1);
                assert(tail.take(1) =~= seq![tail[0]]);
                assert(tail.take(1).drop_last() =~= Seq::<char>::empty());
                assert(tail.take(1).last() == '0');
                assert(dec_digits_value(tail.take(1).drop_last()) == 0);
                assert(dec_digits_value(tail.take(1)) == 0);
                assert(tail[1] == '+');
                assert(chars@[start + 1] == tail[1]);
            }
        }
        if numeral {
            assert(forall|k: int|
                start <= k < chars@.len() ==> '0' <= #[trigger] chars@[k] <= '9') by {
                assert(forall|k: int|
                    start <= k < chars@.len() ==> chars@[k] == tail[k - start]);
            }
        }
        if bad_octal {
            lemma_first_bad_octal(tail);
            assert(forall|k: int|
                start <= k < chars@.len() ==> '0' <= #[trigger] chars@[k] <= '9') by {
                assert(forall|k: int|
                    start <= k < chars@.len() ==> chars@[k] == tail[k - start]);
            }
            assert(tail.take(1) =~= seq![tail[0]]);
            assert(tail.take(1).drop_last() =~= Seq::<char>::empty());
            assert(tail.take(1).last() == '0');
            assert(oct_digits_value(tail.take(1).drop_last()) == 0);
            assert(oct_digits_value(tail.take(1)) == 0);
        }
    }
    let n = chars.len();
    let mut i: usize = start;
    let mut base: i64 = 10;
    proof {
        if numeral && chars@[start as int] == '0' {
            assert(tail[0] == '0');
            assert(tail.len() == 1);
        }
        if bad_octal {
            assert(tail[0] == '0');
            assert(chars@[start as int] == '0');
            assert('0' <= tail[1] <= '9');
            assert(chars@[start + 1] == tail[1]);
        }
    }
    if chars[i] == '0' {
        i = i + 1;
        if i < n && (chars[i] == 'x' || chars[i] == 'X') {
            base = 16;
            i = i + 1;
            if i == n || digit_value(chars[i]).is_none() {
                return Err(
                    EvalFailure {
                        cause: ErrorCause::SyntaxError(
                            SyntaxError::TokenError(TokenError::InvalidNumericConstant),
                        ),
                        range_start: start,
                        range_end: i,
                    },
                );
            }
        } else {
            base = 8;
        }
    }
    let mut value: i64 = 0;
    while i < n
        invariant
            start <= i <= n,
            n == chars@.len(),
            base == 8 || base == 10 || base == 16,
            '0' <= chars@[start as int] <= '9',
            i == start ==> base == 10,
            tail == chars@.skip(start as int),
            numeral == (is_dec_numeral(tail) && dec_digits_value(tail) <= i64::MAX),
            numeral && chars@[start as int] == '0' ==> (i == start + 1 && i == n && value == 0),
            numeral && chars@[start as int] != '0' ==> (base == 10 && value as int
                == dec_digits_value(tail.take(i - start))),
            bad_octal == (is_invalid_octal(tail) && oct_digits_value(tail.take(first_bad_octal(
                tail,
            ))) * 8 + 7 <= i64::MAX),
            bad_at == first_bad_octal(tail),
            bad_octal ==> (base == 8 && start + 1 <= i <= start + bad_at && value as int
                == oct_digits_value(tail.take(i - start)) && value >= 0),
            jrun == digit_run(tail),
            nmrl == tail.take(jrun),
            prefix == (0 < jrun < tail.len() && tail[jrun] == '+' && is_dec_numeral(nmrl)
                && dec_digits_value(nmrl) <= i64::MAX),
            prefix && tail[0] != '0' ==> (base == 10 && start <= i <= start + jrun && value >= 0
                && value as int == dec_digits_value(tail.take(i - start))),
            prefix && tail[0] == '0' ==> (jrun == 1 && i == start + 1 && base == 8 && value == 0),
        decreases n - i,
    {
        proof {
            if numeral {
                assert(tail[i - start] == chars@[i as int]);
                assert('0' <= chars@[i as int] <= '9');
                if chars@[start as int] != '0' {
                    lemma_dec_digits_bounds(tail, i - start);
                    lemma_dec_digits_bounds(tail, i - start + 1);
                    assert(tail.take(i - start + 1).drop_last() =~= tail.take(i - start));
                    assert(tail.take(i - start + 1).last() == tail[i - start]);
                    assert(dec_digits_value(tail.take(i - start + 1)) == dec_digits_value(
                        tail.take(i - start),
                    ) * 10 + (tail[i - start] as int - '0' as int));
                }
            }
            if prefix {
                lemma_digit_run(tail);
                assert(tail[i - start] == chars@[i as int]);
                if i - start < jrun {
                    assert('0' <= tail[i - start] <= '9');
                    assert(nmrl.take(i - start) =~= tail.take(i - start));
                    assert(nmrl.take(i - start + 1) =~= tail.take(i - start + 1));
                    lemma_dec_digits_bounds(nmrl, i - start);
                    lemma_dec_digits_bounds(nmrl, i - start + 1);
                    assert(tail.take(i - start + 1).drop_last() =~= tail.take(i - start));
                    assert(tail.take(i - start + 1).last() == tail[i - start]);
                    assert(dec_digits_value(tail.take(i - start + 1)) == dec_digits_value(
                        tail.take(i - start),
                    ) * 10 + (tail[i - start] as int - '0' as int));
                    assert(dec_digits_value(nmrl.take(i - start + 1)) <= dec_digits_value(nmrl));
                } else {
                    assert(i - start == jrun);
                    assert(tail[jrun] == '+');
                    assert(chars@[i as int] == '+');
                }
            }
            if bad_octal {
                lemma_first_bad_octal(tail);
                assert(tail[i - start] == chars@[i as int]);
                assert('0' <= chars@[i as int] <= '9');
                lemma_oct_digits_bounds(tail.take(bad_at), i - start);
                if i - start < bad_at {
                    assert(!('8' <= tail[i - start] <= '9'));
                    assert(tail.take(bad_at).take(i - start) =~= tail.take(i - start));
                    assert(tail.take(bad_at).take(i - start + 1) =~= tail.take(i - start + 1));
                    lemma_oct_digits_bounds(tail.take(bad_at), i - start + 1);
                    assert(tail.take(i - start + 1).drop_last() =~= tail.take(i - start));
                    assert(tail.take(i - start + 1).last() == tail[i - start]);
                    assert(oct_digits_value(tail.take(i - start + 1)) == oct_digits_value(
                        tail.take(i - start),
                    ) * 8 + (tail[i - start] as int - '0' as int));
                } else {
                    assert(i - start == bad_at);
                    assert('8' <= tail[bad_at] <= '9');
                }
            }
        }
        let c = chars[i];
        let d = match digit_value(c) {
            Some(d) => d,
            None => {
                if is_name_char(c) {
                    return Err(
                        EvalFailure {
                            cause: ErrorCause::SyntaxError(
                                SyntaxError::TokenError(TokenError::InvalidNumericConstant),
                            ),
                            range_start: start,
                            range_end: i + 1,
                        },
                    );
                }
                proof {
                    if prefix {
                        lemma_digit_run(tail);
                        assert(i - start == jrun);
                        assert(nmrl =~= tail.take(jrun));
                        if tail[0] == '0' {
                            assert(tail.take(1) =~= seq![tail[0]]);
                            assert(tail.take(1).drop_last() =~= Seq::<char>::empty());
                            assert(tail.take(1).last() == '0');
                            assert(dec_digits_value(tail.take(1).drop_last()) == 0);
                            assert(dec_digits_value(tail.take(1)) == 0);
                        }
                    }
                }
                // The constant ends at a non-name character.
                if i == start {
                    return Err(
                        EvalFailure {
                            cause: ErrorCause::SyntaxError(
                                SyntaxError::TokenError(TokenError::InvalidNumericConstant),
                            ),
                            range_start: start,
                            range_end: start + 1,
                        },
                    );
                }
                return Ok((value, i));
            },
        };
        if d as i64 >= base {
            return Err(
                EvalFailure {
                    cause: ErrorCause::SyntaxError(
                        SyntaxError::TokenError(TokenError::InvalidNumericConstant),
                    ),
                    range_start: start,
                    range_end: i + 1,
                },
            );
        }
        let scaled = match value.checked_mul(base) {
            Some(v) => v,
            None => {
                return Err(
                    EvalFailure {
                        cause: ErrorCause::SyntaxError(
                            SyntaxError::TokenError(TokenError::InvalidNumericConstant),
                        ),
                        range_start: start,
                        range_end: i + 1,
                    },
                );
            },
        };
        if scaled > i64::MAX - d as i64 {
            return Err(
                EvalFailure {
                    cause: ErrorCause::SyntaxError(
                        SyntaxError::TokenError(TokenError::InvalidNumericConstant),
                    ),
                    range_start: start,
                    range_end: i + 1,
                },
            );
        }
        value = scaled + d as i64;
        i = i + 1;
    }
    if i == start {
        return Err(
            EvalFailure {
                cause: ErrorCause::SyntaxError(
                    SyntaxError::TokenError(TokenError::InvalidNumericConstant),
                ),
                range_start: start,
                range_end: start + 1,
            },
        );
    }
    proof {
        if numeral {
            if chars@[start as int] != '0' {
                assert(tail.take(n - start) =~= tail);
            } else {
                assert(tail =~= seq!['0']);
                assert(tail.drop_last() =~= Seq::<char>::empty());
                assert(tail.last() == '0');
                assert(dec_digits_value(tail.drop_last()) == 0);
                assert(dec_digits_value(tail) == 0);
            }
        }
    }
    Ok((value, i))
}

/// The value of the single number token of a token sequence, if the
/// sequence is exactly one number.
spec fn single_number(tokens: Seq<Token>) -> Option<i64> {
    if tokens.len() == 1 && (tokens[0].kind matches TokenKind::Number(_)) {
        match tokens[0].kind {
            TokenKind::Number(v) => Some(v),
            _ => None,
        }
    } else {
        None
    }
}

/// The values on the two sides of a `+` between two decimal numerals, if
/// the whole character sequence has exactly that form, with both numerals
/// canonical and in range.
pub open spec fn plus_chars(s: Seq<char>) -> Option<(int, int)> {
    let j = digit_run(s);
    if 0 < j < s.len() && s[j] == '+' && is_dec_numeral(s.take(j)) && is_dec_numeral(
        s.skip(j + 1),
    ) && dec_digits_value(s.take(j)) <= i64::MAX && dec_digits_value(s.skip(j + 1)) <= i64::MAX {
        Some((dec_digits_value(s.take(j)), dec_digits_value(s.skip(j + 1))))
    } else {
        None
    }
}

/// The values of the two number tokens of a token sequence, if the sequence
/// is exactly a number, a `+`, and a number.
spec fn plus_tokens(tokens: Seq<Token>) -> Option<(i64, i64)> {
    if tokens.len() == 3 && (tokens[0].kind matches TokenKind::Number(_)) && tokens[1].kind
        == TokenKind::Punct(Punct::Plus) && (tokens[2].kind matches TokenKind::Number(_)) {
        match (tokens[0].kind, tokens[2].kind) {
            (TokenKind::Number(a), TokenKind::Number(b)) => Some((a, b)),
            _ => None,
        }
    } else {
        None
    }
}

/// The two number-token values where the token sequence is a sum of two
/// numbers whose values are non-negative and whose sum stays in range.
spec fn plus_ok(tokens: Seq<Token>) -> Option<(i64, i64)> {
    match plus_tokens(tokens) {
        Some(ab) => if ab.0 >= 0 && ab.1 >= 0 && ab.0 + ab.1 <= i64::MAX {
            Some(ab)
        } else {
            None
        },
        None => None,
    }
}

/// Whether a character can continue a variable name in an expression.
pub open spec fn spec_name_char(c: char) -> bool {
    'a' <= c <= 'z' || 'A' <= c <= 'Z' || c == '_' || '0' <= c <= '9'
}

/// The number of name characters at the start of a character sequence.
pub open spec fn name_run(s: Seq<char>) -> int
    decreases s.len(),
{
    if s.len() == 0 || !spec_name_char(s[0]) {
        0
    } else {
        1 + name_run(s.drop_first())
    }
}

/// The name run of a sequence is an in-range prefix of name characters that
/// ends at the first character that is not one.
proof fn lemma_name_run(s: Seq<char>)
    ensures
        0 <= name_run(s) <= s.len(),
        forall|i: int| 0 <= i < name_run(s) ==> spec_name_char(#[trigger] s[i]),
        name_run(s) < s.len() ==> !spec_name_char(s[name_run(s)]),
    decreases s.len(),
{
    if s.len() > 0 && spec_name_char(s[0]) {
        lemma_name_run(s.drop_first());
        assert(forall|i: int| 1 <= i < s.len() ==> #[trigger] s[i] == s.drop_first()[i - 1]);
    }
}

/// The assigned name and value where the character sequence is exactly a
/// variable name, an `=`, and a canonical decimal numeral in range.
pub open spec fn assign_chars(s: Seq<char>) -> Option<(Seq<char>, int)> {
    let k = name_run(s);
    if 0 < k < s.len() && ('a' <= s[0] <= 'z' || 'A' <= s[0] <= 'Z' || s[0] == '_') && s[k] == '='
        && is_dec_numeral(s.skip(k + 1)) && dec_digits_value(s.skip(k + 1)) <= i64::MAX {
        Some((s.take(k), dec_digits_value(s.skip(k + 1))))
    } else {
        None
    }
}

/// The name and the number-token value where the token sequence is exactly
/// an identifier starting the expression, a plain `=`, and a number.
spec fn assign_tokens(tokens: Seq<Token>) -> Option<(Seq<char>, i64)> {
    if tokens.len() == 3 && (tokens[0].kind matches TokenKind::Identifier(_)) && tokens[1].kind
        == TokenKind::Punct(Punct::Assign) && (tokens[2].kind matches TokenKind::Number(_))
        && tokens[0].start == 0 {
        match (tokens[0].kind, tokens[2].kind) {
            (TokenKind::Identifier(nm), TokenKind::Number(v)) => if tokens[0].end as int
                == nm@.len() {
                Some((nm@, v))
            } else {
                None
            },
            _ => None,
        }
    } else {
        None
    }
}

/// The numeral value where the character sequence is exactly a `-` followed
/// by a canonical decimal numeral in range.
pub open spec fn neg_chars(s: Seq<char>) -> Option<int> {
    if s.len() >= 2 && s[0] == '-' && is_dec_numeral(s.skip(1)) && dec_digits_value(s.skip(1))
        <= i64::MAX {
        Some(dec_digits_value(s.skip(1)))
    } else {
        None
    }
}

/// The number-token value where the token sequence is exactly a minus sign
/// and a non-negative number.
spec fn neg_tokens(tokens: Seq<Token>) -> Option<i64> {
    if tokens.len() == 2 && tokens[0].kind == TokenKind::Punct(Punct::Minus) && (tokens[1].kind
        matches TokenKind::Number(_)) {
        match tokens[1].kind {
            TokenKind::Number(v) => if v >= 0 {
                Some(v)
            } else {
                None
            },
            _ => None,
        }
    } else {
        None
    }
}

/// The integer value of a looked-up variable whose scalar value is a
/// canonical decimal numeral in range.
pub open spec fn numeral_scalar(v: Option<Variable>) -> Option<int> {
    match v {
        Some(var) => match var.value {
            Value::Scalar(sv) => if is_dec_numeral(sv@) && dec_digits_value(sv@) <= i64::MAX {
                Some(dec_digits_value(sv@))
            } else {
                None
            },
            _ => None,
        },
        None => None,
    }
}

/// The variable name where the character sequence is exactly one name that
/// does not start with a digit.
pub open spec fn ident_chars(s: Seq<char>) -> Option<Seq<char>> {
    if s.len() > 0 && name_run(s) == s.len() && ('a' <= s[0] <= 'z' || 'A' <= s[0] <= 'Z' || s[0]
        == '_') {
        Some(s)
    } else {
        None
    }
}

/// The name where the token sequence is exactly one identifier.
spec fn ident_tokens(tokens: Seq<Token>) -> Option<Seq<char>> {
    if tokens.len() == 1 && (tokens[0].kind matches TokenKind::Identifier(_)) {
        match tokens[0].kind {
            TokenKind::Identifier(nm) => Some(nm@),
            _ => None,
        }
    } else {
        None
    }
}

/// Splits the expression into tokens.
fn tokenize(chars: &Vec<char>) -> (r: Result<Vec<Token>, EvalFailure>)
    ensures
        is_dec_numeral(chars@) && dec_digits_value(chars@) <= i64::MAX ==> (r matches Ok(ts)
            && (single_number(ts@) matches Some(v) && v as int == dec_digits_value(chars@))),
        is_invalid_octal(chars@) && oct_digits_value(chars@.take(first_bad_octal(chars@))) * 8 + 7
            <= i64::MAX ==> r == Err::<Vec<Token>, EvalFailure>(
            EvalFailure {
                cause: ErrorCause::SyntaxError(
                    SyntaxError::TokenError(TokenError::InvalidNumericConstant),
                ),
                range_start: 0,
                range_end: (first_bad_octal(chars@) + 1) as usize,
            },
        ),
        plus_chars(chars@) matches Some(p) ==> (r matches Ok(ts) && (plus_tokens(ts@) matches
            Some(ab) && ab.0 as int == p.0 && ab.1 as int == p.1)),
        assign_chars(chars@) matches Some(av) ==> (r matches Ok(ts) && (assign_tokens(ts@)
            matches Some(tv) && tv.0 == av.0 && tv.1 as int == av.1)),
        neg_chars(chars@) matches Some(nv) ==> (r matches Ok(ts) && (neg_tokens(ts@) matches
            Some(w) && w as int == nv)),
        ident_chars(chars@) matches Some(nm) ==> (r matches Ok(ts) && ident_tokens(ts@) == Some(
            nm,
        )),
{
    let ghost numeral = is_dec_numeral(chars@) && dec_digits_value(chars@) <= i64::MAX;
    let ghost bad_octal = is_invalid_octal(chars@) && oct_digits_value(
        chars@.take(first_bad_octal(chars@)),
    ) * 8 + 7 <= i64::MAX;
    let ghost pc = plus_chars(chars@);
    let ghost jr = digit_run(chars@);
    let ghost ac = assign_chars(chars@);
    let ghost nk = name_run(chars@);
    let ghost nc = neg_chars(chars@);
    let ghost ic = ident_chars(chars@);
    proof {
        if nc is Some {
            lemma_dec_digits_bounds(chars@.skip(1), chars@.skip(1).len() as int);
            assert(chars@.skip(1).take(chars@.skip(1).len() as int) =~= chars@.skip(1));
        }
        if pc is Some {
            lemma_digit_run(chars@);
            assert(chars@.skip(jr + 1).len() >= 1);
            assert(jr + 2 <= chars@.len());
            assert('0' <= chars@[0] <= '9');
        }
        if ac is Some {
            lemma_name_run(chars@);
            assert(chars@.skip(nk + 1).len() >= 1);
            assert(nk + 2 <= chars@.len());
        }
    }
    let n = chars.len();
    let mut tokens: Vec<Token> = Vec::new();
    let mut i: usize = 0;
    while i < n
        invariant
            i <= n,
            n == chars@.len(),
            numeral == (is_dec_numeral(chars@) && dec_digits_value(chars@) <= i64::MAX),
            numeral ==> ((i == 0 && tokens@.len() == 0) || (i == n && (single_number(tokens@)
                matches Some(v) && v as int == dec_digits_value(chars@)))),
            bad_octal == (is_invalid_octal(chars@) && oct_digits_value(
                chars@.take(first_bad_octal(chars@)),
            ) * 8 + 7 <= i64::MAX),
            bad_octal ==> i == 0,
            pc == plus_chars(chars@),
            jr == digit_run(chars@),
            pc is Some ==> 1 <= jr && jr + 2 <= n,
            pc matches Some(p) ==> ((i == 0 && tokens@.len() == 0) || (i == jr && tokens@.len()
                == 1 && (tokens@[0].kind matches TokenKind::Number(a) && a as int == p.0)) || (i
                == jr + 1 && tokens@.len() == 2 && (tokens@[0].kind matches TokenKind::Number(a)
                && a as int == p.0) && tokens@[1].kind == TokenKind::Punct(Punct::Plus)) || (i == n
                && (plus_tokens(tokens@) matches Some(ab) && ab.0 as int == p.0 && ab.1 as int
                == p.1))),
            ac == assign_chars(chars@),
            nk == name_run(chars@),
            ac is Some ==> 1 <= nk && nk + 2 <= n,
            ac matches Some(av) ==> ((i == 0 && tokens@.len() == 0) || (i == nk && tokens@.len()
                == 1 && (tokens@[0].kind matches TokenKind::Identifier(nm) && nm@ == av.0)
                && tokens@[0].start == 0 && tokens@[0].end == nk) || (i == nk + 1 && tokens@.len()
                == 2 && (tokens@[0].kind matches TokenKind::Identifier(nm) && nm@ == av.0)
                && tokens@[0].start == 0 && tokens@[0].end == nk && tokens@[1].kind
                == TokenKind::Punct(Punct::Assign)) || (i == n && (assign_tokens(tokens@) matches
                Some(tv) && tv.0 == av.0 && tv.1 as int == av.1))),
            nc == neg_chars(chars@),
            nc matches Some(nv) ==> ((i == 0 && tokens@.len() == 0) || (i == 1 && tokens@.len()
                == 1 && tokens@[0].kind == TokenKind::Punct(Punct::Minus)) || (i == n && (
            neg_tokens(tokens@) matches Some(w) && w as int == nv))),
            ic == ident_chars(chars@),
            ic matches Some(nm) ==> ((i == 0 && tokens@.len() == 0) || (i == n && ident_tokens(
                tokens@,
            ) == Some(nm))),
        decreases n - i,
    {
        let c = chars[i];
        proof {
            if pc is Some {
                lemma_digit_run(chars@);
                assert(chars@.skip(jr + 1)[0] == chars@[jr + 1]);
                assert('0' <= chars@[jr + 1] <= '9');
                if i == 0 {
                    assert('0' <= chars@[0] <= '9');
                } else if i == jr {
                    assert(chars@[jr] == '+');
                }
            }
            if ac is Some {
                lemma_name_run(chars@);
                assert(chars@.skip(nk + 1)[0] == chars@[nk + 1]);
                assert('0' <= chars@[nk + 1] <= '9');
                if i == 0 {
                    assert('a' <= chars@[0] <= 'z' || 'A' <= chars@[0] <= 'Z' || chars@[0]
                        == '_');
                } else if i == nk {
                    assert(chars@[nk] == '=');
                }
            }
            if nc is Some {
                assert(chars@.skip(1)[0] == chars@[1]);
                assert('0' <= chars@[1] <= '9');
            }
            if ic is Some {
                lemma_name_run(chars@);
                assert(i == 0);
                assert('a' <= chars@[0] <= 'z' || 'A' <= chars@[0] <= 'Z' || chars@[0] == '_');
            }
        }
        proof {
            if bad_octal {
                assert(chars@[0] == '0');
            }
        }
        if c == ' ' || c == '\t' || c == '\n' || c == '\r' {
            i = i + 1;
        } else if is_digit(c) {
            let ghost toks0 = tokens@;
            let ghost i0 = i;
            proof {
                if numeral || bad_octal || (pc is Some && i == 0) {
                    assert(chars@.skip(0) =~= chars@);
                }
            }
            let (value, end) = match scan_number(chars, i) {
                Ok(pair) => pair,
                Err(e) => {
                    return Err(e);
                },
            };
            tokens.push(Token { kind: TokenKind::Number(value), start: i, end });
            i = end;
            proof {
                if nc is Some {
                    let nv = nc->Some_0;
                    assert(i0 == 1);
                    assert(value as int == nv);
                    lemma_dec_digits_bounds(chars@.skip(1), chars@.skip(1).len() as int);
                    assert(chars@.skip(1).take(chars@.skip(1).len() as int) =~= chars@.skip(1));
                    assert(value >= 0);
                    assert(end == n);
                    assert(tokens@ =~= toks0.push(
                        Token { kind: TokenKind::Number(value), start: i0, end },
                    ));
                    assert(tokens@.len() == 2);
                    assert(tokens@[0] == toks0[0]);
                    assert(tokens@[1].kind == TokenKind::Number(value));
                    assert(neg_tokens(tokens@) matches Some(w) && w as int == nv);
                }
                if ac is Some {
                    let av = ac->Some_0;
                    lemma_name_run(chars@);
                    assert(i0 == nk + 1);
                    assert(value as int == av.1);
                    assert(end == n);
                    assert(tokens@ =~= toks0.push(
                        Token { kind: TokenKind::Number(value), start: i0, end },
                    ));
                    assert(tokens@.len() == 3);
                    assert(tokens@[0] == toks0[0]);
                    assert(tokens@[1] == toks0[1]);
                    assert(tokens@[2].kind == TokenKind::Number(value));
                    assert(assign_tokens(tokens@) matches Some(tv) && tv.0 == av.0 && tv.1 as int
                        == av.1);
                }
                if pc is Some {
                    let p = pc->Some_0;
                    lemma_digit_run(chars@);
                    if i0 == 0 {
                        assert(value as int == p.0);
                        assert(end == jr);
                        assert(tokens@ =~= toks0.push(
                            Token { kind: TokenKind::Number(value), start: i0, end },
                        ));
                        assert(tokens@.len() == 1);
                        assert(tokens@[0].kind == TokenKind::Number(value));
                    } else {
                        assert(i0 == jr + 1);
                        assert(value as int == p.1);
                        assert(end == n);
                        assert(tokens@ =~= toks0.push(
                            Token { kind: TokenKind::Number(value), start: i0, end },
                        ));
                        assert(tokens@.len() == 3);
                        assert(tokens@[0] == toks0[0]);
                        assert(tokens@[1] == toks0[1]);
                        assert(tokens@[2].kind == TokenKind::Number(value));
                        assert(plus_tokens(tokens@) matches Some(ab) && ab.0 as int == p.0
                            && ab.1 as int == p.1);
                    }
                }
            }
        } else if is_name_start(c) {
            let start = i;
            let ghost toksn = tokens@;
            let mut name = String::new();
            proof {
                assert(name@ =~= chars@.subrange(start as int, start as int));
            }
            while i < n && is_name_char(chars[i])
                invariant
                    start <= i <= n,
                    n == chars@.len(),
                    name@ == chars@.subrange(start as int, i as int),
                    ac == assign_chars(chars@),
                    nk == name_run(chars@),
                    ac is Some ==> 1 <= nk && nk + 2 <= n,
                    ac is Some && start == 0 ==> i <= nk,
                    ic == ident_chars(chars@),
                decreases n - i,
            {
                proof {
                    if ac is Some && start == 0 {
                        lemma_name_run(chars@);
                        assert(spec_name_char(chars@[i as int]) || i == nk);
                    }
                    assert(chars@.subrange(start as int, i + 1 as int).drop_last()
                        =~= chars@.subrange(start as int, i as int));
                    assert(chars@.subrange(start as int, i + 1 as int).last() == chars@[i as int]);
                }
                crate::syntax::push_char(&mut name, chars[i]);
                proof {
                    assert(name@ =~= chars@.subrange(start as int, i + 1 as int));
                }
                i = i + 1;
            }
            proof {
                if ac is Some && start == 0 {
                    lemma_name_run(chars@);
                    assert(i == nk);
                    assert(name@ =~= chars@.take(nk));
                }
                if ic is Some {
                    lemma_name_run(chars@);
                    assert(start == 0);
                    assert(i == n);
                    assert(name@ =~= chars@);
                }
            }
            tokens.push(Token { kind: TokenKind::Identifier(name), start, end: i });
            proof {
                if ac is Some {
                    assert(start == 0);
                    assert(tokens@.len() == toksn.len() + 1);
                    assert(tokens@.len() == 1);
                    assert(tokens@[0].kind == TokenKind::Identifier(name));
                    assert(tokens@[0].start == 0);
                    assert(tokens@[0].end == nk);
                }
                if ic is Some {
                    assert(tokens@.len() == 1);
                    assert(tokens@[0].kind == TokenKind::Identifier(name));
                    assert(ident_tokens(tokens@) == Some(name@));
                }
            }
        } else {
            let start = i;
            let two = if n - i > 1 {
                Some(chars[i + 1])
            } else {
                None
            };
            let three = if n - i > 2 {
                Some(chars[i + 2])
            } else {
                None
            };
            let (punct, len): (Punct, usize) = if c == '<' && two == Some('<') && three == Some(
                '=',
            ) {
                (Punct::ShiftLeftAssign, 3)
            } else if c == '>' && two == Some('>') && three == Some('=') {
                (Punct::ShiftRightAssign, 3)
            } else if c == '<' && two == Some('<') {
                (Punct::ShiftLeft, 2)
            } else if c == '>' && two == Some('>') {
                (Punct::ShiftRight, 2)
            } else if c == '<' && two == Some('=') {
                (Punct::LessEq, 2)
            } else if c == '>' && two == Some('=') {
                (Punct::GreaterEq, 2)
            } else if c == '=' && two == Some('=') {
                (Punct::EqEq, 2)
            } else if c == '!' && two == Some('=') {
                (Punct::NotEq, 2)
            } else if c == '&' && two == Some('&') {
                (Punct::AmpAmp, 2)
            } else if c == '|' && two == Some('|') {
                (Punct::BarBar, 2)
            } else if c == '+' && two == Some('=') {
                (Punct::PlusAssign, 2)
            } else if c == '-' && two == Some('=') {
                (Punct::MinusAssign, 2)
            } else if c == '*' && two == Some('=') {
                (Punct::StarAssign, 2)
            } else if c == '/' && two == Some('=') {
                (Punct::SlashAssign, 2)
            } else if c == '%' && two == Some('=') {
                (Punct::PercentAssign, 2)
            } else if c == '&' && two == Some('=') {
                (Punct::AmpAssign, 2)
            } else if c == '^' && two == Some('=') {
                (Punct::CaretAssign, 2)
            } else if c == '|' && two == Some('=') {
                (Punct::BarAssign, 2)
            } else if c == '+' {
                (Punct::Plus, 1)
            } else if c == '-' {
                (Punct::Minus, 1)
            } else if c == '*' {
                (Punct::Star, 1)
            } else if c == '/' {
                (Punct::Slash, 1)
            } else if c == '%' {
                (Punct::Percent, 1)
            } else if c == '<' {
                (Punct::Less, 1)
            } else if c == '>' {
                (Punct::Greater, 1)
            } else if c == '&' {
                (Punct::Amp, 1)
            } else if c == '^' {
                (Punct::Caret, 1)
            } else if c == '|' {
                (Punct::Bar, 1)
            } else if c == '?' {
                (Punct::Question, 1)
            } else if c == ':' {
                (Punct::Colon, 1)
            } else if c == '!' {
                (Punct::Bang, 1)
            } else if c == '~' {
                (Punct::Tilde, 1)
            } else if c == '(' {
                (Punct::OpenParen, 1)
            } else if c == ')' {
                (Punct::CloseParen, 1)
            } else if c == '=' {
                (Punct::Assign, 1)
            } else {
                return Err(
                    EvalFailure {
                        cause: ErrorCause::SyntaxError(
                            SyntaxError::TokenError(TokenError::InvalidCharacter),
                        ),
                        range_start: i,
                        range_end: i + 1,
                    },
                );
            };
            tokens.push(Token { kind: TokenKind::Punct(punct), start, end: start + len });
            i = start + len;
            proof {
                if pc is Some {
                    let p = pc->Some_0;
                    assert(start == jr);
                    assert(punct == Punct::Plus);
                    assert(len == 1);
                    assert(tokens@.len() == 2);
                    assert(tokens@[0] == tokens@.drop_last()[0]);
                    assert(tokens@[1].kind == TokenKind::Punct(Punct::Plus));
                    assert(i == jr + 1);
                }
                if ac is Some {
                    assert(start == nk);
                    assert(punct == Punct::Assign);
                    assert(len == 1);
                    assert(tokens@.len() == 2);
                    assert(tokens@[0] == tokens@.drop_last()[0]);
                    assert(tokens@[1].kind == TokenKind::Punct(Punct::Assign));
                    assert(i == nk + 1);
                }
                if nc is Some {
                    assert(start == 0);
                    assert(punct == Punct::Minus);
                    assert(len == 1);
                    assert(tokens@.len() == 1);
                    assert(tokens@[0].kind == TokenKind::Punct(Punct::Minus));
                    assert(i == 1);
                }
            }
        }
    }
    Ok(tokens)
}

/// A parsed operand: a number, or a variable that has not been read yet.
#[derive(Debug)]
enum OperandKind {
    Num(i64),
    Var { name: String },
}

/// An operand with the range of the expression it came from.
#[derive(Debug)]
struct Operand {
    kind: OperandKind,
    start: usize,
    end: usize,
}

/// Combines a value with 1 or 0 for a true or false comparison.
fn bool_value(b: bool) -> (r: i64)
    ensures
        r == (if b {
            1i64
        } else {
            0i64
        }),
{
    if b {
        1
    } else {
        0
    }
}

/// Parses the full value of a variable as an integer: optional sign, then a
/// numeric constant, with surrounding whitespace allowed.
fn parse_var_value(s: &str) -> (r: Option<i64>)
    ensures
        is_dec_numeral(s@) && dec_digits_value(s@) <= i64::MAX ==> (r matches Some(v) && v as int
            == dec_digits_value(s@)),
{
    let ghost numeral = is_dec_numeral(s@) && dec_digits_value(s@) <= i64::MAX;
    let chars = str_chars(s);
    let n = chars.len();
    let mut i: usize = 0;
    while i < n && (chars[i] == ' ' || chars[i] == '\t')
        invariant
            i <= n,
            n == chars@.len(),
            chars@ == s@,
            numeral == (is_dec_numeral(s@) && dec_digits_value(s@) <= i64::MAX),
            numeral ==> i == 0,
        decreases n - i,
    {
        i = i + 1;
    }
    let mut end = n;
    while end > i && (chars[end - 1] == ' ' || chars[end - 1] == '\t')
        invariant
            i <= end <= n,
            n == chars@.len(),
            chars@ == s@,
            numeral == (is_dec_numeral(s@) && dec_digits_value(s@) <= i64::MAX),
            numeral ==> (i == 0 && end == n),
        decreases end,
    {
        end = end - 1;
    }
    proof {
        if numeral {
            assert(chars@.skip(0) =~= chars@);
        }
    }
    if i == end {
        return Some(0);
    }
    let mut negative = false;
    if chars[i] == '+' {
        i = i + 1;
    } else if chars[i] == '-' {
        negative = true;
        i = i + 1;
    }
    if i >= end || !is_digit(chars[i]) {
        return None;
    }
    let (value, consumed_to) = match scan_number(&chars, i) {
        Ok(pair) => pair,
        Err(_) => {
            return None;
        },
    };
    if consumed_to != end {
        return None;
    }
    if negative {
        if value == i64::MIN {
            return None;
        }
        Some(-value)
    } else {
        Some(value)
    }
}

/// Reads the number an operand stands for: the number itself, or the value
/// of the variable, with an unset variable reading as zero. In inactive
/// (skipped) branches the result is zero and nothing is read.
fn resolve(op: &Operand, active: bool, vars: &VariableSet) -> (r: Result<i64, EvalFailure>)
    ensures
        active ==> (op.kind matches OperandKind::Num(v) ==> r == Ok::<i64, EvalFailure>(v)),
        active ==> (op.kind matches OperandKind::Var { name } ==> ((vars.lookup(name@)
            is None ==> r == Ok::<i64, EvalFailure>(0)) && (numeral_scalar(vars.lookup(name@))
            matches Some(nv) ==> (r matches Ok(v) && v as int == nv)))),
{
    if !active {
        return Ok(0);
    }
    match &op.kind {
        OperandKind::Num(v) => Ok(*v),
        OperandKind::Var { name } => {
            match vars.get(name.as_str()) {
                None => Ok(0),
                Some(variable) => match &variable.value {
                    Value::Scalar(s) => match parse_var_value(s.as_str()) {
                        Some(v) => Ok(v),
                        None => Err(
                            EvalFailure {
                                cause: ErrorCause::EvalError(
                                    EvalError::InvalidVariableValue(s.clone()),
                                ),
                                range_start: op.start,
                                range_end: op.end,
                            },
                        ),
                    },
                    Value::Array(_) => Ok(0),
                },
            }
        },
    }
}

/// Applies a binary arithmetic operator, reporting overflow, division by
/// zero, and invalid shifts. In inactive branches the result is zero and
/// nothing is checked.
fn apply_binary(op: Punct, l: i64, r_val: i64, active: bool, start: usize, end: usize) -> (r:
    Result<i64, EvalFailure>)
    ensures
        active && op == Punct::Plus && i64::MIN <= l + r_val <= i64::MAX ==> r == Ok::<
            i64,
            EvalFailure,
        >((l + r_val) as i64),
{
    if !active {
        return Ok(0);
    }
    let overflow = EvalFailure {
        cause: ErrorCause::EvalError(EvalError::Overflow),
        range_start: start,
        range_end: end,
    };
    match op {
        Punct::Plus => {
            if (r_val > 0 && l > i64::MAX - r_val) || (r_val < 0 && l < i64::MIN - r_val) {
                Err(overflow)
            } else {
                Ok(l + r_val)
            }
        },
        Punct::Minus => {
            if (r_val < 0 && l > i64::MAX + r_val) || (r_val > 0 && l < i64::MIN + r_val) {
                Err(overflow)
            } else {
                Ok(l - r_val)
            }
        },
        Punct::Star => match l.checked_mul(r_val) {
            Some(v) => Ok(v),
            None => Err(overflow),
        },
        Punct::Slash => {
            if r_val == 0 {
                Err(
                    EvalFailure {
                        cause: ErrorCause::EvalError(EvalError::DivisionByZero),
                        range_start: start,
                        range_end: end,
                    },
                )
            } else {
                match l.checked_div(r_val) {
                    Some(v) => Ok(v),
                    None => Err(overflow),
                }
            }
        },
        Punct::Percent => {
            if r_val == 0 {
                Err(
                    EvalFailure {
                        cause: ErrorCause::EvalError(EvalError::DivisionByZero),
                        range_start: start,
                        range_end: end,
                    },
                )
            } else {
                match l.checked_rem(r_val) {
                    Some(v) => Ok(v),
                    None => Err(overflow),
                }
            }
        },
        Punct::ShiftLeft => {
            if r_val < 0 {
                Err(
                    EvalFailure {
                        cause: ErrorCause::EvalError(EvalError::ReverseShifting),
                        range_start: start,
                        range_end: end,
                    },
                )
            } else if l < 0 {
                Err(
                    EvalFailure {
                        cause: ErrorCause::EvalError(EvalError::LeftShiftingNegative),
                        range_start: start,
                        range_end: end,
                    },
                )
            } else if r_val >= 64 {
                Err(overflow)
            } else {
                Ok(l.wrapping_shl(r_val as u32))
            }
        },
        Punct::ShiftRight => {
            if r_val < 0 {
                Err(
                    EvalFailure {
                        cause: ErrorCause::EvalError(EvalError::ReverseShifting),
                        range_start: start,
                        range_end: end,
                    },
                )
            } else if r_val >= 64 {
                Err(overflow)
            } else {
                Ok(l.wrapping_shr(r_val as u32))
            }
        },
        Punct::Less => Ok(bool_value(l < r_val)),
        Punct::Greater => Ok(bool_value(l > r_val)),
        Punct::LessEq => Ok(bool_value(l <= r_val)),
        Punct::GreaterEq => Ok(bool_value(l >= r_val)),
        Punct::EqEq => Ok(bool_value(l == r_val)),
        Punct::NotEq => Ok(bool_value(l != r_val)),
        Punct::Amp => Ok(l & r_val),
        Punct::Caret => Ok(l ^ r_val),
        Punct::Bar => Ok(l | r_val),
        _ => Ok(0),
    }
}

/// The punctuation at the current position, if any.
fn peek_punct(tokens: &Vec<Token>, pos: usize) -> (r: Option<Punct>)
    ensures
        r is Some ==> pos < tokens@.len(),
        pos < tokens@.len() ==> r == (match tokens@[pos as int].kind {
            TokenKind::Punct(p) => Some(p),
            _ => None::<Punct>,
        }),
{
    if pos >= tokens.len() {
        return None;
    }
    match &tokens[pos].kind {
        TokenKind::Punct(p) => Some(*p),
        _ => None,
    }
}

/// The binary operator of a compound assignment, if the punctuation is an
/// assignment operator at all.
fn assignment_op(p: Punct) -> (r: Option<Option<Punct>>)
    ensures
        p == Punct::Assign ==> r == Some(None::<Punct>),
{
    match p {
        Punct::Assign => Some(None),
        Punct::PlusAssign => Some(Some(Punct::Plus)),
        Punct::MinusAssign => Some(Some(Punct::Minus)),
        Punct::StarAssign => Some(Some(Punct::Star)),
        Punct::SlashAssign => Some(Some(Punct::Slash)),
        Punct::PercentAssign => Some(Some(Punct::Percent)),
        Punct::ShiftLeftAssign => Some(Some(Punct::ShiftLeft)),
        Punct::ShiftRightAssign => Some(Some(Punct::ShiftRight)),
        Punct::AmpAssign => Some(Some(Punct::Amp)),
        Punct::CaretAssign => Some(Some(Punct::Caret)),
        Punct::BarAssign => Some(Some(Punct::Bar)),
        _ => None,
    }
}

/// Stores the result of an assignment into the `Global` scope, with a
/// last-assigned location pointing at the assigned variable's name within
/// the expression.
fn do_assign(
    vars: &mut VariableSet,
    name: &str,
    value: i64,
    name_start: usize,
    name_end: usize,
    expression: &str,
    expansion_location: &Location,
) -> (r: Result<(), EvalFailure>)
    requires
        old(vars).wf(),
    ensures
        final (vars).wf(),
        final (vars).ctxs() == old(vars).ctxs(),
        old(vars).stack_of(name@).len() == 0 ==> (r is Ok && (final (vars).lookup(name@) matches
            Some(v) && (v.value matches Value::Scalar(sv) && sv@ == crate::numeral::dec_int(
            value as int,
        )) && (v.last_assigned_location matches Some(loc) && loc.range_start == name_start
            && loc.range_end == name_end && loc.code.value@ == expression@
            && loc.code.start_line_number == 1 && (loc.code.source matches Source::Arith {
            original } && *original == *expansion_location)) && !v.is_exported
            && v.read_only_location is None) && (forall|m: Seq<char>|
            m != name@ ==> final (vars).stack_of(m) == old(vars).stack_of(m))),
{
    let code = Code {
        value: expression.to_owned(),
        start_line_number: 1,
        source: Source::Arith { original: Box::new(expansion_location.clone()) },
    };
    let location = Location { code, range_start: name_start, range_end: name_end };
    let variable = Variable {
        value: Value::Scalar(crate::numeral::i64_to_dec_string(value)),
        last_assigned_location: Some(location),
        is_exported: false,
        read_only_location: None,
    };
    match vars.assign(Scope::Global, name.to_owned(), variable) {
        Ok(_) => Ok(()),
        Err(e) => Err(
            EvalFailure {
                cause: ErrorCause::EvalError(EvalError::AssignVariableError(e)),
                range_start: name_start,
                range_end: name_end,
            },
        ),
    }
}

/// Parses and evaluates a primary or unary expression.
fn parse_unary(
    tokens: &Vec<Token>,
    pos: &mut usize,
    active: bool,
    vars: &mut VariableSet,
    expression: &str,
    expansion_location: &Location,
) -> (r: Result<Operand, EvalFailure>)
    requires
        old(vars).wf(),
        *old(pos) <= tokens@.len(),
    ensures
        final (vars).wf(),
        final (vars).ctxs() == old(vars).ctxs(),
        *old(pos) <= *final (pos) <= tokens@.len(),
        r is Ok ==> *old(pos) < *final (pos),
        single_number(tokens@) matches Some(v) ==> (*old(pos) == 0 ==> (r matches Ok(op)
            && op.kind == OperandKind::Num(v) && *final (pos) == 1 && *final (vars) == *old(
            vars,
        ))),
        plus_tokens(tokens@) matches Some(ab) ==> ((*old(pos) == 0 ==> (r matches Ok(op)
            && op.kind == OperandKind::Num(ab.0) && *final (pos) == 1 && *final (vars) == *old(
            vars,
        ))) && (*old(pos) == 2 ==> (r matches Ok(op) && op.kind == OperandKind::Num(ab.1)
            && *final (pos) == 3 && *final (vars) == *old(vars)))),
        assign_tokens(tokens@) matches Some(av) ==> ((*old(pos) == 0 ==> (r matches Ok(op) && (
        op.kind matches OperandKind::Var { name } && name@ == av.0) && op.start == 0 && op.end
            as int == av.0.len() && *final (pos) == 1 && *final (vars) == *old(vars))) && (*old(
            pos,
        ) == 2 ==> (r matches Ok(op) && op.kind == OperandKind::Num(av.1) && *final (pos) == 3
            && *final (vars) == *old(vars)))),
        neg_tokens(tokens@) matches Some(w) ==> ((active && *old(pos) == 0 ==> (r matches Ok(op)
            && op.kind == OperandKind::Num((-w) as i64) && *final (pos) == 2 && *final (vars)
            == *old(vars))) && (*old(pos) == 1 ==> (r matches Ok(op) && op.kind
            == OperandKind::Num(w) && *final (pos) == 2 && *final (vars) == *old(vars)))),
        ident_tokens(tokens@) matches Some(nm) ==> (*old(pos) == 0 ==> (r matches Ok(op) && (
        op.kind matches OperandKind::Var { name } && name@ == nm) && *final (pos) == 1 && *final (
        vars) == *old(vars))),
    decreases tokens@.len() - *pos, 0int,
{
    if *pos >= tokens.len() {
        let at = tokens.len();
        return Err(
            EvalFailure {
                cause: ErrorCause::SyntaxError(SyntaxError::IncompleteExpression),
                range_start: at,
                range_end: at,
            },
        );
    }
    let token_start = tokens[*pos].start;
    let token_end = tokens[*pos].end;
    match &tokens[*pos].kind {
        TokenKind::Number(v) => {
            let value = *v;
            *pos = *pos + 1;
            Ok(Operand { kind: OperandKind::Num(value), start: token_start, end: token_end })
        },
        TokenKind::Identifier(name) => {
            let owned = name.clone();
            *pos = *pos + 1;
            Ok(
                Operand {
                    kind: OperandKind::Var { name: owned },
                    start: token_start,
                    end: token_end,
                },
            )
        },
        TokenKind::Punct(p) => {
            let p = *p;
            if p == Punct::OpenParen {
                *pos = *pos + 1;
                let inner = match parse_assignment(
                    tokens,
                    pos,
                    active,
                    vars,
                    expression,
                    expansion_location,
                ) {
                    Ok(o) => o,
                    Err(e) => {
                        return Err(e);
                    },
                };
                match peek_punct(tokens, *pos) {
                    Some(Punct::CloseParen) => {
                        *pos = *pos + 1;
                        Ok(Operand { kind: inner.kind, start: token_start, end: tokens[*pos - 1].end })
                    },
                    _ => Err(
                        EvalFailure {
                            cause: ErrorCause::SyntaxError(
                                SyntaxError::UnclosedParenthesis {
                                    opening_start: token_start,
                                    opening_end: token_end,
                                },
                            ),
                            range_start: token_start,
                            range_end: token_end,
                        },
                    ),
                }
            } else if p == Punct::Plus || p == Punct::Minus || p == Punct::Bang || p
                == Punct::Tilde {
                *pos = *pos + 1;
                let operand = match parse_unary(
                    tokens,
                    pos,
                    active,
                    vars,
                    expression,
                    expansion_location,
                ) {
                    Ok(o) => o,
                    Err(e) => {
                        return Err(e);
                    },
                };
                let end = operand.end;
                let v = match resolve(&operand, active, vars) {
                    Ok(v) => v,
                    Err(e) => {
                        return Err(e);
                    },
                };
                let value = if !active {
                    0i64
                } else if p == Punct::Plus {
                    v
                } else if p == Punct::Minus {
                    if v == i64::MIN {
                        return Err(
                            EvalFailure {
                                cause: ErrorCause::EvalError(EvalError::Overflow),
                                range_start: token_start,
                                range_end: end,
                            },
                        );
                    }
                    -v
                } else if p == Punct::Bang {
                    bool_value(v == 0)
                } else {
                    v ^ -1i64
                };
                Ok(Operand { kind: OperandKind::Num(value), start: token_start, end })
            } else if p == Punct::Colon {
                Err(
                    EvalFailure {
                        cause: ErrorCause::SyntaxError(SyntaxError::ColonWithoutQuestion),
                        range_start: token_start,
                        range_end: token_end,
                    },
                )
            } else {
                Err(
                    EvalFailure {
                        cause: ErrorCause::SyntaxError(SyntaxError::InvalidOperator),
                        range_start: token_start,
                        range_end: token_end,
                    },
                )
            }
        },
    }
}

/// Whether a punctuation is a binary operator of the given precedence level.
fn level_op(level: u32, p: Punct) -> (r: bool)
    ensures
        r == ((level == 1 && (p == Punct::Star || p == Punct::Slash || p == Punct::Percent)) || (
        level == 2 && (p == Punct::Plus || p == Punct::Minus)) || (level == 3 && (p
            == Punct::ShiftLeft || p == Punct::ShiftRight)) || (level == 4 && (p == Punct::Less
            || p == Punct::Greater || p == Punct::LessEq || p == Punct::GreaterEq)) || (level == 5
            && (p == Punct::EqEq || p == Punct::NotEq)) || (level == 6 && p == Punct::Amp) || (
        level == 7 && p == Punct::Caret) || (level == 8 && p == Punct::Bar)),
{
    match level {
        1u32 => p == Punct::Star || p == Punct::Slash || p == Punct::Percent,
        2u32 => p == Punct::Plus || p == Punct::Minus,
        3u32 => p == Punct::ShiftLeft || p == Punct::ShiftRight,
        4u32 => p == Punct::Less || p == Punct::Greater || p == Punct::LessEq || p
            == Punct::GreaterEq,
        5u32 => p == Punct::EqEq || p == Punct::NotEq,
        6u32 => p == Punct::Amp,
        7u32 => p == Punct::Caret,
        8u32 => p == Punct::Bar,
        _ => false,
    }
}

/// Parses and evaluates a sequence of binary operators of one precedence
/// level, left-associatively.
fn parse_binary(
    level: u32,
    tokens: &Vec<Token>,
    pos: &mut usize,
    active: bool,
    vars: &mut VariableSet,
    expression: &str,
    expansion_location: &Location,
) -> (r: Result<Operand, EvalFailure>)
    requires
        old(vars).wf(),
        *old(pos) <= tokens@.len(),
        1 <= level <= 8,
    ensures
        final (vars).wf(),
        final (vars).ctxs() == old(vars).ctxs(),
        *old(pos) <= *final (pos) <= tokens@.len(),
        r is Ok ==> *old(pos) < *final (pos),
        single_number(tokens@) matches Some(v) ==> (*old(pos) == 0 ==> (r matches Ok(op)
            && op.kind == OperandKind::Num(v) && *final (pos) == 1 && *final (vars) == *old(
            vars,
        ))),
        plus_ok(tokens@) matches Some(ab) ==> (active ==> ((*old(pos) == 0 ==> (r matches Ok(op)
            && op.kind == (if level == 1 {
            OperandKind::Num(ab.0)
        } else {
            OperandKind::Num((ab.0 + ab.1) as i64)
        }) && *final (pos) == (if level == 1 {
            1usize
        } else {
            3usize
        }) && *final (vars) == *old(vars))) && (*old(pos) == 2 ==> (r matches Ok(op) && op.kind
            == OperandKind::Num(ab.1) && *final (pos) == 3 && *final (vars) == *old(vars))))),
        assign_tokens(tokens@) matches Some(av) ==> ((*old(pos) == 0 ==> (r matches Ok(op) && (
        op.kind matches OperandKind::Var { name } && name@ == av.0) && op.start == 0 && op.end
            as int == av.0.len() && *final (pos) == 1 && *final (vars) == *old(vars))) && (*old(
            pos,
        ) == 2 ==> (r matches Ok(op) && op.kind == OperandKind::Num(av.1) && *final (pos) == 3
            && *final (vars) == *old(vars)))),
        neg_tokens(tokens@) matches Some(w) ==> (active && *old(pos) == 0 ==> (r matches Ok(op)
            && op.kind == OperandKind::Num((-w) as i64) && *final (pos) == 2 && *final (vars)
            == *old(vars))),
        ident_tokens(tokens@) matches Some(nm) ==> (*old(pos) == 0 ==> (r matches Ok(op) && (
        op.kind matches OperandKind::Var { name } && name@ == nm) && *final (pos) == 1 && *final (
        vars) == *old(vars))),
    decreases tokens@.len() - *pos, level as int,
{
    let _token_count = tokens.len();
    let mut lhs = if level == 1 {
        match parse_unary(tokens, pos, active, vars, expression, expansion_location) {
            Ok(o) => o,
            Err(e) => {
                return Err(e);
            },
        }
    } else {
        match parse_binary(level - 1, tokens, pos, active, vars, expression, expansion_location) {
            Ok(o) => o,
            Err(e) => {
                return Err(e);
            },
        }
    };
    loop
        invariant
            vars.wf(),
            vars.ctxs() == old(vars).ctxs(),
            *old(pos) < *pos <= tokens@.len(),
            tokens@.len() <= usize::MAX,
            1 <= level <= 8,
            single_number(tokens@) matches Some(v) ==> (*old(pos) == 0 ==> (lhs.kind
                == OperandKind::Num(v) && *pos == 1 && *vars == *old(vars))),
            plus_ok(tokens@) matches Some(ab) ==> (active ==> ((*old(pos) == 0 ==> (((level <= 2
                && lhs.kind == OperandKind::Num(ab.0) && *pos == 1) || (level >= 2 && lhs.kind
                == OperandKind::Num((ab.0 + ab.1) as i64) && *pos == 3)) && *vars == *old(vars)))
                && (*old(pos) == 2 ==> (lhs.kind == OperandKind::Num(ab.1) && *pos == 3 && *vars
                == *old(vars))))),
            assign_tokens(tokens@) matches Some(av) ==> ((*old(pos) == 0 ==> ((lhs.kind matches
                OperandKind::Var { name } && name@ == av.0) && lhs.start == 0 && lhs.end as int
                == av.0.len() && *pos == 1 && *vars == *old(vars))) && (*old(pos) == 2 ==> (
            lhs.kind == OperandKind::Num(av.1) && *pos == 3 && *vars == *old(vars)))),
            neg_tokens(tokens@) matches Some(w) ==> (active && *old(pos) == 0 ==> (lhs.kind
                == OperandKind::Num((-w) as i64) && *pos == 2 && *vars == *old(vars))),
            ident_tokens(tokens@) matches Some(nm) ==> (*old(pos) == 0 ==> ((lhs.kind matches
                OperandKind::Var { name } && name@ == nm) && *pos == 1 && *vars == *old(vars))),
        decreases tokens@.len() - *pos,
    {
        let op = match peek_punct(tokens, *pos) {
            Some(p) => {
                if level_op(level, p) {
                    p
                } else {
                    return Ok(lhs);
                }
            },
            None => {
                return Ok(lhs);
            },
        };
        *pos = *pos + 1;
        let rhs = if level == 1 {
            match parse_unary(tokens, pos, active, vars, expression, expansion_location) {
                Ok(o) => o,
                Err(e) => {
                    return Err(e);
                },
            }
        } else {
            match parse_binary(
                level - 1,
                tokens,
                pos,
                active,
                vars,
                expression,
                expansion_location,
            ) {
                Ok(o) => o,
                Err(e) => {
                    return Err(e);
                },
            }
        };
        let l = match resolve(&lhs, active, vars) {
            Ok(v) => v,
            Err(e) => {
                return Err(e);
            },
        };
        let r_val = match resolve(&rhs, active, vars) {
            Ok(v) => v,
            Err(e) => {
                return Err(e);
            },
        };
        let value = match apply_binary(op, l, r_val, active, lhs.start, rhs.end) {
            Ok(v) => v,
            Err(e) => {
                return Err(e);
            },
        };
        lhs = Operand { kind: OperandKind::Num(value), start: lhs.start, end: rhs.end };
    }
}

/// Parses and evaluates `&&` and `||` chains, with the right-hand side only
/// evaluated when it can decide the result, and the ternary conditional with
/// only the selected branch evaluated.
fn parse_conditional(
    tokens: &Vec<Token>,
    pos: &mut usize,
    active: bool,
    vars: &mut VariableSet,
    expression: &str,
    expansion_location: &Location,
) -> (r: Result<Operand, EvalFailure>)
    requires
        old(vars).wf(),
        *old(pos) <= tokens@.len(),
    ensures
        final (vars).wf(),
        final (vars).ctxs() == old(vars).ctxs(),
        *old(pos) <= *final (pos) <= tokens@.len(),
        r is Ok ==> *old(pos) < *final (pos),
        single_number(tokens@) matches Some(v) ==> (*old(pos) == 0 ==> (r matches Ok(op)
            && op.kind == OperandKind::Num(v) && *final (pos) == 1 && *final (vars) == *old(
            vars,
        ))),
        plus_ok(tokens@) matches Some(ab) ==> (active ==> ((*old(pos) == 0 ==> (r matches Ok(op)
            && op.kind == OperandKind::Num((ab.0 + ab.1) as i64) && *final (pos) == 3 && *final (
        vars) == *old(vars))) && (*old(pos) == 2 ==> (r matches Ok(op) && op.kind
            == OperandKind::Num(ab.1) && *final (pos) == 3 && *final (vars) == *old(vars))))),
        assign_tokens(tokens@) matches Some(av) ==> ((*old(pos) == 0 ==> (r matches Ok(op) && (
        op.kind matches OperandKind::Var { name } && name@ == av.0) && op.start == 0 && op.end
            as int == av.0.len() && *final (pos) == 1 && *final (vars) == *old(vars))) && (*old(
            pos,
        ) == 2 ==> (r matches Ok(op) && op.kind == OperandKind::Num(av.1) && *final (pos) == 3
            && *final (vars) == *old(vars)))),
        neg_tokens(tokens@) matches Some(w) ==> (active && *old(pos) == 0 ==> (r matches Ok(op)
            && op.kind == OperandKind::Num((-w) as i64) && *final (pos) == 2 && *final (vars)
            == *old(vars))),
        ident_tokens(tokens@) matches Some(nm) ==> (*old(pos) == 0 ==> (r matches Ok(op) && (
        op.kind matches OperandKind::Var { name } && name@ == nm) && *final (pos) == 1 && *final (
        vars) == *old(vars))),
    decreases tokens@.len() - *pos, 10int,
{
    let _token_count = tokens.len();
    // Logical and / or, with short circuits.
    let lhs = match parse_binary(8, tokens, pos, active, vars, expression, expansion_location) {
        Ok(o) => o,
        Err(e) => {
            return Err(e);
        },
    };
    let mut lhs = lhs;
    loop
        invariant
            vars.wf(),
            vars.ctxs() == old(vars).ctxs(),
            *old(pos) < *pos <= tokens@.len(),
            tokens@.len() <= usize::MAX,
            single_number(tokens@) matches Some(v) ==> (*old(pos) == 0 ==> (lhs.kind
                == OperandKind::Num(v) && *pos == 1 && *vars == *old(vars))),
            plus_ok(tokens@) matches Some(ab) ==> (active ==> ((*old(pos) == 0 ==> (lhs.kind
                == OperandKind::Num((ab.0 + ab.1) as i64) && *pos == 3 && *vars == *old(vars)))
                && (*old(pos) == 2 ==> (lhs.kind == OperandKind::Num(ab.1) && *pos == 3 && *vars
                == *old(vars))))),
            assign_tokens(tokens@) matches Some(av) ==> ((*old(pos) == 0 ==> ((lhs.kind matches
                OperandKind::Var { name } && name@ == av.0) && lhs.start == 0 && lhs.end as int
                == av.0.len() && *pos == 1 && *vars == *old(vars))) && (*old(pos) == 2 ==> (
            lhs.kind == OperandKind::Num(av.1) && *pos == 3 && *vars == *old(vars)))),
            neg_tokens(tokens@) matches Some(w) ==> (active && *old(pos) == 0 ==> (lhs.kind
                == OperandKind::Num((-w) as i64) && *pos == 2 && *vars == *old(vars))),
            ident_tokens(tokens@) matches Some(nm) ==> (*old(pos) == 0 ==> ((lhs.kind matches
                OperandKind::Var { name } && name@ == nm) && *pos == 1 && *vars == *old(vars))),
        decreases tokens@.len() - *pos,
    {
        let op = match peek_punct(tokens, *pos) {
            Some(p) => {
                if p == Punct::AmpAmp || p == Punct::BarBar {
                    p
                } else {
                    break ;
                }
            },
            None => {
                break ;
            },
        };
        let l = match resolve(&lhs, active, vars) {
            Ok(v) => v,
            Err(e) => {
                return Err(e);
            },
        };
        *pos = *pos + 1;
        let rhs_active = if op == Punct::AmpAmp {
            active && l != 0
        } else {
            active && l == 0
        };
        let rhs = match parse_binary(
            8,
            tokens,
            pos,
            rhs_active,
            vars,
            expression,
            expansion_location,
        ) {
            Ok(o) => o,
            Err(e) => {
                return Err(e);
            },
        };
        let r_val = match resolve(&rhs, rhs_active, vars) {
            Ok(v) => v,
            Err(e) => {
                return Err(e);
            },
        };
        let combined = if !active {
            0i64
        } else if op == Punct::AmpAmp {
            bool_value(l != 0 && r_val != 0)
        } else {
            bool_value(l != 0 || r_val != 0)
        };
        lhs = Operand { kind: OperandKind::Num(combined), start: lhs.start, end: rhs.end };
    }
    // Ternary conditional.
    match peek_punct(tokens, *pos) {
        Some(Punct::Question) => {
            let question_start = tokens[*pos].start;
            let question_end = tokens[*pos].end;
            let cond = match resolve(&lhs, active, vars) {
                Ok(v) => v,
                Err(e) => {
                    return Err(e);
                },
            };
            *pos = *pos + 1;
            let then_branch = match parse_assignment(
                tokens,
                pos,
                active && cond != 0,
                vars,
                expression,
                expansion_location,
            ) {
                Ok(o) => o,
                Err(e) => {
                    return Err(e);
                },
            };
            match peek_punct(tokens, *pos) {
                Some(Punct::Colon) => {
                    *pos = *pos + 1;
                },
                _ => {
                    return Err(
                        EvalFailure {
                            cause: ErrorCause::SyntaxError(
                                SyntaxError::QuestionWithoutColon {
                                    question_start,
                                    question_end,
                                },
                            ),
                            range_start: question_start,
                            range_end: question_end,
                        },
                    );
                },
            }
            let else_branch = match parse_conditional(
                tokens,
                pos,
                active && cond == 0,
                vars,
                expression,
                expansion_location,
            ) {
                Ok(o) => o,
                Err(e) => {
                    return Err(e);
                },
            };
            let then_value = match resolve(&then_branch, active && cond != 0, vars) {
                Ok(v) => v,
                Err(e) => {
                    return Err(e);
                },
            };
            let else_value = match resolve(&else_branch, active && cond == 0, vars) {
                Ok(v) => v,
                Err(e) => {
                    return Err(e);
                },
            };
            let picked = if !active {
                0i64
            } else if cond != 0 {
                then_value
            } else {
                else_value
            };
            Ok(Operand { kind: OperandKind::Num(picked), start: lhs.start, end: else_branch.end })
        },
        _ => Ok(lhs),
    }
}

/// Parses and evaluates an assignment expression, right-associatively.
fn parse_assignment(
    tokens: &Vec<Token>,
    pos: &mut usize,
    active: bool,
    vars: &mut VariableSet,
    expression: &str,
    expansion_location: &Location,
) -> (r: Result<Operand, EvalFailure>)
    requires
        old(vars).wf(),
        *old(pos) <= tokens@.len(),
    ensures
        final (vars).wf(),
        final (vars).ctxs() == old(vars).ctxs(),
        *old(pos) <= *final (pos) <= tokens@.len(),
        r is Ok ==> *old(pos) < *final (pos),
        single_number(tokens@) matches Some(v) ==> (*old(pos) == 0 ==> (r matches Ok(op)
            && op.kind == OperandKind::Num(v) && *final (pos) == 1 && *final (vars) == *old(
            vars,
        ))),
        plus_ok(tokens@) matches Some(ab) ==> (active ==> ((*old(pos) == 0 ==> (r matches Ok(op)
            && op.kind == OperandKind::Num((ab.0 + ab.1) as i64) && *final (pos) == 3 && *final (
        vars) == *old(vars))) && (*old(pos) == 2 ==> (r matches Ok(op) && op.kind
            == OperandKind::Num(ab.1) && *final (pos) == 3 && *final (vars) == *old(vars))))),
        assign_tokens(tokens@) matches Some(av) ==> ((active && *old(pos) == 0 && old(
            vars,
        ).stack_of(av.0).len() == 0) ==> (r matches Ok(op) && op.kind == OperandKind::Num(av.1)
            && *final (pos) == 3 && (final (vars).lookup(av.0) matches Some(v) && (v.value matches
        Value::Scalar(sv) && sv@ == crate::numeral::dec_int(av.1 as int)) && (
        v.last_assigned_location matches Some(loc) && loc.range_start == 0 && loc.range_end as int
            == av.0.len() && loc.code.value@ == expression@ && loc.code.start_line_number == 1 && (
        loc.code.source matches Source::Arith { original } && *original == *expansion_location))
            && !v.is_exported && v.read_only_location is None) && (forall|m: Seq<char>|
            m != av.0 ==> final (vars).stack_of(m) == old(vars).stack_of(m)))),
        assign_tokens(tokens@) matches Some(av) ==> (*old(pos) == 2 ==> (r matches Ok(op)
            && op.kind == OperandKind::Num(av.1) && *final (pos) == 3 && *final (vars) == *old(
            vars,
        ))),
        neg_tokens(tokens@) matches Some(w) ==> (active && *old(pos) == 0 ==> (r matches Ok(op)
            && op.kind == OperandKind::Num((-w) as i64) && *final (pos) == 2 && *final (vars)
            == *old(vars))),
        ident_tokens(tokens@) matches Some(nm) ==> (*old(pos) == 0 ==> (r matches Ok(op) && (
        op.kind matches OperandKind::Var { name } && name@ == nm) && *final (pos) == 1 && *final (
        vars) == *old(vars))),
    decreases tokens@.len() - *pos, 12int,
{
    let _token_count = tokens.len();
    let lhs = match parse_conditional(tokens, pos, active, vars, expression, expansion_location) {
        Ok(o) => o,
        Err(e) => {
            return Err(e);
        },
    };
    let op = match peek_punct(tokens, *pos) {
        Some(p) => p,
        None => {
            return Ok(lhs);
        },
    };
    let binary = match assignment_op(op) {
        Some(b) => b,
        None => {
            return Ok(lhs);
        },
    };
    let name = match &lhs.kind {
        OperandKind::Var { name } => name.clone(),
        _ => {
            return Err(
                EvalFailure {
                    cause: ErrorCause::EvalError(EvalError::AssignmentToValue),
                    range_start: lhs.start,
                    range_end: lhs.end,
                },
            );
        },
    };
    *pos = *pos + 1;
    let rhs = match parse_assignment(tokens, pos, active, vars, expression, expansion_location) {
        Ok(o) => o,
        Err(e) => {
            return Err(e);
        },
    };
    let r_val = match resolve(&rhs, active, vars) {
        Ok(v) => v,
        Err(e) => {
            return Err(e);
        },
    };
    let value = match binary {
        None => r_val,
        Some(b) => {
            let l = match resolve(&lhs, active, vars) {
                Ok(v) => v,
                Err(e) => {
                    return Err(e);
                },
            };
            match apply_binary(b, l, r_val, active, lhs.start, rhs.end) {
                Ok(v) => v,
                Err(e) => {
                    return Err(e);
                },
            }
        },
    };
    if active {
        match do_assign(
            vars,
            name.as_str(),
            value,
            lhs.start,
            lhs.end,
            expression,
            expansion_location,
        ) {
            Ok(()) => {},
            Err(e) => {
                return Err(e);
            },
        }
    }
    Ok(Operand { kind: OperandKind::Num(value), start: lhs.start, end: rhs.end })
}

/// Evaluates an arithmetic expression against the given variables.
///
/// The expression is tokenized and evaluated with C-like precedence.
/// Variables are read as integers from their scalar string values;
/// assignments store the decimal result into the `Global` scope, with the
/// last-assigned location tagged with the expansion's original location and
/// pointing at the assigned name within the expression. The context stack of
/// the variable set is never changed.
pub fn eval(expression: &str, vars: &mut VariableSet, expansion_location: &Location) -> (r: Result<
    i64,
    EvalFailure,
>)
    requires
        old(vars).wf(),
    ensures
        final (vars).wf(),
        final (vars).ctxs() == old(vars).ctxs(),
        is_dec_numeral(expression@) && dec_digits_value(expression@) <= i64::MAX ==> (r matches
            Ok(value) && value as int == dec_digits_value(expression@) && *final (vars) == *old(
            vars,
        )),
        is_invalid_octal(expression@) && oct_digits_value(
            expression@.take(first_bad_octal(expression@)),
        ) * 8 + 7 <= i64::MAX ==> (r == Err::<i64, EvalFailure>(
            EvalFailure {
                cause: ErrorCause::SyntaxError(
                    SyntaxError::TokenError(TokenError::InvalidNumericConstant),
                ),
                range_start: 0,
                range_end: (first_bad_octal(expression@) + 1) as usize,
            },
        ) && *final (vars) == *old(vars)),
        plus_chars(expression@) matches Some(p) ==> (p.0 + p.1 <= i64::MAX ==> (r matches Ok(
            value,
        ) && value as int == p.0 + p.1 && *final (vars) == *old(vars))),
        neg_chars(expression@) matches Some(nv) ==> (r matches Ok(value) && value as int == -nv
            && *final (vars) == *old(vars)),
        ident_chars(expression@) matches Some(nm) ==> ((old(vars).lookup(nm) is None ==> (r
            == Ok::<i64, EvalFailure>(0) && *final (vars) == *old(vars))) && (numeral_scalar(
            old(vars).lookup(nm),
        ) matches Some(nv) ==> (r matches Ok(value) && value as int == nv && *final (vars)
            == *old(vars)))),
        assign_chars(expression@) matches Some(av) ==> (old(vars).stack_of(av.0).len() == 0 ==> (
        r matches Ok(value) && value as int == av.1 && (final (vars).lookup(av.0) matches Some(v)
            && (v.value matches Value::Scalar(sv) && sv@ == crate::numeral::dec_int(av.1)) && (
        v.last_assigned_location matches Some(loc) && loc.range_start == 0 && loc.range_end as int
            == av.0.len() && loc.code.value@ == expression@ && loc.code.start_line_number == 1 && (
        loc.code.source matches Source::Arith { original } && *original == *expansion_location))
            && !v.is_exported && v.read_only_location is None) && (forall|m: Seq<char>|
            m != av.0 ==> final (vars).stack_of(m) == old(vars).stack_of(m)))),
{
    let chars = str_chars(expression);
    proof {
        if plus_chars(expression@) is Some {
            let j = digit_run(expression@);
            lemma_digit_run(expression@);
            assert(forall|k: int|
                0 <= k < expression@.take(j).len() ==> '0' <= #[trigger] expression@.take(
                    j,
                )[k] <= '9') by {
                assert(forall|k: int|
                    0 <= k < expression@.take(j).len() ==> expression@.take(j)[k]
                        == expression@[k]);
            }
            assert(expression@.take(j).take(j) =~= expression@.take(j));
            lemma_dec_digits_bounds(expression@.take(j), j);
            lemma_dec_digits_bounds(expression@.skip(j + 1), expression@.skip(j + 1).len() as int);
            assert(expression@.skip(j + 1).take(expression@.skip(j + 1).len() as int)
                =~= expression@.skip(j + 1));
        }
    }
    let tokens = match tokenize(&chars) {
        Ok(t) => t,
        Err(e) => {
            return Err(e);
        },
    };
    if tokens.len() == 0 {
        return Err(
            EvalFailure {
                cause: ErrorCause::SyntaxError(SyntaxError::IncompleteExpression),
                range_start: 0,
                range_end: chars.len(),
            },
        );
    }
    let mut pos: usize = 0;
    let operand = match parse_assignment(
        &tokens,
        &mut pos,
        true,
        vars,
        expression,
        expansion_location,
    ) {
        Ok(o) => o,
        Err(e) => {
            return Err(e);
        },
    };
    if pos < tokens.len() {
        let start = tokens[pos].start;
        let end = tokens[pos].end;
        let cause = match &tokens[pos].kind {
            TokenKind::Punct(Punct::Colon) => ErrorCause::SyntaxError(
                SyntaxError::ColonWithoutQuestion,
            ),
            _ => ErrorCause::SyntaxError(SyntaxError::MissingOperator),
        };
        return Err(EvalFailure { cause, range_start: start, range_end: end });
    }
    match resolve(&operand, true, vars) {
        Ok(v) => Ok(v),
        Err(e) => Err(e),
    }
}

} // verus!
