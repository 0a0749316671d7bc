//! Decimal rendering of integers, shared by the syntax unparser and the
//! arithmetic expansion.

use crate::syntax::push_char;
use vstd::prelude::*;

verus! {

/// The decimal digit character for a value below ten.
pub open spec fn digit_char(d: nat) -> char {
    if d == 0 {
        '0'
    } else if d == 1 {
        '1'
    } else if d == 2 {
        '2'
    } else if d == 3 {
        '3'
    } else if d == 4 {
        '4'
    } else if d == 5 {
        '5'
    } else if d == 6 {
        '6'
    } else if d == 7 {
        '7'
    } else if d == 8 {
        '8'
    } else {
        '9'
    }
}

/// The decimal rendering of a natural number, without sign or padding.
pub open spec fn dec_nat(n: nat) -> Seq<char>
    decreases n,
{
    if n < 10 {
        seq![digit_char(n)]
    } else {
        dec_nat(n / 10).push(digit_char(n % 10))
    }
}

/// The decimal rendering of an integer: a `-` sign for negative values,
/// followed by the digits of the magnitude.
pub open spec fn dec_int(i: int) -> Seq<char> {
    if i >= 0 {
        dec_nat(i as nat)
    } else {
        seq!['-'] + dec_nat((-i) as nat)
    }
}

fn exec_digit_char(d: u64) -> (c: char)
    requires
        d < 10,
    ensures
        c == digit_char(d as nat),
{
    if d == 0 {
        '0'
    } else if d == 1 {
        '1'
    } else if d == 2 {
        '2'
    } else if d == 3 {
        '3'
    } else if d == 4 {
        '4'
    } else if d == 5 {
        '5'
    } else if d == 6 {
        '6'
    } else if d == 7 {
        '7'
    } else if d == 8 {
        '8'
    } else {
        '9'
    }
}

/// Appends the decimal rendering of `n` to `s`.
pub fn push_dec_u64(s: &mut String, n: u64)
    ensures
        final (s)@ == old(s)@ + dec_nat(n as nat),
    decreases n,
{
    if n >= 10 {
        push_dec_u64(s, n / 10);
    }
    push_char(s, exec_digit_char(n % 10));
    proof {
        if n < 10 {
            assert(old(s)@ + dec_nat(n as nat) =~= old(s)@.push(digit_char(n as nat)));
        } else {
            assert(old(s)@ + dec_nat(n as nat) =~= (old(s)@ + dec_nat(n as nat / 10)).push(
                digit_char(n as nat % 10),
            ));
        }
    }
}

/// Appends the decimal rendering of `i` to `s`, with a `-` sign when `i` is
/// negative.
pub fn push_dec_i64(s: &mut String, i: i64)
    ensures
        final (s)@ == old(s)@ + dec_int(i as int),
{
    if i >= 0 {
        push_dec_u64(s, i as u64);
    } else {
        push_char(s, '-');
        let magnitude: u64 = if i == i64::MIN {
            9223372036854775808u64
        } else {
            (-i) as u64
        };
        push_dec_u64(s, magnitude);
        proof {
            assert(old(s)@ + dec_int(i as int) =~= old(s)@.push('-') + dec_nat(
                (-(i as int)) as nat,
            ));
        }
    }
}

/// The decimal rendering of a natural number as a fresh string.
pub fn u64_to_dec_string(n: u64) -> (r: String)
    ensures
        r@ == dec_nat(n as nat),
{
    let mut s = String::new();
    push_dec_u64(&mut s, n);
    proof {
        assert(Seq::<char>::empty() + dec_nat(n as nat) =~= dec_nat(n as nat));
    }
    s
}

/// The numeric value of a sequence of decimal digit characters.
pub open spec fn dec_digits_value(s: Seq<char>) -> int
    decreases s.len(),
{
    if s.len() == 0 {
        0
    } else {
        dec_digits_value(s.drop_last()) * 10 + (s.last() as int - '0' as int)
    }
}

/// Whether a sequence is a canonical decimal numeral: at least one digit,
/// nothing but digits, and no leading zero unless the numeral is `0` itself.
pub open spec fn is_dec_numeral(s: Seq<char>) -> bool {
    &&& s.len() > 0
    &&& forall|i: int| 0 <= i < s.len() ==> '0' <= #[trigger] s[i] <= '9'
    &&& (s[0] != '0' || s.len() == 1)
}

/// The number of decimal digits at the start of a character sequence.
pub open spec fn digit_run(s: Seq<char>) -> int
    decreases s.len(),
{
    if s.len() == 0 || !('0' <= s[0] <= '9') {
        0
    } else {
        1 + digit_run(s.drop_first())
    }
}

/// The digit run of a sequence is an in-range prefix of digits that ends at
/// the first character that is not a digit.
pub proof fn lemma_digit_run(s: Seq<char>)
    ensures
        0 <= digit_run(s) <= s.len(),
        forall|i: int| 0 <= i < digit_run(s) ==> '0' <= #[trigger] s[i] <= '9',
        digit_run(s) < s.len() ==> !('0' <= s[digit_run(s)] <= '9'),
    decreases s.len(),
{
    if s.len() > 0 && '0' <= s[0] <= '9' {
        lemma_digit_run(s.drop_first());
        assert(forall|i: int| 1 <= i < s.len() ==> #[trigger] s[i] == s.drop_first()[i - 1]);
    }
}

/// The value of a digit string is never negative, and no prefix exceeds the
/// whole.
pub proof fn lemma_dec_digits_bounds(s: Seq<char>, j: int)
    requires
        forall|i: int| 0 <= i < s.len() ==> '0' <= #[trigger] s[i] <= '9',
        0 <= j <= s.len(),
    ensures
        0 <= dec_digits_value(s.take(j)),
        dec_digits_value(s.take(j)) <= dec_digits_value(s),
    decreases s.len() - j,
{
    if j == s.len() {
        assert(s.take(j) =~= s);
        lemma_dec_digits_nonneg(s);
    } else {
        lemma_dec_digits_bounds(s, j + 1);
        assert(s.take(j + 1).drop_last() =~= s.take(j));
        assert(s.take(j + 1).last() == s[j]);
        lemma_dec_digits_nonneg(s.take(j));
    }
}

proof fn lemma_dec_digits_nonneg(s: Seq<char>)
    requires
        forall|i: int| 0 <= i < s.len() ==> '0' <= #[trigger] s[i] <= '9',
    ensures
        0 <= dec_digits_value(s),
    decreases s.len(),
{
    if s.len() > 0 {
        assert(forall|i: int| 0 <= i < s.len() - 1 ==> #[trigger] s.drop_last()[i] == s[i]);
        lemma_dec_digits_nonneg(s.drop_last());
    }
}

/// A digit string that keeps its non-zero first digit has a positive value.
proof fn lemma_dec_digits_positive(s: Seq<char>)
    requires
        forall|i: int| 0 <= i < s.len() ==> '0' <= #[trigger] s[i] <= '9',
        s.len() > 0,
        s[0] != '0',
    ensures
        dec_digits_value(s) >= 1,
    decreases s.len(),
{
    if s.len() == 1 {
        assert(dec_digits_value(s.drop_last()) == 0);
    } else {
        assert(forall|i: int| 0 <= i < s.len() - 1 ==> #[trigger] s.drop_last()[i] == s[i]);
        lemma_dec_digits_positive(s.drop_last());
    }
}

/// The numeric value of a sequence of octal digit characters.
pub open spec fn oct_digits_value(s: Seq<char>) -> int
    decreases s.len(),
{
    if s.len() == 0 {
        0
    } else {
        oct_digits_value(s.drop_last()) * 8 + (s.last() as int - '0' as int)
    }
}

/// Whether a sequence is an octal constant with an invalid digit: a `0`
/// followed by more digits, of which some is `8` or `9`.
pub open spec fn is_invalid_octal(s: Seq<char>) -> bool {
    &&& s.len() >= 2
    &&& s[0] == '0'
    &&& forall|i: int| 0 <= i < s.len() ==> '0' <= #[trigger] s[i] <= '9'
    &&& exists|i: int| 1 <= i < s.len() && ('8' <= #[trigger] s[i] <= '9')
}

/// The index of the first digit `8` or `9`, or the length when there is
/// none.
pub open spec fn first_bad_octal(s: Seq<char>) -> int
    decreases s.len(),
{
    if s.len() == 0 {
        0
    } else if '8' <= s[0] <= '9' {
        0
    } else {
        1 + first_bad_octal(s.drop_first())
    }
}

/// The first bad index of an invalid octal constant is in range, points at
/// an `8` or `9`, and nothing before it is one.
pub proof fn lemma_first_bad_octal(s: Seq<char>)
    ensures
        0 <= first_bad_octal(s) <= s.len(),
        first_bad_octal(s) < s.len() ==> '8' <= s[first_bad_octal(s)] <= '9',
        forall|i: int| 0 <= i < first_bad_octal(s) ==> !('8' <= #[trigger] s[i] <= '9'),
        is_invalid_octal(s) ==> 1 <= first_bad_octal(s) < s.len(),
    decreases s.len(),
{
    if s.len() > 0 && !('8' <= s[0] <= '9') {
        assert(forall|i: int|
            1 <= i < s.len() ==> #[trigger] s[i] == s.drop_first()[i - 1]);
        lemma_first_bad_octal(s.drop_first());
        if is_invalid_octal(s) {
            let w = choose|i: int| 1 <= i < s.len() && ('8' <= #[trigger] s[i] <= '9');
            assert('8' <= s.drop_first()[w - 1] <= '9');
            assert(exists|i: int|
                0 <= i < s.drop_first().len() && ('8' <= #[trigger] s.drop_first()[i] <= '9'));
            if first_bad_octal(s.drop_first()) >= s.drop_first().len() {
                let w2 = choose|i: int|
                    0 <= i < s.drop_first().len() && ('8' <= #[trigger] s.drop_first()[i] <= '9');
                assert(false);
            }
        }
    }
}

/// The value of an octal digit string is never negative, and no prefix
/// exceeds the whole.
pub proof fn lemma_oct_digits_bounds(s: Seq<char>, j: int)
    requires
        forall|i: int| 0 <= i < s.len() ==> '0' <= #[trigger] s[i] <= '9',
        0 <= j <= s.len(),
    ensures
        0 <= oct_digits_value(s.take(j)),
        oct_digits_value(s.take(j)) <= oct_digits_value(s),
    decreases s.len() - j,
{
    if j == s.len() {
        assert(s.take(j) =~= s);
        lemma_oct_digits_nonneg(s);
    } else {
        lemma_oct_digits_bounds(s, j + 1);
        assert(s.take(j + 1).drop_last() =~= s.take(j));
        assert(s.take(j + 1).last() == s[j]);
        lemma_oct_digits_nonneg(s.take(j));
    }
}

proof fn lemma_oct_digits_nonneg(s: Seq<char>)
    requires
        forall|i: int| 0 <= i < s.len() ==> '0' <= #[trigger] s[i] <= '9',
    ensures
        0 <= oct_digits_value(s),
    decreases s.len(),
{
    if s.len() > 0 {
        assert(forall|i: int| 0 <= i < s.len() - 1 ==> #[trigger] s.drop_last()[i] == s[i]);
        lemma_oct_digits_nonneg(s.drop_last());
    }
}

/// Rendering the value of a canonical decimal numeral gives the numeral
/// back.
pub proof fn lemma_dec_numeral_round_trip(s: Seq<char>)
    requires
        is_dec_numeral(s),
    ensures
        dec_digits_value(s) >= 0,
        dec_nat(dec_digits_value(s) as nat) == s,
    decreases s.len(),
{
    lemma_dec_digits_nonneg(s);
    let v = dec_digits_value(s);
    if s.len() == 1 {
        assert(dec_digits_value(s.drop_last()) == 0);
        assert(v == s[0] as int - '0' as int);
        assert(dec_nat(v as nat) =~= seq![digit_char(v as nat)]);
        assert(digit_char(v as nat) == s[0]);
        assert(dec_nat(v as nat) =~= s);
    } else {
        let prefix = s.drop_last();
        let d = s.last() as int - '0' as int;
        assert(forall|i: int| 0 <= i < s.len() - 1 ==> #[trigger] prefix[i] == s[i]);
        lemma_dec_numeral_round_trip(prefix);
        lemma_dec_digits_positive(prefix);
        let pv = dec_digits_value(prefix);
        assert(v == pv * 10 + d);
        assert(pv >= 1);
        assert(0 <= d < 10);
        assert(v >= 10) by (nonlinear_arith)
            requires
                pv >= 1,
                d >= 0,
                v == pv * 10 + d,
        ;
        assert(v as nat / 10 == pv as nat && v as nat % 10 == d as nat) by (nonlinear_arith)
            requires
                pv >= 0,
                0 <= d < 10,
                v == pv * 10 + d,
        ;
        assert(dec_nat(v as nat) =~= dec_nat(pv as nat).push(digit_char(d as nat)));
        assert(digit_char(d as nat) == s.last());
        assert(dec_nat(v as nat) =~= s);
    }
}

/// The decimal rendering of an integer as a fresh string.
pub fn i64_to_dec_string(i: i64) -> (r: String)
    ensures
        r@ == dec_int(i as int),
{
    let mut s = String::new();
    push_dec_i64(&mut s, i);
    proof {
        assert(Seq::<char>::empty() + dec_int(i as int) =~= dec_int(i as int));
    }
    s
}

} // verus!
