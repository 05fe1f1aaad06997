//! Small verified string utilities: appending characters, case folding,
//! decimal rendering and decimal parsing.

use vstd::prelude::*;

verus! {

/// Relies on `String::push`: appends exactly one character to the string.
#[verifier::external_body]
pub fn push_char(s: &mut String, c: char)
    ensures
        final(s)@ == old(s)@.push(c),
{
    s.push(c);
}

/// The Unicode lowercase of a character sequence, as `str::to_lowercase`
/// produces it — a function of the characters alone.
pub uninterp spec fn lower_of(s: Seq<char>) -> Seq<char>;

/// Relies on `str::to_lowercase`: the Unicode lowercase of the string,
/// depending on the characters alone; an empty string stays empty.
#[verifier::external_body]
pub fn to_lowercase(s: &str) -> (r: String)
    ensures
        r@ == lower_of(s@),
        s@.len() == 0 ==> r@.len() == 0,
{
    s.to_lowercase()
}

/// The character sequences of a sequence of strings.
pub open spec fn strs_view(s: Seq<String>) -> Seq<Seq<char>> {
    s.map_values(|x: String| x@)
}

/// The character for one decimal digit.
pub open spec fn dec_digit(d: nat) -> char
    recommends
        d < 10,
{
    ((('0' as u8) + d) as char)
}

/// The decimal rendering of a natural number, most significant digit first.
pub open spec fn dec_str(n: nat) -> Seq<char>
    decreases n,
{
    if n < 10 {
        seq![dec_digit(n)]
    } else {
        dec_str(n / 10).push(dec_digit(n % 10))
    }
}

fn digit_char(d: u64) -> (c: char)
    requires
        d < 10,
    ensures
        c == dec_digit(d as nat),
{
    ((('0' as u8) + (d as u8)) as char)
}

/// Appends the decimal rendering of `n` to `s`.
pub fn push_decimal(s: &mut String, n: u64)
    ensures
        final(s)@ == old(s)@ + dec_str(n as nat),
    decreases n,
{
    if n < 10 {
        push_char(s, digit_char(n));
        proof {
            assert(final(s)@ =~= old(s)@ + dec_str(n as nat));
        }
    } else {
        push_decimal(s, n / 10);
        push_char(s, digit_char(n % 10));
        proof {
            assert(final(s)@ =~= old(s)@ + dec_str(n as nat));
        }
    }
}

/// The decimal rendering of `n` as a fresh string.
pub fn u64_to_string(n: u64) -> (r: String)
    ensures
        r@ == dec_str(n as nat),
{
    let mut s = String::new();
    push_decimal(&mut s, n);
    proof {
        assert(s@ =~= dec_str(n as nat));
    }
    s
}

/// Whether `c` is a decimal digit.
pub open spec fn is_dec_digit(c: char) -> bool {
    '0' <= c && c <= '9'
}

/// The numeric value of one decimal digit character.
pub open spec fn digit_val(c: char) -> nat
    recommends
        is_dec_digit(c),
{
    ((c as u8) - ('0' as u8)) as nat
}

/// The numeric value of a sequence of decimal digit characters.
pub open spec fn digits_value(s: Seq<char>) -> nat
    decreases s.len(),
{
    if s.len() == 0 {
        0
    } else {
        digits_value(s.drop_last()) * 10 + digit_val(s.last())
    }
}

/// Why a string failed to parse as a number.
#[derive(Debug, Clone, Copy, PartialEq, Eq)]
pub enum NumError {
    /// The input was empty.
    Empty,
    /// A character of the input was not a decimal digit.
    Digit,
    /// The value does not fit in the target type.
    Range,
}

/// The digits of a number literal: everything after an optional leading `'+'`.
pub open spec fn num_body(s: Seq<char>) -> Seq<char> {
    if s.len() > 0 && s[0] == '+' {
        s.skip(1)
    } else {
        s
    }
}

/// Parses a decimal `usize`, accepting an optional leading `'+'`.
///
/// Digits are checked before the range, so an input that is both malformed
/// and out of range reports `NumError::Digit`.
pub fn parse_usize(s: &str) -> (r: Result<usize, NumError>)
    ensures
        match r {
            Ok(v) => {
                &&& s@.len() > 0
                &&& num_body(s@).len() > 0
                &&& forall|i: int|
                    0 <= i < num_body(s@).len() ==> is_dec_digit(#[trigger] num_body(s@)[i])
                &&& v == digits_value(num_body(s@))
            },
            Err(NumError::Empty) => s@.len() == 0,
            Err(NumError::Digit) => {
                &&& s@.len() > 0
                &&& num_body(s@).len() == 0 || exists|i: int|
                    0 <= i < num_body(s@).len() && !is_dec_digit(#[trigger] num_body(s@)[i])
            },
            Err(NumError::Range) => {
                &&& num_body(s@).len() > 0
                &&& forall|i: int|
                    0 <= i < num_body(s@).len() ==> is_dec_digit(#[trigger] num_body(s@)[i])
                &&& digits_value(num_body(s@)) > usize::MAX
            },
        },
{
    let n = s.unicode_len();
    if n == 0 {
        return Err(NumError::Empty);
    }
    let start: usize = if s.get_char(0) == '+' {
        1
    } else {
        0
    };
    proof {
        assert(num_body(s@) =~= s@.skip(start as int));
    }
    if start == n {
        return Err(NumError::Digit);
    }
    let mut i: usize = start;
    while i < n
        invariant
            start <= i <= n,
            n == s@.len(),
            num_body(s@) == s@.skip(start as int),
            forall|j: int| start <= j < i ==> is_dec_digit(#[trigger] s@[j]),
        decreases n - i,
    {
        let c = s.get_char(i);
        if !(c >= '0' && c <= '9') {
            proof {
                assert(num_body(s@)[i - start as int] == s@[i as int]);
            }
            return Err(NumError::Digit);
        }
        i = i + 1;
    }
    let mut v: usize = 0;
    let mut i: usize = start;
    while i < n
        invariant
            start <= i <= n,
            start < n,
            n == s@.len(),
            num_body(s@) == s@.skip(start as int),
            forall|j: int| start <= j < n ==> is_dec_digit(#[trigger] s@[j]),
            v == digits_value(s@.skip(start as int).take(i - start as int)),
        decreases n - i,
    {
        let c = s.get_char(i);
        let d: usize = (c as u8 - '0' as u8) as usize;
        proof {
            assert(s@.skip(start as int).take(i + 1 - start as int).drop_last() =~= s@.skip(
                start as int,
            ).take(i - start as int));
            assert(s@.skip(start as int).take(i + 1 - start as int).last() == s@[i as int]);
        }
        if v > (usize::MAX - d) / 10 {
            proof {
                let body = s@.skip(start as int);
                assert(digits_value(body.take(i + 1 - start as int)) > usize::MAX) by {
                    assert(v * 10 + d > usize::MAX) by (nonlinear_arith)
                        requires
                            v > (usize::MAX - d) / 10,
                            d < 10,
                    ;
                };
                lemma_digits_value_grows(body, i + 1 - start as int);
            }
            return Err(NumError::Range);
        }
        proof {
            assert(v * 10 + d <= usize::MAX) by (nonlinear_arith)
                requires
                    v <= (usize::MAX - d) / 10,
                    d < 10,
            ;
        }
        v = v * 10 + d;
        i = i + 1;
    }
    proof {
        assert(s@.skip(start as int).take(n - start as int) =~= s@.skip(start as int));
    }
    Ok(v)
}

/// Extending a digit string on the right never decreases its value.
proof fn lemma_digits_value_grows(s: Seq<char>, k: int)
    requires
        0 <= k <= s.len(),
    ensures
        digits_value(s) >= digits_value(s.take(k)),
    decreases s.len() - k,
{
    if k < s.len() {
        assert(s.take(k + 1).drop_last() =~= s.take(k));
        assert(digits_value(s.take(k + 1)) >= digits_value(s.take(k))) by (nonlinear_arith)
            requires
                digits_value(s.take(k + 1)) == digits_value(s.take(k)) * 10 + digit_val(
                    s.take(k + 1).last(),
                ),
        ;
        lemma_digits_value_grows(s, k + 1);
        assert(s.take(s.len() as int) =~= s);
    } else {
        assert(s.take(k) =~= s);
    }
}

} // verus!
