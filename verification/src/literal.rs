//! The grammar of number literals.
//!
//! ```text
//! integer ::= sign? digit+                      (and the value fits in 64 bits)
//! float   ::= sign? ( number | "inf" | "infinity" | "nan" )
//! number  ::= ( digit+ | digit+ "." digit* | digit* "." digit+ ) exponent?
//! exponent::= ( "e" | "E" ) sign? digit+
//! sign    ::= "+" | "-"
//! ```
//!
//! The three words are matched without regard to case. A token that is an
//! integer is never read as a float; a token that is neither is a symbol.

use vstd::prelude::*;
use crate::text::{is_ascii_digit, is_digit};

verus! {

/// A plus or minus sign.
pub open spec fn is_sign(c: char) -> bool {
    c == '+' || c == '-'
}

/// The number of characters that a leading sign takes: one or none.
pub open spec fn sign_len(s: Seq<char>) -> int {
    if s.len() > 0 && is_sign(s[0]) {
        1
    } else {
        0
    }
}

/// The end of the run of digits of `s` that starts at `i`: the first index
/// from `i` on that holds no digit, or the length of `s`.
pub open spec fn digits_end(s: Seq<char>, i: int) -> int
    decreases s.len() - i,
{
    if 0 <= i < s.len() && is_digit(s[i]) {
        digits_end(s, i + 1)
    } else {
        i
    }
}

/// The number that a digit stands for.
pub open spec fn digit_value(c: char) -> int {
    c as int - '0' as int
}

/// The number that a sequence of digits denotes in base ten; zero for the
/// empty sequence.
pub open spec fn decimal_value(digits: Seq<char>) -> int
    decreases digits.len(),
{
    if digits.len() == 0 {
        0
    } else {
        10 * decimal_value(digits.drop_last()) + digit_value(digits.last())
    }
}

/// `s` is an optional sign followed by one or more digits and nothing else.
pub open spec fn is_integer_text(s: Seq<char>) -> bool {
    sign_len(s) < s.len() && digits_end(s, sign_len(s)) == s.len()
}

/// The number that an integer text denotes.
pub open spec fn integer_value(s: Seq<char>) -> int {
    let magnitude = decimal_value(s.subrange(sign_len(s), s.len() as int));
    if s.len() > 0 && s[0] == '-' {
        -magnitude
    } else {
        magnitude
    }
}

/// The integer that `s` is a literal of, if it is one: `s` is an integer text
/// and its value is a 64-bit signed integer.
pub open spec fn integer_literal(s: Seq<char>) -> Option<i64> {
    if is_integer_text(s) && i64::MIN <= integer_value(s) <= i64::MAX {
        Some(integer_value(s) as i64)
    } else {
        None
    }
}

/// From index `i` to its end, `s` is an exponent: `e` or `E`, an optional
/// sign, and one or more digits.
pub open spec fn is_exponent_at(s: Seq<char>, i: int) -> bool {
    let digits = if i + 1 < s.len() && is_sign(s[i + 1]) {
        i + 2
    } else {
        i + 1
    };
    &&& 0 <= i < s.len()
    &&& s[i] == 'e' || s[i] == 'E'
    &&& digits < s.len()
    &&& digits_end(s, digits) == s.len()
}

/// From index `k` to its end, `s` is a decimal number: digits with at most
/// one point among them and at least one digit, then an optional exponent.
pub open spec fn is_number_at(s: Seq<char>, k: int) -> bool {
    let whole_end = digits_end(s, k);
    let point = whole_end < s.len() && s[whole_end] == '.';
    let mantissa_end = if point {
        digits_end(s, whole_end + 1)
    } else {
        whole_end
    };
    let digit_count = if point {
        mantissa_end - k - 1
    } else {
        mantissa_end - k
    };
    &&& digit_count >= 1
    &&& mantissa_end == s.len() || is_exponent_at(s, mantissa_end)
}

/// From index `k` to its end, `s` spells a word, each letter in either case.
/// `lower` and `upper` are the word in lower and in upper case.
pub open spec fn is_word_at(s: Seq<char>, k: int, lower: Seq<char>, upper: Seq<char>) -> bool {
    &&& s.len() - k == lower.len()
    &&& forall|i: int|
        0 <= i < lower.len() ==> s[k + i] == #[trigger] lower[i] || s[k + i] == upper[i]
}

/// From index `k` to its end, `s` names an infinity or a not-a-number.
pub open spec fn is_special_at(s: Seq<char>, k: int) -> bool {
    ||| is_word_at(s, k, "inf"@, "INF"@)
    ||| is_word_at(s, k, "infinity"@, "INFINITY"@)
    ||| is_word_at(s, k, "nan"@, "NAN"@)
}

/// `s` has the form of a float literal.
pub open spec fn is_float_text(s: Seq<char>) -> bool {
    is_number_at(s, sign_len(s)) || is_special_at(s, sign_len(s))
}

/// Within a run of digits, the run's end is the same from every index.
proof fn lemma_digits_end_within(s: Seq<char>, i: int, j: int)
    requires
        0 <= i <= j <= s.len(),
        forall|k: int| i <= k < j ==> is_digit(s[k]),
    ensures
        digits_end(s, i) == digits_end(s, j),
    decreases j - i,
{
    if i < j {
        lemma_digits_end_within(s, i + 1, j);
    }
}

/// Every character before the end of a run of digits is a digit.
proof fn lemma_digits_before_end(s: Seq<char>, i: int, k: int)
    requires
        0 <= i <= k < digits_end(s, i),
    ensures
        k < s.len(),
        is_digit(s[k]),
    decreases s.len() - i,
{
    if i < s.len() && is_digit(s[i]) {
        if i < k {
            lemma_digits_before_end(s, i + 1, k);
        }
    }
}

/// The value of a sequence of digits is not negative, and no prefix of it has
/// a greater value.
proof fn lemma_decimal_value_prefix(digits: Seq<char>, k: int)
    requires
        0 <= k <= digits.len(),
        forall|i: int| 0 <= i < digits.len() ==> is_digit(digits[i]),
    ensures
        0 <= decimal_value(digits.take(k)) <= decimal_value(digits),
    decreases digits.len(),
{
    if digits.len() == 0 {
        assert(digits.take(k) =~= digits);
    } else if k == digits.len() {
        assert(digits.take(k) =~= digits);
        lemma_decimal_value_prefix(digits.drop_last(), k - 1);
    } else {
        assert(digits.drop_last().take(k) =~= digits.take(k));
        lemma_decimal_value_prefix(digits.drop_last(), k);
    }
}

/// The index at which the digits that start at `i` end.
fn scan_digits(token: &str, n: usize, i: usize) -> (j: usize)
    requires
        n == token@.len(),
        i <= n,
    ensures
        j == digits_end(token@, i as int),
        i <= j <= n,
{
    let mut j = i;
    while j < n && is_ascii_digit(token.get_char(j))
        invariant
            n == token@.len(),
            i <= j <= n,
            digits_end(token@, i as int) == digits_end(token@, j as int),
        decreases n - j,
    {
        j += 1;
    }
    j
}

/// The number that a digit stands for.
fn digit_of(c: char) -> (d: u64)
    requires
        is_digit(c),
    ensures
        d == digit_value(c),
        d <= 9,
{
    (c as u64) - ('0' as u64)
}

/// Reads a token as an integer literal. `None` where the token has not the
/// form of one, and where its value does not fit in 64 bits.
pub fn parse_integer(token: &str) -> (r: Option<i64>)
    ensures
        r == integer_literal(token@),
{
    let n = token.unicode_len();
    if n == 0 {
        return None;
    }
    let first = token.get_char(0);
    let negative = first == '-';
    let start: usize = if first == '-' || first == '+' {
        1
    } else {
        0
    };
    if start == n {
        return None;
    }
    let limit: u64 = if negative {
        0x8000_0000_0000_0000u64
    } else {
        0x7fff_ffff_ffff_ffffu64
    };
    let ghost digits = token@.subrange(start as int, n as int);
    let mut acc: u64 = 0;
    let mut i = start;
    while i < n
        invariant
            n == token@.len(),
            start == sign_len(token@),
            start <= i <= n,
            digits == token@.subrange(start as int, n as int),
            forall|k: int| start <= k < i ==> is_digit(token@[k]),
            acc == decimal_value(token@.subrange(start as int, i as int)),
            acc <= limit,
            limit == (if negative {
                0x8000_0000_0000_0000u64
            } else {
                0x7fff_ffff_ffff_ffffu64
            }),
            negative == (token@[0] == '-'),
        decreases n - i,
    {
        let c = token.get_char(i);
        if !is_ascii_digit(c) {
            proof {
                lemma_digits_end_within(token@, start as int, i as int);
            }
            return None;
        }
        let d = digit_of(c);
        let ghost longer = token@.subrange(start as int, i + 1);
        proof {
            assert(longer.drop_last() =~= token@.subrange(start as int, i as int));
            assert(longer.last() == c);
            assert(decimal_value(longer) == 10 * acc + d);
        }
        if acc > (limit - d) / 10 {
            proof {
                assert(10 * acc + d > limit);
                if is_integer_text(token@) {
                    assert forall|k: int| 0 <= k < digits.len() implies is_digit(digits[k]) by {
                        lemma_digits_before_end(token@, start as int, start + k);
                    }
                    lemma_decimal_value_prefix(digits, i + 1 - start);
                    assert(digits.take(i + 1 - start) =~= longer);
                    assert(decimal_value(digits) > limit);
                }
            }
            return None;
        }
        acc = acc * 10 + d;
        i += 1;
    }
    proof {
        lemma_digits_end_within(token@, start as int, n as int);
        assert(token@.subrange(start as int, n as int) == digits);
    }
    if negative {
        if acc == 0x8000_0000_0000_0000u64 {
            Some(i64::MIN)
        } else {
            Some(-(acc as i64))
        }
    } else {
        Some(acc as i64)
    }
}

/// Whether the token spells a word from index `k` to its end, each letter in
/// either case.
fn spells(token: &str, n: usize, k: usize, lower: &str, upper: &str) -> (r: bool)
    requires
        n == token@.len(),
        k <= n,
        lower@.len() == upper@.len(),
    ensures
        r == is_word_at(token@, k as int, lower@, upper@),
{
    let len = lower.unicode_len();
    if n - k != len {
        return false;
    }
    let mut i: usize = 0;
    while i < len
        invariant
            n == token@.len(),
            len == lower@.len(),
            len == upper@.len(),
            n - k == len,
            i <= len,
            forall|j: int|
                0 <= j < i ==> token@[k + j] == #[trigger] lower@[j] || token@[k + j] == upper@[j],
        decreases len - i,
    {
        let c = token.get_char(k + i);
        if c != lower.get_char(i) && c != upper.get_char(i) {
            assert(!(token@[k + i] == lower@[i as int] || token@[k + i] == upper@[i as int]));
            return false;
        }
        i += 1;
    }
    true
}

/// Whether the token is an exponent from index `i` to its end.
fn is_exponent(token: &str, n: usize, i: usize) -> (r: bool)
    requires
        n == token@.len(),
        i < n,
    ensures
        r == is_exponent_at(token@, i as int),
{
    let c = token.get_char(i);
    if c != 'e' && c != 'E' {
        return false;
    }
    let mut digits = i + 1;
    if digits < n {
        let sign = token.get_char(digits);
        if sign == '+' || sign == '-' {
            digits += 1;
        }
    }
    if digits >= n {
        return false;
    }
    scan_digits(token, n, digits) == n
}

/// Whether a token has the form of a float literal.
pub fn is_float_literal(token: &str) -> (r: bool)
    ensures
        r == is_float_text(token@),
{
    proof {
        reveal_strlit("inf");
        reveal_strlit("INF");
        reveal_strlit("infinity");
        reveal_strlit("INFINITY");
        reveal_strlit("nan");
        reveal_strlit("NAN");
    }
    let n = token.unicode_len();
    let mut k: usize = 0;
    if n > 0 {
        let first = token.get_char(0);
        if first == '+' || first == '-' {
            k = 1;
        }
    }
    if spells(token, n, k, "inf", "INF") || spells(token, n, k, "infinity", "INFINITY") || spells(
        token,
        n,
        k,
        "nan",
        "NAN",
    ) {
        return true;
    }
    let whole_end = scan_digits(token, n, k);
    let mut mantissa_end = whole_end;
    let mut digit_count = whole_end - k;
    if whole_end < n && token.get_char(whole_end) == '.' {
        mantissa_end = scan_digits(token, n, whole_end + 1);
        digit_count = mantissa_end - k - 1;
    }
    if digit_count == 0 {
        return false;
    }
    if mantissa_end == n {
        return true;
    }
    is_exponent(token, n, mantissa_end)
}

} // verus!
