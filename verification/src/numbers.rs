//! Reading and writing of numbers in decimal notation.

use crate::text;
use crate::text::{chars_of, str_eq_ignore_ascii_case, string_of, Text};
use vstd::prelude::*;

verus! {

// ---------------------------------------------------------------------------
// Integers
// ---------------------------------------------------------------------------

/// Whether `s` consists of one or more decimal digits.
pub open spec fn is_digits(s: Text) -> bool {
    s.len() > 0 && forall|i: int| 0 <= i < s.len() ==> text::is_digit(#[trigger] s[i])
}

/// The number that a sequence of digits denotes.
pub open spec fn digits_value(s: Text) -> int
    decreases s.len(),
{
    if s.len() == 0 {
        0
    } else {
        10 * digits_value(s.drop_last()) + text::digit_value(s.last())
    }
}

/// The number that `s` denotes: digits after an optional sign, of which a
/// minus sign is admitted only where `signed`.
pub open spec fn int_text(s: Text, signed: bool) -> Option<int> {
    if s.len() > 0 && s[0] == '+' {
        if is_digits(s.skip(1)) {
            Some(digits_value(s.skip(1)))
        } else {
            None
        }
    } else if signed && s.len() > 0 && s[0] == '-' {
        if is_digits(s.skip(1)) {
            Some(-digits_value(s.skip(1)))
        } else {
            None
        }
    } else if is_digits(s) {
        Some(digits_value(s))
    } else {
        None
    }
}

/// The `i64` that `s` denotes, where it denotes one.
pub open spec fn i64_text(s: Text) -> Option<i64> {
    match int_text(s, true) {
        Some(v) if i64::MIN <= v <= i64::MAX => Some(v as i64),
        _ => None,
    }
}

/// The `u64` that `s` denotes, where it denotes one.
pub open spec fn u64_text(s: Text) -> Option<u64> {
    match int_text(s, false) {
        Some(v) if v <= u64::MAX => Some(v as u64),
        _ => None,
    }
}

/// The `u16` that `s` denotes, where it denotes one.
pub open spec fn u16_text(s: Text) -> Option<u16> {
    match int_text(s, false) {
        Some(v) if v <= u16::MAX => Some(v as u16),
        _ => None,
    }
}

proof fn lemma_digits_value_grows(s: Text, i: int)
    requires
        0 <= i <= s.len(),
        forall|k: int| 0 <= k < s.len() ==> text::is_digit(#[trigger] s[k]),
    ensures
        0 <= digits_value(s.take(i)) <= digits_value(s),
    decreases s.len(),
{
    if i == s.len() {
        assert(s.take(i) =~= s);
        if s.len() > 0 {
            lemma_digits_value_grows(s.drop_last(), s.len() - 1);
            assert(s.drop_last().take(s.len() - 1) =~= s.drop_last());
            assert(text::is_digit(s[s.len() - 1]));
        }
    } else {
        lemma_digits_value_grows(s.drop_last(), i);
        assert(s.drop_last().take(i) =~= s.take(i));
        assert(text::is_digit(s[s.len() - 1]));
    }
}

/// The value of the digits from `from` on, where they are digits and fit.
fn magnitude(cs: &Vec<char>, from: usize) -> (r: Option<u64>)
    requires
        from <= cs@.len(),
    ensures
        match r {
            Some(v) => is_digits(cs@.skip(from as int)) && digits_value(cs@.skip(from as int)) == v,
            None => is_digits(cs@.skip(from as int)) ==> digits_value(cs@.skip(from as int))
                > u64::MAX,
        },
{
    let ghost s = cs@.skip(from as int);
    if from == cs.len() {
        return None;
    }
    let mut i: usize = from;
    let mut acc: u64 = 0;
    let mut over = false;
    assert(s.take(0) =~= Seq::<char>::empty());
    while i < cs.len()
        invariant
            from <= i <= cs@.len(),
            s == cs@.skip(from as int),
            forall|k: int| 0 <= k < i - from ==> text::is_digit(#[trigger] s[k]),
            !over ==> acc == digits_value(s.take(i - from)),
            over ==> digits_value(s.take(i - from)) > u64::MAX,
        decreases cs@.len() - i,
    {
        let c = cs[i];
        assert(s[i - from] == c);
        if !('0' <= c && c <= '9') {
            return None;
        }
        let d: u64 = (c as u32 - 48) as u64;
        proof {
            assert(s.take(i - from + 1).drop_last() =~= s.take(i - from));
            assert(forall|k: int| 0 <= k < i - from + 1 ==> text::is_digit(#[trigger] s.take(i - from + 1)[k]));
        }
        if !over {
            if acc > (u64::MAX - d) / 10 {
                over = true;
            } else {
                acc = acc * 10 + d;
            }
        }
        i = i + 1;
    }
    assert(s.take(i - from) =~= s);
    if over {
        None
    } else {
        Some(acc)
    }
}

/// The `i64` that a string denotes.
pub fn parse_i64(s: &str) -> (r: Option<i64>)
    ensures
        r == i64_text(s@),
{
    let cs = chars_of(s);
    assert(s@.skip(0) =~= s@);
    if cs.len() > 0 && cs[0] == '-' {
        match magnitude(&cs, 1) {
            Some(v) => {
                if v <= 9223372036854775807 {
                    Some(-(v as i64))
                } else if v == 9223372036854775808 {
                    Some(i64::MIN)
                } else {
                    None
                }
            },
            None => None,
        }
    } else {
        let from: usize = if cs.len() > 0 && cs[0] == '+' {
            1
        } else {
            0
        };
        proof {
            if is_digits(s@.skip(from as int)) {
                lemma_digits_value_grows(s@.skip(from as int), 0);
            }
        }
        match magnitude(&cs, from) {
            Some(v) => if v <= 9223372036854775807 {
                Some(v as i64)
            } else {
                None
            },
            None => None,
        }
    }
}

/// The `u64` that a string denotes.
pub fn parse_u64(s: &str) -> (r: Option<u64>)
    ensures
        r == u64_text(s@),
{
    let cs = chars_of(s);
    assert(s@.skip(0) =~= s@);
    let from: usize = if cs.len() > 0 && cs[0] == '+' {
        1
    } else {
        0
    };
    magnitude(&cs, from)
}

/// The `u16` that a string denotes.
pub fn parse_u16(s: &str) -> (r: Option<u16>)
    ensures
        r == u16_text(s@),
{
    proof {
        if is_digits(s@) {
            lemma_digits_value_grows(s@, 0);
        }
        if s@.len() > 0 && is_digits(s@.skip(1)) {
            lemma_digits_value_grows(s@.skip(1), 0);
        }
    }
    match parse_u64(s) {
        Some(v) => if v <= 65535 {
            Some(v as u16)
        } else {
            None
        },
        None => None,
    }
}

/// The digit that stands for `d`.
pub open spec fn digit_char(d: int) -> char {
    ('0' as int + d) as char
}

/// The decimal notation of `n`.
pub open spec fn decimal(n: nat) -> Text
    decreases n,
{
    if n < 10 {
        seq![digit_char(n as int)]
    } else {
        decimal(n / 10).push(digit_char((n % 10) as int))
    }
}

/// The decimal notation of `n`.
pub fn u64_to_string(n: u64) -> (r: String)
    ensures
        r@ == decimal(n as nat),
    decreases n,
{
    let d: u8 = (n % 10) as u8;
    let c = (48 + d) as char;
    assert(c == digit_char((n % 10) as int));
    let mut r = if n < 10 {
        String::new()
    } else {
        u64_to_string(n / 10)
    };
    r.push(c);
    proof {
        if n < 10 {
            assert(r@ =~= seq![c]);
        }
    }
    r
}

/// The decimal notation of a number denotes that number.
pub proof fn law_decimal_denotes(n: nat)
    ensures
        is_digits(decimal(n)),
        digits_value(decimal(n)) == n,
    decreases n,
{
    if n >= 10 {
        law_decimal_denotes(n / 10);
        assert(decimal(n).drop_last() =~= decimal(n / 10));
    } else {
        assert(decimal(n).drop_last() =~= Seq::<char>::empty());
        assert(digits_value(Seq::<char>::empty()) == 0);
    }
}

// ---------------------------------------------------------------------------
// Floating-point notation
// ---------------------------------------------------------------------------

/// The first position from `i` on that holds no digit.
pub open spec fn digits_end(s: Text, i: int) -> int
    decreases s.len() - i,
{
    if 0 <= i < s.len() && text::is_digit(s[i]) {
        digits_end(s, i + 1)
    } else {
        i
    }
}

/// Whether `s` is a decimal number with an optional fraction and an optional
/// exponent, without a sign: at least one digit before or after the point.
pub open spec fn is_unsigned_decimal(s: Text) -> bool {
    let a = digits_end(s, 0);
    let point = a < s.len() && s[a] == '.';
    let b = if point {
        digits_end(s, a + 1)
    } else {
        a
    };
    let mantissa = a > 0 || (point && b > a + 1);
    let exponent = b < s.len() && (s[b] == 'e' || s[b] == 'E');
    let c = if b + 1 < s.len() && (s[b + 1] == '+' || s[b + 1] == '-') {
        b + 2
    } else {
        b + 1
    };
    mantissa && (b == s.len() || (exponent && digits_end(s, c) == s.len() && c < s.len()))
}

/// Whether `s` is a floating-point literal: a decimal number, or one of the
/// words for infinity and not-a-number in any case, after an optional sign.
pub open spec fn is_float_text(s: Text) -> bool {
    let u = if s.len() > 0 && (s[0] == '+' || s[0] == '-') {
        s.skip(1)
    } else {
        s
    };
    ||| is_unsigned_decimal(u)
    ||| text::eq_ignore_case(u, "inf"@)
    ||| text::eq_ignore_case(u, "infinity"@)
    ||| text::eq_ignore_case(u, "nan"@)
}

fn skip_digits(cs: &Vec<char>, from: usize) -> (r: usize)
    requires
        from <= cs@.len(),
    ensures
        from <= r <= cs@.len(),
        r == digits_end(cs@, from as int),
{
    let mut i: usize = from;
    while i < cs.len() && '0' <= cs[i] && cs[i] <= '9'
        invariant
            from <= i <= cs@.len(),
            digits_end(cs@, from as int) == digits_end(cs@, i as int),
        decreases cs@.len() - i,
    {
        i = i + 1;
    }
    i
}

fn unsigned_decimal(cs: &Vec<char>) -> (r: bool)
    ensures
        r == is_unsigned_decimal(cs@),
{
    let n: usize = cs.len();
    let a = skip_digits(cs, 0);
    let point = a < n && cs[a] == '.';
    let b = if point {
        skip_digits(cs, a + 1)
    } else {
        a
    };
    if !(a > 0 || (point && b > a + 1)) {
        return false;
    }
    if b == n {
        return true;
    }
    if !(cs[b] == 'e' || cs[b] == 'E') {
        return false;
    }
    let c = if n - b > 1 && (cs[b + 1] == '+' || cs[b + 1] == '-') {
        b + 2
    } else {
        b + 1
    };
    c < n && skip_digits(cs, c) == n
}

/// Whether a string is a floating-point literal.
pub fn is_float_literal(s: &str) -> (r: bool)
    ensures
        r == is_float_text(s@),
{
    let cs = chars_of(s);
    let from: usize = if cs.len() > 0 && (cs[0] == '+' || cs[0] == '-') {
        1
    } else {
        0
    };
    let u = string_of(&cs, from, cs.len());
    assert(s@.subrange(from as int, s@.len() as int) =~= if from == 1 {
        s@.skip(1)
    } else {
        s@
    });
    let us = chars_of(u.as_str());
    unsigned_decimal(&us) || str_eq_ignore_ascii_case(u.as_str(), "inf") || str_eq_ignore_ascii_case(
        u.as_str(),
        "infinity",
    ) || str_eq_ignore_ascii_case(u.as_str(), "nan")
}

/// Whether `s` is an integer or floating-point literal.
pub open spec fn is_number_text(s: Text) -> bool {
    i64_text(s) is Some || is_float_text(s)
}

} // verus!
