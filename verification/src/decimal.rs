//! Decimal numerals: rendering unsigned integers and reading them back.

use vstd::prelude::*;
use vstd::string::*;

verus! {

/// The character for the digit `d`.
pub open spec fn digit_char(d: nat) -> char {
    ((48 + d) as u8) as char
}

/// Whether `c` is one of `0` to `9`.
pub open spec fn is_digit(c: char) -> bool {
    '0' <= c && c <= '9'
}

/// The decimal numeral of `n`: no sign, and no leading zero except for zero
/// itself.
pub open spec fn decimal(n: nat) -> Seq<char>
    decreases n,
{
    if n < 10 {
        seq![digit_char(n)]
    } else {
        decimal(n / 10).push(digit_char(n % 10))
    }
}

/// Whether `s` holds digits only.
pub open spec fn all_digits(s: Seq<char>) -> bool {
    forall|i: int| 0 <= i < s.len() ==> is_digit(#[trigger] s[i])
}

/// The number a run of digits stands for, leading zeros allowed.
pub open spec fn digits_value(s: Seq<char>) -> nat
    decreases s.len(),
{
    if s.len() == 0 {
        0
    } else {
        digits_value(s.drop_last()) * 10 + (s.last() as nat - 48) as nat
    }
}

/// What a numeral stands for when read as an unsigned integer no greater
/// than `max`: an optional `+`, then at least one digit, and nothing else.
pub open spec fn parse_unsigned(s: Seq<char>, max: nat) -> Option<nat> {
    let digits = if s.len() > 0 && s[0] == '+' {
        s.skip(1)
    } else {
        s
    };
    if digits.len() == 0 || !all_digits(digits) || digits_value(digits) > max {
        None
    } else {
        Some(digits_value(digits))
    }
}

/// The decimal numeral of an integer: a minus sign before the numeral of
/// its magnitude where it is negative.
pub open spec fn signed_decimal(n: int) -> Seq<char> {
    if n < 0 {
        seq!['-'] + decimal((-n) as nat)
    } else {
        decimal(n as nat)
    }
}

/// What a run of characters stands for when read as digits only, no
/// greater than `max`.
pub open spec fn parse_digits_spec(digits: Seq<char>, max: nat) -> Option<nat> {
    if digits.len() == 0 || !all_digits(digits) || digits_value(digits) > max {
        None
    } else {
        Some(digits_value(digits))
    }
}

/// What a numeral stands for when read as a signed 64-bit integer: an
/// optional `+` or `-`, then at least one digit, and nothing else.
pub open spec fn parse_signed(s: Seq<char>) -> Option<int> {
    if s.len() > 0 && s[0] == '-' {
        match parse_digits_spec(s.skip(1), 0x8000_0000_0000_0000) {
            Some(n) => Some(-(n as int)),
            None => None,
        }
    } else {
        match parse_unsigned(s, 0x7fff_ffff_ffff_ffff) {
            Some(n) => Some(n as int),
            None => None,
        }
    }
}

/// A decimal numeral is a non-empty run of digits that stands for its number.
pub proof fn lemma_decimal(n: nat)
    ensures
        decimal(n).len() >= 1,
        all_digits(decimal(n)),
        digits_value(decimal(n)) == n,
    decreases n,
{
    if n < 10 {
        let s = decimal(n);
        assert(s.drop_last() =~= Seq::<char>::empty());
        assert(digits_value(s.drop_last()) == 0);
    } else {
        lemma_decimal(n / 10);
        let s = decimal(n);
        assert(s.drop_last() =~= decimal(n / 10));
    }
}

/// A decimal numeral reads back as its number.
pub proof fn lemma_parse_decimal(n: nat, max: nat)
    requires
        n <= max,
    ensures
        parse_unsigned(decimal(n), max) == Some(n),
{
    lemma_decimal(n);
    assert(is_digit(decimal(n)[0]));
}

/// A longer run of digits stands for a number at least as large as any run
/// it begins with stands for.
pub proof fn lemma_digits_value_of_prefix(s: Seq<char>, n: int)
    requires
        0 <= n <= s.len(),
        all_digits(s),
    ensures
        digits_value(s.take(n)) <= digits_value(s),
    decreases s.len(),
{
    if n == s.len() {
        assert(s.take(n) =~= s);
    } else {
        assert(is_digit(s.last()));
        assert(all_digits(s.drop_last())) by {
            assert forall|i: int| 0 <= i < s.drop_last().len() implies is_digit(
                #[trigger] s.drop_last()[i],
            ) by {
                assert(s.drop_last()[i] == s[i]);
            }
        }
        lemma_digits_value_of_prefix(s.drop_last(), n);
        assert(s.drop_last().take(n) =~= s.take(n));
    }
}

/// The one-character text of a digit.
fn digit_text(d: u64) -> (text: &'static str)
    requires
        d < 10,
    ensures
        text@ == seq![digit_char(d as nat)],
{
    proof {
        reveal_strlit("0");
        reveal_strlit("1");
        reveal_strlit("2");
        reveal_strlit("3");
        reveal_strlit("4");
        reveal_strlit("5");
        reveal_strlit("6");
        reveal_strlit("7");
        reveal_strlit("8");
        reveal_strlit("9");
    }
    let text = if d == 0 {
        "0"
    } else if d == 1 {
        "1"
    } else if d == 2 {
        "2"
    } else if d == 3 {
        "3"
    } else if d == 4 {
        "4"
    } else if d == 5 {
        "5"
    } else if d == 6 {
        "6"
    } else if d == 7 {
        "7"
    } else if d == 8 {
        "8"
    } else {
        "9"
    };
    assert(text@ =~= seq![digit_char(d as nat)]);
    text
}

/// Appends the decimal numeral of `n` to `out`.
pub fn push_decimal(out: &mut String, n: u64)
    ensures
        final(out)@ == old(out)@ + decimal(n as nat),
    decreases n,
{
    if n >= 10 {
        push_decimal(out, n / 10);
    }
    out.append(digit_text(n % 10));
    assert(out@ =~= old(out)@ + decimal(n as nat));
}

/// The decimal numeral of `n`.
pub fn to_decimal(n: u64) -> (text: String)
    ensures
        text@ == decimal(n as nat),
{
    let mut out = String::new();
    push_decimal(&mut out, n);
    assert(out@ =~= decimal(n as nat));
    out
}

/// Reads the characters of `s` from index `from` up to `to` as digits
/// only, standing for a number no greater than `max`.
pub fn parse_digits(s: &str, from: usize, to: usize, max: u64) -> (value: Option<u64>)
    requires
        from <= to <= s@.len(),
    ensures
        value == match parse_digits_spec(s@.subrange(from as int, to as int), max as nat) {
            None => None::<u64>,
            Some(n) => Some(n as u64),
        },
{
    let ghost digits = s@.subrange(from as int, to as int);
    if from == to {
        return None;
    }
    let mut i: usize = from;
    let mut value: u64 = 0;
    assert(digits.take(0) =~= Seq::<char>::empty());
    while i < to
        invariant
            from <= i <= to <= s@.len(),
            digits == s@.subrange(from as int, to as int),
            all_digits(digits.take(i - from)),
            value == digits_value(digits.take(i - from)),
            value <= max,
        decreases to - i,
    {
        let c = s.get_char(i);
        let ghost seen = digits.take(i - from);
        let ghost next = digits.take(i - from + 1);
        assert(next.drop_last() =~= seen);
        assert(next.last() == c);
        if !(c >= '0' && c <= '9') {
            assert(!is_digit(digits[i - from]));
            return None;
        }
        let d: u64 = (c as u8 - 48) as u64;
        assert(all_digits(next)) by {
            assert forall|k: int| 0 <= k < next.len() implies is_digit(#[trigger] next[k]) by {
                if k < seen.len() {
                    assert(seen[k] == next[k]);
                }
            }
        }
        if value > max / 10 || d > max - value * 10 {
            proof {
                assert(digits_value(next) > max);
                if all_digits(digits) {
                    lemma_digits_value_of_prefix(digits, i - from + 1);
                }
            }
            return None;
        }
        value = value * 10 + d;
        i += 1;
    }
    assert(digits.take(to - from) =~= digits);
    Some(value)
}

/// Reads the characters of `s` from index `from` up to `to` as an unsigned
/// integer no greater than `max`.
pub fn parse_decimal(s: &str, from: usize, to: usize, max: u64) -> (value: Option<u64>)
    requires
        from <= to <= s@.len(),
    ensures
        value == match parse_unsigned(s@.subrange(from as int, to as int), max as nat) {
            None => None::<u64>,
            Some(n) => Some(n as u64),
        },
{
    let ghost text = s@.subrange(from as int, to as int);
    let start = if from < to && s.get_char(from) == '+' {
        from + 1
    } else {
        from
    };
    assert(s@.subrange(start as int, to as int) =~= if text.len() > 0 && text[0] == '+' {
        text.skip(1)
    } else {
        text
    });
    parse_digits(s, start, to, max)
}

/// Reads the whole of `s` as a signed 64-bit integer.
pub fn parse_signed_decimal(s: &str) -> (value: Option<i64>)
    ensures
        value == match parse_signed(s@) {
            None => None::<i64>,
            Some(n) => Some(n as i64),
        },
{
    let len = s.unicode_len();
    if len > 0 && s.get_char(0) == '-' {
        assert(s@.subrange(1, len as int) =~= s@.skip(1));
        match parse_digits(s, 1, len, 0x8000_0000_0000_0000) {
            Some(magnitude) => {
                if magnitude == 0x8000_0000_0000_0000 {
                    Some(i64::MIN)
                } else {
                    Some(-(magnitude as i64))
                }
            },
            None => None,
        }
    } else {
        assert(s@.subrange(0, len as int) =~= s@);
        match parse_decimal(s, 0, len, 0x7fff_ffff_ffff_ffff) {
            Some(value) => Some(value as i64),
            None => None,
        }
    }
}

/// Wraps `itoa::Buffer::format` for an unsigned 64-bit integer, which
/// prints the integer's decimal numeral.
#[verifier::external_body]
pub(crate) fn itoa_u64(value: u64) -> (text: String)
    ensures
        text@ == decimal(value as nat),
{
    itoa::Buffer::new().format(value).to_owned()
}

/// Wraps `itoa::Buffer::format` for a signed 64-bit integer, which prints
/// the integer's decimal numeral, with a minus sign where it is negative.
#[verifier::external_body]
pub(crate) fn itoa_i64(value: i64) -> (text: String)
    ensures
        text@ == signed_decimal(value as int),
{
    itoa::Buffer::new().format(value).to_owned()
}

} // verus!
