//! Decimal numerals: reading an unsigned number from text, and writing one.

use vstd::prelude::*;
use vstd::string::*;
use vstd::utf8::is_ascii_chars;

verus! {

/// The byte of the plus sign.
const PLUS: u8 = 43;

/// The byte of the digit 0.
const ZERO: u8 = 48;

/// The byte of the digit 9.
const NINE: u8 = 57;

/// An ASCII decimal digit.
pub open spec fn is_digit(c: char) -> bool {
    '0' <= c && c <= '9'
}

/// The number a decimal digit stands for.
pub open spec fn digit_value(c: char) -> int {
    c as int - '0' as int
}

/// Every character of `s` is a decimal digit.
pub open spec fn all_digits(s: Seq<char>) -> bool {
    forall|i: int| 0 <= i < s.len() ==> is_digit(#[trigger] s[i])
}

/// The number that the digits of `s` spell in base ten, most significant
/// digit first. The empty sequence spells 0.
pub open spec fn decimal_value(s: Seq<char>) -> int
    decreases s.len(),
{
    if s.len() == 0 {
        0
    } else {
        10 * decimal_value(s.drop_last()) + digit_value(s.last())
    }
}

/// The digits of an unsigned numeral: the text itself, without the plus sign
/// that may stand in front of it.
pub open spec fn numeral_digits(s: Seq<char>) -> Seq<char> {
    if s.len() > 0 && s[0] == '+' {
        s.subrange(1, s.len() as int)
    } else {
        s
    }
}

/// An unsigned numeral is an optional plus sign followed by one decimal digit
/// or more, and nothing else: no blanks, no minus sign, no separators.
pub open spec fn is_numeral(s: Seq<char>) -> bool {
    numeral_digits(s).len() > 0 && all_digits(numeral_digits(s))
}

/// The `u32` that `s` denotes: `None` where `s` is no unsigned numeral or
/// denotes a number above `u32::MAX`.
pub open spec fn numeral_u32(s: Seq<char>) -> Option<u32> {
    if is_numeral(s) && decimal_value(numeral_digits(s)) <= u32::MAX {
        Some(decimal_value(numeral_digits(s)) as u32)
    } else {
        None
    }
}

/// The character that writes the digit `d`.
pub open spec fn digit_char(d: int) -> char {
    if d == 0 {
        '0'
    } else if d == 1 {
        '1'
    } else if d == 2 {
        '2'
    } else if d == 3 {
        '3'
    } else if d == 4 {
        '4'
    } else if d == 5 {
        '5'
    } else if d == 6 {
        '6'
    } else if d == 7 {
        '7'
    } else if d == 8 {
        '8'
    } else {
        '9'
    }
}

/// `n` written in base ten without leading zeros; 0 is written "0".
pub open spec fn decimal_text(n: nat) -> Seq<char>
    decreases n,
{
    if n < 10 {
        seq![digit_char(n as int)]
    } else {
        decimal_text(n / 10).push(digit_char((n % 10) as int))
    }
}

/// The character of a digit is a digit, and stands for it.
pub proof fn lemma_digit_char_reads_back(d: int)
    requires
        0 <= d <= 9,
    ensures
        is_digit(digit_char(d)),
        digit_value(digit_char(d)) == d,
{
}

/// A numeral is made of ASCII characters.
proof fn lemma_numeral_is_ascii(s: Seq<char>)
    requires
        is_numeral(s),
    ensures
        is_ascii_chars(s),
{
    let digits = numeral_digits(s);
    assert forall|i: int| 0 <= i < s.len() implies '\0' <= #[trigger] s[i] <= '\u{7f}' by {
        if s[0] == '+' {
            if i > 0 {
                assert(s[i] == digits[i - 1]);
            }
        } else {
            assert(s[i] == digits[i]);
        }
    }
}

/// A run of digits spells a number that is not negative, and no prefix of it
/// spells a larger one.
pub proof fn lemma_decimal_value_prefix(s: Seq<char>, k: int)
    requires
        all_digits(s),
        0 <= k <= s.len(),
    ensures
        0 <= decimal_value(s.take(k)) <= decimal_value(s),
    decreases s.len() - k,
{
    if k == s.len() {
        assert(s.take(k) == s);
        lemma_decimal_value_nonnegative(s);
    } else {
        lemma_decimal_value_prefix(s, k + 1);
        let t = s.take(k + 1);
        assert(t.drop_last() == s.take(k));
        assert(is_digit(s[k]));
        assert(t.last() == s[k]);
        lemma_decimal_value_nonnegative(s.take(k));
    }
}

/// A run of digits spells a number that is not negative.
proof fn lemma_decimal_value_nonnegative(s: Seq<char>)
    requires
        all_digits(s),
    ensures
        0 <= decimal_value(s),
    decreases s.len(),
{
    if s.len() > 0 {
        assert(is_digit(s.last()));
        lemma_decimal_value_nonnegative(s.drop_last());
    }
}

/// A number that is written is read back: its text is made of digits, at
/// least one, these spell the number, and where the number fits in 32 bits
/// the text is a numeral for it.
pub proof fn lemma_decimal_text_reads_back(n: nat)
    ensures
        decimal_text(n).len() > 0,
        all_digits(decimal_text(n)),
        decimal_value(decimal_text(n)) == n,
        n <= u32::MAX ==> numeral_u32(decimal_text(n)) == Some(n as u32),
    decreases n,
{
    let t = decimal_text(n);
    if n < 10 {
        assert(t.drop_last().len() == 0);
        assert(decimal_value(t.drop_last()) == 0);
    } else {
        lemma_decimal_text_reads_back(n / 10);
        assert(t.drop_last() == decimal_text(n / 10));
        assert(t.last() == digit_char((n % 10) as int));
    }
    assert(is_digit(t[0]));
    assert(numeral_digits(t) == t);
}

/// Whether `c` is an ASCII decimal digit.
pub fn char_is_digit(c: char) -> (b: bool)
    ensures
        b == is_digit(c),
{
    '0' <= c && c <= '9'
}

/// Reads an unsigned base-ten numeral as a `u32`.
///
/// The text is an optional `+` followed by digits only; it is rejected where
/// it holds anything else, holds no digit, or denotes a number that does not
/// fit in 32 bits. Leading zeros are accepted.
pub fn from_str(s: &str) -> (r: Option<u32>)
    ensures
        r == numeral_u32(s@),
{
    if !s.is_ascii() {
        proof {
            if is_numeral(s@) {
                lemma_numeral_is_ascii(s@);
            }
        }
        return None;
    }
    let bytes = s.as_bytes();
    proof {
        is_ascii_spec_bytes(s);
    }
    let n: usize = bytes.len();
    let mut i: usize = 0;
    if n > 0 && bytes[0] == PLUS {
        assert(s@[0] == '+');
        i = 1;
    }
    if i == n {
        return None;
    }
    let start: usize = i;
    let ghost digits = numeral_digits(s@);
    let mut acc: u64 = 0;
    assert(digits.take(0).len() == 0);
    while i < n
        invariant
            start <= i <= n,
            n == s@.len(),
            is_ascii_chars(s@),
            bytes@ == Seq::new(s@.len(), |k: int| s@[k] as u8),
            digits == s@.subrange(start as int, n as int),
            digits == numeral_digits(s@),
            all_digits(digits.take(i - start)),
            acc == decimal_value(digits.take(i - start)),
            acc <= u32::MAX,
        decreases n - i,
    {
        let b: u8 = bytes[i];
        let ghost c = s@[i as int];
        assert(c == digits[i - start]);
        if b < ZERO || b > NINE {
            return None;
        }
        let next: u64 = acc * 10 + (b - ZERO) as u64;
        proof {
            let t = digits.take(i + 1 - start);
            assert(t.drop_last() == digits.take(i - start));
            assert(t.last() == c);
            assert(all_digits(t));
            if all_digits(digits) {
                lemma_decimal_value_prefix(digits, i + 1 - start);
            }
        }
        if next > u32::MAX as u64 {
            return None;
        }
        acc = next;
        i += 1;
    }
    assert(digits.take(n - start) == digits);
    Some(acc as u32)
}

/// The one-character text that writes the digit `d`.
fn digit_text(d: usize) -> (t: &'static str)
    requires
        d < 10,
    ensures
        t@ == seq![digit_char(d as int)],
{
    proof {
        reveal_strlit("0");
        reveal_strlit("1");
        reveal_strlit("2");
        reveal_strlit("3");
        reveal_strlit("4");
        reveal_strlit("5");
        reveal_strlit("6");
        reveal_strlit("7");
        reveal_strlit("8");
        reveal_strlit("9");
    }
    match d {
        0 => "0",
        1 => "1",
        2 => "2",
        3 => "3",
        4 => "4",
        5 => "5",
        6 => "6",
        7 => "7",
        8 => "8",
        _ => "9",
    }
}

/// Appends `n`, written in base ten, to `out`.
pub fn append_decimal(out: &mut String, n: usize)
    ensures
        final(out)@ == old(out)@ + decimal_text(n as nat),
    decreases n,
{
    if n >= 10 {
        append_decimal(out, n / 10);
    }
    out.append(digit_text(n % 10));
}

} // verus!
