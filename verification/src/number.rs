//! Unsigned decimal numbers as text.

use vstd::prelude::*;

use crate::text::skip_chars;

verus! {

broadcast use vstd::string::group_string_axioms;

/// Whether `c` is a decimal digit.
pub open spec fn is_digit(c: char) -> bool {
    '0' <= c <= '9'
}

/// The value of a decimal digit.
pub open spec fn digit_value(c: char) -> nat {
    (c as u32 - '0' as u32) as nat
}

/// Whether every character is a decimal digit.
pub open spec fn all_digits(s: Seq<char>) -> bool {
    forall|i: int| 0 <= i < s.len() ==> is_digit(#[trigger] s[i])
}

/// The number that a run of digits denotes, most significant digit first.
pub open spec fn digits_value(s: Seq<char>) -> nat
    decreases s.len(),
{
    if s.len() == 0 {
        0
    } else {
        10 * digits_value(s.drop_last()) + digit_value(s.last())
    }
}

/// A number as text: an optional `+`, then one or more digits, with a value
/// of at most `max`. Leading zeros are allowed; anything else is no number.
pub open spec fn number(s: Seq<char>, max: nat) -> Option<nat> {
    let digits = if s.len() > 0 && s[0] == '+' {
        s.skip(1)
    } else {
        s
    };
    if digits.len() > 0 && all_digits(digits) && digits_value(digits) <= max {
        Some(digits_value(digits))
    } else {
        None
    }
}

proof fn digits_value_grows(s: Seq<char>, i: int)
    requires
        0 <= i <= s.len(),
    ensures
        digits_value(s.take(i)) <= digits_value(s),
    decreases s.len(),
{
    if i == s.len() {
        assert(s.take(i) =~= s);
    } else {
        digits_value_grows(s.drop_last(), i);
        assert(s.drop_last().take(i) =~= s.take(i));
    }
}

/// Reads a number of at most `max`; see [`number`].
pub fn parse_number(s: &[char], max: u64) -> (r: Option<u64>)
    ensures
        match r {
            Some(n) => number(s@, max as nat) == Some(n as nat),
            None => number(s@, max as nat) is None,
        },
{
    let digits = if s.len() > 0 && s[0] == '+' {
        skip_chars(s, 1)
    } else {
        s
    };
    if digits.len() == 0 {
        return None;
    }
    let mut value: u64 = 0;
    let mut i: usize = 0;
    while i < digits.len()
        invariant
            i <= digits@.len(),
            all_digits(digits@.take(i as int)),
            value == digits_value(digits@.take(i as int)),
            value <= max,
            digits@.len() > 0,
            digits@ == if s@.len() > 0 && s@[0] == '+' {
                s@.skip(1)
            } else {
                s@
            },
        decreases digits@.len() - i,
    {
        let c: char = digits[i];
        proof {
            assert(digits@.take(i + 1).drop_last() =~= digits@.take(i as int));
            digits_value_grows(digits@, i + 1);
        }
        if !('0' <= c && c <= '9') {
            assert(!is_digit(digits@[i as int]));
            return None;
        }
        let d: u64 = (c as u32 - '0' as u32) as u64;
        if value > max / 10 || d > max - value * 10 {
            return None;
        }
        value = value * 10 + d;
        i = i + 1;
    }
    assert(digits@.take(digits@.len() as int) =~= digits@);
    Some(value)
}

/// A number that fits in 16 bits.
pub open spec fn number_u16(s: Seq<char>) -> Option<u16> {
    match number(s, 0xffff) {
        Some(n) => Some(n as u16),
        None => None,
    }
}

/// Reads a number that fits in 16 bits, such as a port.
pub fn parse_u16(s: &[char]) -> (r: Option<u16>)
    ensures
        r == number_u16(s@),
{
    match parse_number(s, 0xffff) {
        Some(n) => Some(n as u16),
        None => None,
    }
}

/// A number that fits in 8 bits.
pub open spec fn number_u8(s: Seq<char>) -> Option<u8> {
    match number(s, 0xff) {
        Some(n) => Some(n as u8),
        None => None,
    }
}

/// Reads a number that fits in 8 bits.
pub fn parse_u8(s: &[char]) -> (r: Option<u8>)
    ensures
        r == number_u8(s@),
{
    match parse_number(s, 0xff) {
        Some(n) => Some(n as u8),
        None => None,
    }
}

/// The digit of a value below ten.
pub open spec fn digit_char(d: nat) -> char {
    ('0' as u32 + d) as char
}

/// A number in decimal, without sign or leading zeros.
pub open spec fn decimal(n: nat) -> Seq<char>
    decreases n,
{
    if n < 10 {
        seq![digit_char(n)]
    } else {
        decimal(n / 10).push(digit_char(n % 10))
    }
}

/// Appends a number in decimal.
pub fn push_decimal(out: &mut String, n: u64)
    ensures
        final(out)@ == old(out)@ + decimal(n as nat),
    decreases n,
{
    if n >= 10 {
        push_decimal(out, n / 10);
    }
    let d: u8 = (n % 10) as u8;
    let ghost mid = out@;
    out.push((48u8 + d) as char);
    proof {
        if n < 10 {
            assert(out@ =~= old(out)@ + decimal(n as nat));
        } else {
            assert(out@ =~= old(out)@ + decimal(n as nat));
        }
    }
}

/// What [`decimal`] writes are digits that denote the number.
pub proof fn decimal_denotes(n: nat)
    ensures
        all_digits(decimal(n)),
        decimal(n).len() > 0,
        digits_value(decimal(n)) == n,
    decreases n,
{
    reveal_with_fuel(digits_value, 2);
    if n < 10 {
        assert(seq![digit_char(n)].drop_last() =~= Seq::<char>::empty());
    } else {
        decimal_denotes(n / 10);
        assert(decimal(n).drop_last() =~= decimal(n / 10));
    }
}

/// Reading back a written number gives the number.
pub proof fn decimal_reads_back(n: nat, max: nat)
    requires
        n <= max,
    ensures
        number(decimal(n), max) == Some(n),
{
    decimal_denotes(n);
    assert(is_digit(decimal(n)[0]));
}

/// A number is read digit by digit in base ten: a lone digit is its value, and
/// one more digit behind a number makes it ten times as large and adds the
/// digit, unless that is too large.
pub proof fn numbers_are_decimal(s: Seq<char>, c: char, max: nat)
    requires
        '0' <= c <= '9',
    ensures
        (c as u32 - 48) as nat <= max ==> number(seq![c], max) == Some((c as u32 - 48) as nat),
        number(s, max) matches Some(n) ==> number(s.push(c), max) == (if 10 * n + (c as u32 - 48)
            <= max {
            Some((10 * n + (c as u32 - 48)) as nat)
        } else {
            None
        }),
{
    assert(seq![c].drop_last() =~= Seq::<char>::empty());
    reveal_with_fuel(digits_value, 2);
    let longer = s.push(c);
    if number(s, max) is Some {
        let digits = if s.len() > 0 && s[0] == '+' {
            s.skip(1)
        } else {
            s
        };
        let more = digits.push(c);
        assert(longer[0] == s[0]);
        if s.len() > 0 && s[0] == '+' {
            assert(longer.skip(1) =~= more);
        }
        assert(more.drop_last() =~= digits);
        assert(all_digits(more));
    }
}

/// Nothing is a number but digits, of which there is at least one, with a plus
/// sign before them or not; and no number is larger than allowed.
pub proof fn other_text_is_no_number(s: Seq<char>, max: nat)
    ensures
        number(s, max) matches Some(n) ==> n <= max && s.len() > 0 && s.last() != '+' && forall|
            i: int,
        |
            0 <= i < s.len() ==> '0' <= #[trigger] s[i] <= '9' || (i == 0 && s[i] == '+'),
        s.len() > 0 && s[0] != '+' ==> number(seq!['+'] + s, max) == number(s, max),
{
    if number(s, max) is Some {
        let digits = if s[0] == '+' {
            s.skip(1)
        } else {
            s
        };
        assert forall|i: int| 0 <= i < s.len() implies '0' <= #[trigger] s[i] <= '9' || (i == 0
            && s[i] == '+') by {
            if s[0] == '+' {
                if i > 0 {
                    assert(is_digit(digits[i - 1]));
                }
            } else {
                assert(is_digit(digits[i]));
            }
        }
        assert(is_digit(digits[digits.len() - 1]));
    }
    assert((seq!['+'] + s).skip(1) =~= s);
}

/// A number is written in base ten, highest digit first, without sign or
/// leading zeros.
pub proof fn numbers_are_written_decimal(n: nat, d: nat)
    requires
        d < 10,
    ensures
        decimal(d).len() == 1,
        decimal(d)[0] as u32 == 48 + d,
        n > 0 ==> decimal(10 * n + d) == decimal(n) + decimal(d),
{
    if n > 0 {
        assert((10 * n + d) / 10 == n);
        assert((10 * n + d) % 10 == d);
        assert(decimal(10 * n + d) =~= decimal(n) + decimal(d));
    }
}

/// A port is a number of at most 65535, and a byte one of at most 255: nothing
/// larger is read as either, and nothing smaller is refused.
pub proof fn ports_and_bytes_fit(n: nat)
    ensures
        n <= 65535 ==> number_u16(decimal(n)) == Some(n as u16),
        n > 65535 ==> number_u16(decimal(n)) is None,
        n <= 255 ==> number_u8(decimal(n)) == Some(n as u8),
        n > 255 ==> number_u8(decimal(n)) is None,
{
    decimal_denotes(n);
    assert(is_digit(decimal(n)[0]));
}

} // verus!
