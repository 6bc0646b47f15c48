//! Decimal numbers in texts.

use vstd::prelude::*;

use crate::unicode::is_digit;

verus! {

/// The number that a sequence of digits spells.
pub open spec fn digits_value(s: Seq<char>) -> nat
    decreases s.len(),
{
    if s.len() == 0 {
        0
    } else {
        digits_value(s.drop_last()) * 10 + (s.last() as u32 - '0' as u32) as nat
    }
}

/// Whether a text consists of digits only.
pub open spec fn all_digits(s: Seq<char>) -> bool {
    forall|i: int| 0 <= i < s.len() ==> is_digit(#[trigger] s[i])
}

/// The digit of a number below ten.
pub open spec fn digit_char(n: nat) -> char {
    ('0' as u32 + n) as char
}

/// The decimal digits of a number.
pub open spec fn decimal(n: nat) -> Seq<char>
    decreases n,
{
    if n < 10 {
        seq![digit_char(n)]
    } else {
        decimal(n / 10).push(digit_char(n % 10))
    }
}

/// The number that a text spells, where it is made of digits and not above a limit.
pub open spec fn number_of(s: Seq<char>, max: nat) -> Option<nat> {
    if s.len() > 0 && all_digits(s) && digits_value(s) <= max {
        Some(digits_value(s))
    } else {
        None
    }
}

/// Whether a character is an ASCII digit.
pub fn digit(c: char) -> (result: bool)
    ensures
        result == is_digit(c),
{
    '0' <= c && c <= '9'
}

/// Reads the number that the characters from one index up to another spell.
pub fn parse_digits(chars: &Vec<char>, from: usize, to: usize, max: u64) -> (result: Option<u64>)
    requires
        from <= to <= chars@.len(),
    ensures
        match result {
            Some(n) => number_of(chars@.subrange(from as int, to as int), max as nat) == Some(
                n as nat,
            ),
            None => number_of(chars@.subrange(from as int, to as int), max as nat) is None,
        },
{
    let ghost s = chars@.subrange(from as int, to as int);
    if from == to {
        return None;
    }
    let mut value: u128 = 0;
    let mut over: bool = false;
    let mut i: usize = from;
    while i < to
        invariant
            from <= i <= to <= chars@.len(),
            s == chars@.subrange(from as int, to as int),
            all_digits(s.take(i - from)),
            over ==> digits_value(s.take(i - from)) > max,
            !over ==> value == digits_value(s.take(i - from)) && value <= max,
        decreases to - i,
    {
        let c: char = chars[i];
        assert(s[i - from] == c);
        assert(s.take(i - from + 1).drop_last() =~= s.take(i - from));
        if !digit(c) {
            return None;
        }
        assert(all_digits(s.take(i - from + 1))) by {
            assert forall|j: int| 0 <= j < i - from + 1 implies is_digit(
                #[trigger] s.take(i - from + 1)[j],
            ) by {
                if j < i - from {
                    assert(is_digit(s.take(i - from)[j]));
                }
            }
        }
        if !over {
            let d: u128 = (c as u32 - '0' as u32) as u128;
            value = value * 10 + d;
            if value > max as u128 {
                over = true;
            }
        }
        i += 1;
    }
    assert(s.take(to - from) =~= s);
    if over {
        None
    } else {
        Some(value as u64)
    }
}

/// Writes a number in decimal.
pub fn to_decimal(n: u64) -> (result: String)
    ensures
        result@ == decimal(n as nat),
    decreases n,
{
    let d: u32 = (n % 10) as u32;
    let c: char = digit_of(d);
    if n < 10 {
        let mut result: String = String::new();
        result.push(c);
        assert(result@ =~= seq![digit_char(n as nat)]);
        result
    } else {
        let mut result: String = to_decimal(n / 10);
        result.push(c);
        result
    }
}

/// The digit of a number below ten.
fn digit_of(d: u32) -> (result: char)
    requires
        d < 10,
    ensures
        result == digit_char(d as nat),
{
    match d {
        0 => '0',
        1 => '1',
        2 => '2',
        3 => '3',
        4 => '4',
        5 => '5',
        6 => '6',
        7 => '7',
        8 => '8',
        _ => '9',
    }
}

/// Reading the digits of a number gives the number back.
pub proof fn law_decimal_round_trip(n: nat, max: nat)
    requires
        n <= max,
    ensures
        number_of(decimal(n), max) == Some(n),
    decreases n,
{
    if n < 10 {
        assert(decimal(n).drop_last() =~= Seq::empty());
        assert(digits_value(decimal(n).drop_last()) == 0);
    } else {
        law_decimal_round_trip(n / 10, max);
        assert(decimal(n).drop_last() =~= decimal(n / 10));
        assert forall|i: int| 0 <= i < decimal(n).len() implies is_digit(
            #[trigger] decimal(n)[i],
        ) by {
            if i < decimal(n / 10).len() {
                assert(is_digit(decimal(n / 10)[i]));
            }
        }
    }
}

/// One more digit is worth its value, and makes those before it worth ten times as much.
pub proof fn law_digits_value(s: Seq<char>, c: char)
    requires
        is_digit(c),
    ensures
        digits_value(Seq::empty()) == 0,
        digits_value(s.push(c)) == 10 * digits_value(s) + (c as u32 - 48),
{
    assert(s.push(c).drop_last() =~= s);
}

/// A text spells a number exactly where it is made of digits, at least one, and the number
/// is not above the limit.
pub proof fn law_numbers(s: Seq<char>, max: nat)
    ensures
        s.len() > 0 && all_digits(s) && digits_value(s) <= max ==> number_of(s, max) == Some(
            digits_value(s),
        ),
        s.len() == 0 || !all_digits(s) || digits_value(s) > max ==> number_of(s, max) is None,
{
}

/// A number is written in digits, the first of which is no zero but for zero itself.
pub proof fn law_decimal_digits(n: nat)
    ensures
        decimal(n).len() > 0,
        n > 0 ==> decimal(n)[0] != '0',
        n < 10 ==> decimal(n).len() == 1,
    decreases n,
{
    if n >= 10 {
        law_decimal_digits(n / 10);
    } else if n > 0 {
        let d: u32 = (48 + n) as u32;
        assert(d as char as u32 == d);
    }
}

} // verus!
