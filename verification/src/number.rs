//! Whole numbers as decimal text.

use crate::text::chars_of;
use vstd::prelude::*;

verus! {

/// The decimal digit that stands for `d`, for `d` below ten.
pub open spec fn digit_char(d: int) -> char {
    if d == 0 {
        '0'
    } else if d == 1 {
        '1'
    } else if d == 2 {
        '2'
    } else if d == 3 {
        '3'
    } else if d == 4 {
        '4'
    } else if d == 5 {
        '5'
    } else if d == 6 {
        '6'
    } else if d == 7 {
        '7'
    } else if d == 8 {
        '8'
    } else {
        '9'
    }
}

/// The number that a decimal digit stands for; `None` for any other
/// character.
pub open spec fn digit_of(c: char) -> Option<int> {
    if c == '0' {
        Some(0)
    } else if c == '1' {
        Some(1)
    } else if c == '2' {
        Some(2)
    } else if c == '3' {
        Some(3)
    } else if c == '4' {
        Some(4)
    } else if c == '5' {
        Some(5)
    } else if c == '6' {
        Some(6)
    } else if c == '7' {
        Some(7)
    } else if c == '8' {
        Some(8)
    } else if c == '9' {
        Some(9)
    } else {
        None
    }
}

/// Whether every character is a decimal digit.
pub open spec fn all_digits(s: Seq<char>) -> bool {
    forall|i: int| 0 <= i < s.len() ==> digit_of(#[trigger] s[i]) is Some
}

/// The number that a sequence of decimal digits writes.
pub open spec fn digits_value(s: Seq<char>) -> int
    decreases s.len(),
{
    if s.len() == 0 {
        0
    } else {
        digits_value(s.drop_last()) * 10 + match digit_of(s.last()) {
            Some(d) => d,
            None => 0,
        }
    }
}

/// The whole number that a text writes in decimal: an optional `+`, or an
/// optional `-` where `signed` holds, and then one digit or more, with
/// nothing before, between or behind. `None` for any other text.
pub open spec fn integer_of_text(s: Seq<char>, signed: bool) -> Option<int> {
    let negative = signed && s.len() > 0 && s[0] == '-';
    let digits = if s.len() > 0 && (s[0] == '+' || negative) {
        s.skip(1)
    } else {
        s
    };
    if digits.len() == 0 || !all_digits(digits) {
        None
    } else if negative {
        Some(-digits_value(digits))
    } else {
        Some(digits_value(digits))
    }
}

/// The number from `min` to `max` that a text writes in decimal, where it
/// writes one; a sign `-` is read only where `min` is negative.
pub open spec fn number_of_text(s: Seq<char>, min: int, max: int) -> Option<int> {
    match integer_of_text(s, min < 0) {
        Some(n) => if min <= n <= max {
            Some(n)
        } else {
            None
        },
        None => None,
    }
}

/// The decimal text of a natural number, without sign or leading zeros.
pub open spec fn decimal_text(n: nat) -> Seq<char>
    decreases n,
{
    if n < 10 {
        seq![digit_char(n as int)]
    } else {
        decimal_text(n / 10).push(digit_char((n % 10) as int))
    }
}

/// The decimal text of a number is made of digits and writes that number.
pub proof fn lemma_decimal_text_value(n: nat)
    ensures
        decimal_text(n).len() > 0,
        all_digits(decimal_text(n)),
        digits_value(decimal_text(n)) == n,
    decreases n,
{
    let text = decimal_text(n);
    if n < 10 {
        assert(text.drop_last() =~= Seq::<char>::empty());
        assert(digits_value(Seq::<char>::empty()) == 0);
    } else {
        lemma_decimal_text_value(n / 10);
        assert(text.drop_last() =~= decimal_text(n / 10));
        assert(text.last() == digit_char((n % 10) as int));
        assert forall|i: int| 0 <= i < text.len() implies digit_of(#[trigger] text[i]) is Some by {
            if i < text.len() - 1 {
                assert(text[i] == decimal_text(n / 10)[i]);
            }
        }
    }
}

/// Reading the decimal text of a number gives the number back.
pub proof fn lemma_read_decimal_text(n: nat, min: int, max: int)
    requires
        min <= n <= max,
    ensures
        number_of_text(decimal_text(n), min, max) == Some(n as int),
{
    lemma_decimal_text_value(n);
    let text = decimal_text(n);
    assert(digit_of(text[0]) is Some);
}

/// The number that a decimal digit stands for.
fn digit_value(c: char) -> (d: Option<u8>)
    ensures
        match digit_of(c) {
            Some(v) => d == Some(v as u8) && v < 10,
            None => d is None,
        },
{
    match c {
        '0' => Some(0),
        '1' => Some(1),
        '2' => Some(2),
        '3' => Some(3),
        '4' => Some(4),
        '5' => Some(5),
        '6' => Some(6),
        '7' => Some(7),
        '8' => Some(8),
        '9' => Some(9),
        _ => None,
    }
}

/// The greatest magnitude that reading a number follows exactly: beyond it a
/// number is out of every range that is asked for.
pub(crate) const MAGNITUDE_LIMIT: i128 = 0x1_0000_0000_0000_0000;

/// Reads a whole number from `min` to `max` from its decimal text.
#[verifier::loop_isolation(false)]
pub(crate) fn parse_number(text: &str, min: i128, max: i128) -> (number: Option<i128>)
    requires
        -MAGNITUDE_LIMIT <= min <= 0 <= max <= MAGNITUDE_LIMIT,
    ensures
        match number_of_text(text@, min as int, max as int) {
            Some(n) => number == Some(n as i128),
            None => number is None,
        },
{
    let chars = chars_of(text);
    if chars.len() == 0 {
        return None;
    }
    let negative = min < 0 && chars[0] == '-';
    let start: usize = if chars[0] == '+' || negative {
        1
    } else {
        0
    };
    let ghost digits = chars@.skip(start as int);
    if start == chars.len() {
        return None;
    }
    let mut magnitude: i128 = 0;
    let mut too_large = false;
    let mut i: usize = start;
    assert(digits.take(0) =~= Seq::<char>::empty());
    while i < chars.len()
        invariant
            start <= i <= chars.len(),
            digits == chars@.skip(start as int),
            all_digits(digits.take(i - start)),
            !too_large ==> magnitude == digits_value(digits.take(i - start)),
            too_large ==> digits_value(digits.take(i - start)) > MAGNITUDE_LIMIT,
            0 <= magnitude <= MAGNITUDE_LIMIT,
        decreases chars.len() - i,
    {
        let ghost before = digits.take(i - start);
        let ghost after = digits.take(i - start + 1);
        proof {
            assert(after.drop_last() =~= before);
            assert(after.last() == chars[i as int]);
        }
        match digit_value(chars[i]) {
            None => {
                assert(digits[i - start] == chars[i as int]);
                return None;
            },
            Some(d) => {
                assert forall|j: int| 0 <= j < after.len() implies digit_of(#[trigger] after[j])
                    is Some by {
                    if j < after.len() - 1 {
                        assert(after[j] == before[j]);
                    }
                }
                if !too_large {
                    let next = magnitude * 10 + d as i128;
                    if next > MAGNITUDE_LIMIT {
                        too_large = true;
                    } else {
                        magnitude = next;
                    }
                }
            },
        }
        i += 1;
    }
    assert(digits.take(i - start) =~= digits);
    assert(chars@.skip(0) =~= chars@);
    if too_large {
        return None;
    }
    let number = if negative {
        -magnitude
    } else {
        magnitude
    };
    if min <= number && number <= max {
        Some(number)
    } else {
        None
    }
}

/// The text of one decimal digit.
fn digit_text(d: u64) -> (text: &'static str)
    requires
        d < 10,
    ensures
        text@ == seq![digit_char(d as int)],
{
    proof {
        reveal_strlit("0");
        reveal_strlit("1");
        reveal_strlit("2");
        reveal_strlit("3");
        reveal_strlit("4");
        reveal_strlit("5");
        reveal_strlit("6");
        reveal_strlit("7");
        reveal_strlit("8");
        reveal_strlit("9");
    }
    let text = match d {
        0 => "0",
        1 => "1",
        2 => "2",
        3 => "3",
        4 => "4",
        5 => "5",
        6 => "6",
        7 => "7",
        8 => "8",
        _ => "9",
    };
    assert(text@ =~= seq![digit_char(d as int)]);
    text
}

/// Writes the decimal text of `n` behind what `out` holds.
fn append_decimal(n: u64, out: &mut String)
    ensures
        final(out)@ == old(out)@ + decimal_text(n as nat),
    decreases n,
{
    if n >= 10 {
        append_decimal(n / 10, out);
    }
    out.append(digit_text(n % 10));
    proof {
        if n >= 10 {
            assert(old(out)@ + decimal_text((n / 10) as nat) + seq![digit_char((n % 10) as int)]
                =~= old(out)@ + decimal_text(n as nat));
        }
    }
}

/// The decimal text of a number.
pub fn decimal_string(n: u64) -> (text: String)
    ensures
        text@ == decimal_text(n as nat),
{
    let mut text = String::new();
    append_decimal(n, &mut text);
    assert(Seq::<char>::empty() + decimal_text(n as nat) =~= decimal_text(n as nat));
    text
}

} // verus!
