//! Decimal text of unsigned integers, and of hundredths as a number with two
//! decimal places.

use vstd::prelude::*;
use vstd::string::*;

verus! {

/// The character that writes the digit `digit`, for `0 <= digit <= 9`.
pub open spec fn digit_char(digit: int) -> char {
    if digit == 0 {
        '0'
    } else if digit == 1 {
        '1'
    } else if digit == 2 {
        '2'
    } else if digit == 3 {
        '3'
    } else if digit == 4 {
        '4'
    } else if digit == 5 {
        '5'
    } else if digit == 6 {
        '6'
    } else if digit == 7 {
        '7'
    } else if digit == 8 {
        '8'
    } else {
        '9'
    }
}

/// The decimal numeral of `value`: no sign, no leading zero, `"0"` for zero.
pub open spec fn decimal_text(value: nat) -> Seq<char>
    decreases value,
{
    if value < 10 {
        seq![digit_char(value as int)]
    } else {
        decimal_text(value / 10).push(digit_char((value % 10) as int))
    }
}

/// `hundredths / 100` written with exactly two decimal places, such as
/// `"12.05"` for 1205.
pub open spec fn two_place_text(hundredths: nat) -> Seq<char> {
    decimal_text(hundredths / 100).push('.').push(digit_char(((hundredths / 10) % 10) as int)).push(
        digit_char((hundredths % 10) as int),
    )
}

/// Appends one decimal digit.
pub fn push_digit(text: &mut String, digit: u8)
    requires
        digit < 10,
    ensures
        final(text)@ == old(text)@.push(digit_char(digit as int)),
{
    proof {
        reveal_strlit("0");
        reveal_strlit("1");
        reveal_strlit("2");
        reveal_strlit("3");
        reveal_strlit("4");
        reveal_strlit("5");
        reveal_strlit("6");
        reveal_strlit("7");
        reveal_strlit("8");
        reveal_strlit("9");
    }
    let numeral: &str = if digit == 0 {
        "0"
    } else if digit == 1 {
        "1"
    } else if digit == 2 {
        "2"
    } else if digit == 3 {
        "3"
    } else if digit == 4 {
        "4"
    } else if digit == 5 {
        "5"
    } else if digit == 6 {
        "6"
    } else if digit == 7 {
        "7"
    } else if digit == 8 {
        "8"
    } else {
        "9"
    };
    assert(numeral@ =~= seq![digit_char(digit as int)]);
    text.append(numeral);
    assert(text@ =~= old(text)@.push(digit_char(digit as int)));
}

/// Appends the decimal numeral of `value`.
pub fn push_decimal(text: &mut String, value: u128)
    ensures
        final(text)@ == old(text)@ + decimal_text(value as nat),
    decreases value,
{
    if value >= 10 {
        push_decimal(text, value / 10);
    }
    let last: u128 = value % 10;
    push_digit(text, last as u8);
    assert(text@ =~= old(text)@ + decimal_text(value as nat));
}

/// Appends `hundredths / 100` with exactly two decimal places.
pub fn push_two_places(text: &mut String, hundredths: u128)
    ensures
        final(text)@ == old(text)@ + two_place_text(hundredths as nat),
{
    proof {
        reveal_strlit(".");
    }
    push_decimal(text, hundredths / 100);
    text.append(".");
    let tenths: u128 = (hundredths / 10) % 10;
    let units: u128 = hundredths % 10;
    push_digit(text, tenths as u8);
    push_digit(text, units as u8);
    assert(text@ =~= old(text)@ + two_place_text(hundredths as nat));
}

} // verus!
