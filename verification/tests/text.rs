use self_reposcope::decimal::{push_decimal, push_digit, push_two_places};

fn decimal(value: u128) -> String {
    let mut text = String::new();
    push_decimal(&mut text, value);
    text
}

fn two_places(hundredths: u128) -> String {
    let mut text = String::new();
    push_two_places(&mut text, hundredths);
    text
}

#[test]
fn digits_are_appended() {
    let mut text = String::from("x");
    for digit in 0..10u8 {
        push_digit(&mut text, digit);
    }
    assert_eq!(text, "x0123456789");
}

#[test]
fn numerals_have_no_leading_zero() {
    assert_eq!(decimal(0), "0");
    assert_eq!(decimal(7), "7");
    assert_eq!(decimal(10), "10");
    assert_eq!(decimal(700), "700");
    assert_eq!(decimal(1_000_000), "1000000");
    assert_eq!(decimal(u64::MAX as u128), "18446744073709551615");
    assert_eq!(decimal(u128::MAX), "340282366920938463463374607431768211455");
}

#[test]
fn numerals_are_appended_to_what_is_there() {
    let mut text = String::from("width=");
    push_decimal(&mut text, 560);
    push_decimal(&mut text, 0);
    assert_eq!(text, "width=5600");
}

#[test]
fn hundredths_have_two_decimal_places() {
    assert_eq!(two_places(0), "0.00");
    assert_eq!(two_places(5), "0.05");
    assert_eq!(two_places(50), "0.50");
    assert_eq!(two_places(99), "0.99");
    assert_eq!(two_places(100), "1.00");
    assert_eq!(two_places(1205), "12.05");
    assert_eq!(two_places(5714), "57.14");
    assert_eq!(two_places(10000), "100.00");
    assert_eq!(two_places(123456), "1234.56");
}
