//! Numbers as text.

use vstd::prelude::*;
use vstd::string::StringExecFns;

verus! {

/// The numeral of a number below ten.
pub open spec fn digit_text(digit: nat) -> Seq<char> {
    if digit == 0 {
        "0"@
    } else if digit == 1 {
        "1"@
    } else if digit == 2 {
        "2"@
    } else if digit == 3 {
        "3"@
    } else if digit == 4 {
        "4"@
    } else if digit == 5 {
        "5"@
    } else if digit == 6 {
        "6"@
    } else if digit == 7 {
        "7"@
    } else if digit == 8 {
        "8"@
    } else {
        "9"@
    }
}

/// A number in decimal: its numerals, the most significant first, with no
/// leading zero but for zero itself.
pub open spec fn decimal(number: nat) -> Seq<char>
    decreases number,
{
    if number < 10 {
        digit_text(number)
    } else {
        decimal(number / 10) + digit_text(number % 10)
    }
}

/// An integer in decimal, with a minus sign in front of it when it is below
/// zero.
pub open spec fn signed_decimal(number: int) -> Seq<char> {
    if number < 0 {
        "-"@ + decimal((-number) as nat)
    } else {
        decimal(number as nat)
    }
}

/// The numeral of a number below ten.
pub fn digit(value: u8) -> (text: &'static str)
    requires
        value < 10,
    ensures
        text@ == digit_text(value as nat),
{
    if value == 0 {
        "0"
    } else if value == 1 {
        "1"
    } else if value == 2 {
        "2"
    } else if value == 3 {
        "3"
    } else if value == 4 {
        "4"
    } else if value == 5 {
        "5"
    } else if value == 6 {
        "6"
    } else if value == 7 {
        "7"
    } else if value == 8 {
        "8"
    } else {
        "9"
    }
}

/// A number in decimal.
pub fn decimal_string(number: u128) -> (text: String)
    ensures
        text@ == decimal(number as nat),
    decreases number,
{
    if number < 10 {
        String::from_str(digit(number as u8))
    } else {
        let mut text = decimal_string(number / 10);
        text.append(digit((number % 10) as u8));
        text
    }
}

/// The number after `number` in decimal, also where that number is one more
/// than the machine counts to.
pub fn successor_string(number: u128) -> (text: String)
    ensures
        text@ == decimal((number + 1) as nat),
{
    let tens = number / 10;
    let units = (number % 10) as u8;
    if units < 9 {
        if tens == 0 {
            String::from_str(digit(units + 1))
        } else {
            let mut text = decimal_string(tens);
            text.append(digit(units + 1));
            text
        }
    } else {
        let mut text = decimal_string(tens + 1);
        text.append(digit(0));
        text
    }
}

} // verus!
