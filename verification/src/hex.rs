//! Hexadecimal digits, as the tape spells them.

use crate::error::MachineError;
use vstd::prelude::*;

verus! {

/// The value of the hexadecimal digit `digit`, if it is one. Both cases of
/// the letters count.
pub open spec fn hex_value(digit: u8) -> Option<u8> {
    if 0x30 <= digit <= 0x39 {
        Some((digit - 0x30) as u8)
    } else if 0x61 <= digit <= 0x66 {
        Some((digit - 0x61 + 10) as u8)
    } else if 0x41 <= digit <= 0x46 {
        Some((digit - 0x41 + 10) as u8)
    } else {
        None
    }
}

/// The lower-case hexadecimal digit that spells `value`.
pub open spec fn hex_digit(value: u8) -> u8
    recommends
        value < 16,
{
    if value < 10 {
        (0x30 + value) as u8
    } else {
        (0x61 + value - 10) as u8
    }
}

/// The byte that the two digits `high` and `low` spell, if both are
/// hexadecimal digits.
pub open spec fn hex_pair_value(high: u8, low: u8) -> Option<u8> {
    match (hex_value(high), hex_value(low)) {
        (Some(h), Some(l)) => Some((h * 16 + l) as u8),
        _ => None,
    }
}

/// Decodes one hexadecimal digit.
pub fn unhex(c: u8) -> (value: Result<u8, MachineError>)
    ensures
        value == match hex_value(c) {
            Some(v) => Ok::<u8, MachineError>(v),
            None => Err(MachineError::InvalidHexDigit(c)),
        },
        value matches Ok(v) ==> v < 16,
{
    if 0x30 <= c && c <= 0x39 {
        Ok(c - 0x30)
    } else if 0x61 <= c && c <= 0x66 {
        Ok(c - 0x61 + 10)
    } else if 0x41 <= c && c <= 0x46 {
        Ok(c - 0x41 + 10)
    } else {
        Err(MachineError::InvalidHexDigit(c))
    }
}

/// Spells `value` as two lower-case hexadecimal digits, high digit first.
pub fn hex_digits(value: u8) -> (digits: (u8, u8))
    ensures
        digits.0 == hex_digit(value / 16),
        digits.1 == hex_digit(value % 16),
        hex_pair_value(digits.0, digits.1) == Some(value),
{
    let high = value / 16;
    let low = value % 16;
    let h = if high < 10 {
        0x30 + high
    } else {
        0x61 + (high - 10)
    };
    let l = if low < 10 {
        0x30 + low
    } else {
        0x61 + (low - 10)
    };
    (h, l)
}

} // verus!
