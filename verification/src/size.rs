//! File sizes as texts for users.

use crate::rounding::{
    a_quotient_is_rounded_to_the_nearest, a_whole_number_stays_near, apart, as_double,
    round_half_even, rounded_quotient, whole_as_double,
};
use crate::text::{a_number_is_read_back, decimal, digit_char, number_of, push_decimal};
use vstd::prelude::*;
use vstd::string::StringExecFns;

verus! {

/// `value` tenths with one decimal place.
pub open spec fn tenths_text(value: nat) -> Seq<char> {
    decimal(value / 10) + seq!['.', digit_char(value % 10)]
}

/// `value` hundredths with two decimal places.
pub open spec fn hundredths_text(value: nat) -> Seq<char> {
    decimal(value / 100) + seq!['.', digit_char(value / 10 % 10), digit_char(value % 10)]
}

/// A size as it is shown: whole bytes below one kibibyte, else in the unit
/// that gives at least one, rounded half to even to the places shown.
pub open spec fn size_text(bytes: nat) -> Seq<char> {
    if bytes < 0x400 {
        decimal(bytes) + " B"@
    } else if bytes < 0x10_0000 {
        tenths_text(round_half_even(bytes * 10, 0x400)) + " KB"@
    } else if bytes < 0x4000_0000 {
        hundredths_text(round_half_even(bytes * 100, 0x10_0000)) + " MB"@
    } else {
        hundredths_text(round_half_even(whole_as_double(bytes) * 100, 0x4000_0000)) + " GB"@
    }
}

/// Appends `value` tenths with one decimal place.
fn push_tenths(out: &mut String, value: u64)
    ensures
        final(out)@ == old(out)@ + tenths_text(value as nat),
{
    push_decimal(out, value / 10);
    out.push('.');
    push_decimal(out, value % 10);
    proof {
        assert(out@ == old(out)@ + tenths_text(value as nat));
    }
}

/// Appends `value` hundredths with two decimal places.
fn push_hundredths(out: &mut String, value: u64)
    ensures
        final(out)@ == old(out)@ + hundredths_text(value as nat),
{
    push_decimal(out, value / 100);
    out.push('.');
    push_decimal(out, value / 10 % 10);
    push_decimal(out, value % 10);
    proof {
        assert(out@ == old(out)@ + hundredths_text(value as nat));
    }
}

/// `bytes` as a text with its unit, such as `1.5 KB`.
pub fn format_size(bytes: u64) -> (text: String)
    ensures
        text@ == size_text(bytes as nat),
{
    let mut text = String::new();
    if bytes < 0x400 {
        push_decimal(&mut text, bytes);
        text.append(" B");
    } else if bytes < 0x10_0000 {
        let tenths: u64 = rounded_quotient(bytes as u128 * 10, 0x400) as u64;
        push_tenths(&mut text, tenths);
        text.append(" KB");
    } else if bytes < 0x4000_0000 {
        let hundredths: u64 = rounded_quotient(bytes as u128 * 100, 0x10_0000) as u64;
        push_hundredths(&mut text, hundredths);
        text.append(" MB");
    } else {
        let hundredths: u64 = rounded_quotient(as_double(bytes) * 100, 0x4000_0000) as u64;
        push_hundredths(&mut text, hundredths);
        text.append(" GB");
    }
    proof {
        assert(text@ == size_text(bytes as nat));
    }
    text
}

/// The digit that a character shows.
pub open spec fn digit_shown(c: char) -> nat {
    (c as nat - '0' as nat) as nat
}

/// Below one kibibyte the bytes can be read off.
pub proof fn a_small_size_is_read_back(bytes: nat)
    requires
        bytes < 1024,
    ensures
        ({
            let text = size_text(bytes);
            let n = text.len() as int;
            &&& n > 2
            &&& text[n - 2] == ' ' && text[n - 1] == 'B'
            &&& number_of(text.take(n - 2)) == bytes
        }),
{
    reveal_strlit(" B");
    a_number_is_read_back(bytes);
    let text = size_text(bytes);
    assert(text.take(text.len() - 2) == decimal(bytes));
}

/// In kibibytes a size is shown with one decimal place, and the tenths that are shown are as
/// near to it as tenths can be.
pub proof fn kibibytes_are_shown_to_the_tenth(bytes: nat)
    requires
        1024 <= bytes < 1_048_576,
    ensures
        ({
            let text = size_text(bytes);
            let n = text.len() as int;
            let tenths = number_of(text.take(n - 5)) * 10 + digit_shown(text[n - 4]);
            &&& n > 5
            &&& text[n - 5] == '.' && '0' <= text[n - 4] <= '9'
            &&& text[n - 3] == ' ' && text[n - 2] == 'K' && text[n - 1] == 'B'
            &&& 2 * apart(tenths * 1024, bytes * 10) <= 1024
        }),
{
    reveal_strlit(" KB");
    let value = round_half_even(bytes * 10, 1024);
    a_quotient_is_rounded_to_the_nearest(bytes * 10, 1024);
    a_number_is_read_back(value / 10);
    let text = size_text(bytes);
    let n = text.len() as int;
    assert(text.take(n - 5) == decimal(value / 10));
    assert(text[n - 4] == digit_char(value % 10));
}

/// What hundredths look like, with a unit of two letters behind them.
proof fn hundredths_are_read_back(value: nat, unit: Seq<char>)
    requires
        unit.len() == 3,
    ensures
        ({
            let text = hundredths_text(value) + unit;
            let n = text.len() as int;
            &&& n > 6
            &&& text[n - 6] == '.' && '0' <= text[n - 5] <= '9' && '0' <= text[n - 4] <= '9'
            &&& text[n - 3] == unit[0] && text[n - 2] == unit[1] && text[n - 1] == unit[2]
            &&& number_of(text.take(n - 6)) * 100 + digit_shown(text[n - 5]) * 10 + digit_shown(
                text[n - 4],
            ) == value
        }),
{
    a_number_is_read_back(value / 100);
    let text = hundredths_text(value) + unit;
    let n = text.len() as int;
    assert(text.take(n - 6) == decimal(value / 100));
    assert(text[n - 5] == digit_char(value / 10 % 10));
    assert(text[n - 4] == digit_char(value % 10));
}

/// In mebibytes a size is shown with two decimal places, and the hundredths that are shown are
/// as near to it as hundredths can be.
pub proof fn mebibytes_are_shown_to_the_hundredth(bytes: nat)
    requires
        1_048_576 <= bytes < 1_073_741_824,
    ensures
        ({
            let text = size_text(bytes);
            let n = text.len() as int;
            let hundredths = number_of(text.take(n - 6)) * 100 + digit_shown(text[n - 5]) * 10
                + digit_shown(text[n - 4]);
            &&& n > 6
            &&& text[n - 6] == '.' && '0' <= text[n - 5] <= '9' && '0' <= text[n - 4] <= '9'
            &&& text[n - 3] == ' ' && text[n - 2] == 'M' && text[n - 1] == 'B'
            &&& 2 * apart(hundredths * 1_048_576, bytes * 100) <= 1_048_576
        }),
{
    reveal_strlit(" MB");
    let value = round_half_even(bytes * 100, 1_048_576);
    a_quotient_is_rounded_to_the_nearest(bytes * 100, 1_048_576);
    hundredths_are_read_back(value, " MB"@);
}

/// From one gibibyte on a size is shown in gibibytes with two decimal places. The hundredths
/// that are shown are as near to it as hundredths can be, but for what a number of more than 53
/// bits loses as a double.
pub proof fn gibibytes_are_shown_to_the_hundredth(bytes: nat)
    requires
        1_073_741_824 <= bytes,
    ensures
        ({
            let text = size_text(bytes);
            let n = text.len() as int;
            let hundredths = number_of(text.take(n - 6)) * 100 + digit_shown(text[n - 5]) * 10
                + digit_shown(text[n - 4]);
            &&& n > 6
            &&& text[n - 6] == '.' && '0' <= text[n - 5] <= '9' && '0' <= text[n - 4] <= '9'
            &&& text[n - 3] == ' ' && text[n - 2] == 'G' && text[n - 1] == 'B'
            &&& 2 * apart(hundredths * 1_073_741_824, bytes * 100) <= 1_073_741_824 + 200
                * (bytes / 0x20_0000_0000_0000)
        }),
{
    reveal_strlit(" GB");
    let whole = whole_as_double(bytes);
    let value = round_half_even(whole * 100, 1_073_741_824);
    a_whole_number_stays_near(bytes);
    a_quotient_is_rounded_to_the_nearest(whole * 100, 1_073_741_824);
    hundredths_are_read_back(value, " GB"@);
    let off = apart(whole, bytes);
    assert(off <= bytes / 0x20_0000_0000_0000);
}

} // verus!
