//! Decimal digits and the characters of strings.

use vstd::prelude::*;
use vstd::string::*;

verus! {

/// The character that writes the decimal digit `digit`.
pub open spec fn digit_char(digit: int) -> char {
    if digit == 0 {
        '0'
    } else if digit == 1 {
        '1'
    } else if digit == 2 {
        '2'
    } else if digit == 3 {
        '3'
    } else if digit == 4 {
        '4'
    } else if digit == 5 {
        '5'
    } else if digit == 6 {
        '6'
    } else if digit == 7 {
        '7'
    } else if digit == 8 {
        '8'
    } else {
        '9'
    }
}

/// The two decimal digits of a number below 100, zero-padded.
pub open spec fn two_digits(number: int) -> Seq<char> {
    seq![digit_char(number / 10), digit_char(number % 10)]
}

/// The four decimal digits of a number below 10000, zero-padded.
pub open spec fn four_digits(number: int) -> Seq<char> {
    two_digits(number / 100) + two_digits(number % 100)
}

fn digit_text(digit: u32) -> (text: &'static str)
    requires
        digit < 10,
    ensures
        text@ == seq![digit_char(digit as int)],
{
    proof {
        reveal_strlit("0");
        reveal_strlit("1");
        reveal_strlit("2");
        reveal_strlit("3");
        reveal_strlit("4");
        reveal_strlit("5");
        reveal_strlit("6");
        reveal_strlit("7");
        reveal_strlit("8");
        reveal_strlit("9");
    }
    let text: &'static str = match digit {
        0 => "0",
        1 => "1",
        2 => "2",
        3 => "3",
        4 => "4",
        5 => "5",
        6 => "6",
        7 => "7",
        8 => "8",
        _ => "9",
    };
    assert(text@ =~= seq![digit_char(digit as int)]);
    text
}

/// Appends the two digits of `number` to `out`.
pub(crate) fn push_two_digits(out: &mut String, number: u32)
    requires
        number < 100,
    ensures
        final(out)@ == old(out)@ + two_digits(number as int),
{
    out.append(digit_text(number / 10));
    out.append(digit_text(number % 10));
    assert(out@ =~= old(out)@ + two_digits(number as int));
}

/// Appends the four digits of `number` to `out`.
pub(crate) fn push_four_digits(out: &mut String, number: u32)
    requires
        number < 10000,
    ensures
        final(out)@ == old(out)@ + four_digits(number as int),
{
    push_two_digits(out, number / 100);
    push_two_digits(out, number % 100);
    assert(out@ =~= old(out)@ + four_digits(number as int));
}

/// Whether `text` begins with `prefix`, character for character.
pub fn starts_with(text: &str, prefix: &str) -> (result: bool)
    ensures
        result == prefix@.is_prefix_of(text@),
{
    let length: usize = prefix.unicode_len();
    if length > text.unicode_len() {
        return false;
    }
    let mut i: usize = 0;
    while i < length
        invariant
            i <= length,
            length == prefix@.len(),
            length <= text@.len(),
            forall|j: int| 0 <= j < i ==> prefix@[j] == text@[j],
        decreases length - i,
    {
        if prefix.get_char(i) != text.get_char(i) {
            assert(prefix@[i as int] != text@.subrange(0, prefix@.len() as int)[i as int]);
            return false;
        }
        i += 1;
    }
    assert(prefix@ =~= text@.subrange(0, prefix@.len() as int));
    true
}

} // verus!
