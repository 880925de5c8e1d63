//! Numbers as text, for the messages of failures.

use vstd::prelude::*;

verus! {

/// The character of a decimal digit.
pub open spec fn decimal_digit(digit: nat) -> char {
    if digit == 0 {
        '0'
    } else if digit == 1 {
        '1'
    } else if digit == 2 {
        '2'
    } else if digit == 3 {
        '3'
    } else if digit == 4 {
        '4'
    } else if digit == 5 {
        '5'
    } else if digit == 6 {
        '6'
    } else if digit == 7 {
        '7'
    } else if digit == 8 {
        '8'
    } else {
        '9'
    }
}

/// The character of a hexadecimal digit, in lower case.
pub open spec fn hex_digit(digit: nat) -> char {
    if digit < 10 {
        decimal_digit(digit)
    } else if digit == 10 {
        'a'
    } else if digit == 11 {
        'b'
    } else if digit == 12 {
        'c'
    } else if digit == 13 {
        'd'
    } else if digit == 14 {
        'e'
    } else {
        'f'
    }
}

/// A number in decimal, without leading zeros.
pub open spec fn decimal_text(number: nat) -> Seq<char>
    decreases number,
{
    if number < 10 {
        seq![decimal_digit(number)]
    } else {
        decimal_text(number / 10).push(decimal_digit(number % 10))
    }
}

/// The lowest `digits` hexadecimal digits of a number, the highest first.
pub open spec fn hex_text(number: nat, digits: nat) -> Seq<char>
    decreases digits,
{
    if digits == 0 {
        Seq::empty()
    } else {
        hex_text(number / 16, (digits - 1) as nat).push(hex_digit(number % 16))
    }
}

/// The one-character text of a hexadecimal digit.
fn digit_text(digit: u64) -> (text: &'static str)
    requires
        digit < 16,
    ensures
        text@ == seq![hex_digit(digit as nat)],
{
    proof {
        reveal_strlit("0");
        reveal_strlit("1");
        reveal_strlit("2");
        reveal_strlit("3");
        reveal_strlit("4");
        reveal_strlit("5");
        reveal_strlit("6");
        reveal_strlit("7");
        reveal_strlit("8");
        reveal_strlit("9");
        reveal_strlit("a");
        reveal_strlit("b");
        reveal_strlit("c");
        reveal_strlit("d");
        reveal_strlit("e");
        reveal_strlit("f");
    }
    let text: &'static str = if digit == 0 {
        "0"
    } else if digit == 1 {
        "1"
    } else if digit == 2 {
        "2"
    } else if digit == 3 {
        "3"
    } else if digit == 4 {
        "4"
    } else if digit == 5 {
        "5"
    } else if digit == 6 {
        "6"
    } else if digit == 7 {
        "7"
    } else if digit == 8 {
        "8"
    } else if digit == 9 {
        "9"
    } else if digit == 10 {
        "a"
    } else if digit == 11 {
        "b"
    } else if digit == 12 {
        "c"
    } else if digit == 13 {
        "d"
    } else if digit == 14 {
        "e"
    } else {
        "f"
    };
    assert(text@ =~= seq![hex_digit(digit as nat)]);
    text
}

/// Appends a number in decimal.
pub fn push_decimal(out: &mut String, number: u64)
    ensures
        final(out)@ == old(out)@ + decimal_text(number as nat),
    decreases number,
{
    if number >= 10 {
        push_decimal(out, number / 10);
    }
    out.append(digit_text(number % 10));
    proof {
        let before = old(out)@;
        if number >= 10 {
            assert(before + decimal_text(number as nat / 10) + seq![
                decimal_digit(number as nat % 10),
            ] =~= before + decimal_text(number as nat));
        } else {
            assert(before + seq![decimal_digit(number as nat)] =~= before + decimal_text(
                number as nat,
            ));
        }
    }
}

/// Appends the lowest `digits` hexadecimal digits of a number.
pub fn push_hex(out: &mut String, number: u64, digits: u32)
    ensures
        final(out)@ == old(out)@ + hex_text(number as nat, digits as nat),
    decreases digits,
{
    if digits == 0 {
        assert(old(out)@ + hex_text(number as nat, 0) =~= old(out)@);
        return ;
    }
    push_hex(out, number / 16, digits - 1);
    out.append(digit_text(number % 16));
    proof {
        let before = old(out)@;
        assert(before + hex_text(number as nat / 16, (digits - 1) as nat) + seq![
            hex_digit(number as nat % 16),
        ] =~= before + hex_text(number as nat, digits as nat));
    }
}

} // verus!
