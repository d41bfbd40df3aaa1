use vstd::prelude::*;

verus! {

/// The character that stands for a digit from 0 to 9.
pub open spec fn digit(d: nat) -> char {
    if d == 0 {
        '0'
    } else if d == 1 {
        '1'
    } else if d == 2 {
        '2'
    } else if d == 3 {
        '3'
    } else if d == 4 {
        '4'
    } else if d == 5 {
        '5'
    } else if d == 6 {
        '6'
    } else if d == 7 {
        '7'
    } else if d == 8 {
        '8'
    } else {
        '9'
    }
}

/// A number written in decimal, without leading zeros.
pub open spec fn decimal(n: nat) -> Seq<char>
    decreases n,
{
    if n < 10 {
        seq![digit(n)]
    } else {
        decimal(n / 10) + seq![digit(n % 10)]
    }
}

/// A digit from 0 to 9 as a text of one character.
pub fn digit_text(d: u8) -> (s: &'static str)
    requires
        d <= 9,
    ensures
        s@ == seq![digit(d as nat)],
{
    proof {
        reveal_strlit("0");
        reveal_strlit("1");
        reveal_strlit("2");
        reveal_strlit("3");
        reveal_strlit("4");
        reveal_strlit("5");
        reveal_strlit("6");
        reveal_strlit("7");
        reveal_strlit("8");
        reveal_strlit("9");
    }
    let s = match d {
        0 => "0",
        1 => "1",
        2 => "2",
        3 => "3",
        4 => "4",
        5 => "5",
        6 => "6",
        7 => "7",
        8 => "8",
        _ => "9",
    };
    assert(s@ =~= seq![digit(d as nat)]);
    s
}

/// Appends a number in decimal to a text.
pub fn append_decimal(text: &mut String, n: u8)
    ensures
        final(text)@ == old(text)@ + decimal(n as nat),
{
    let ghost before = text@;
    if n >= 100 {
        text.append(digit_text(n / 100));
        text.append(digit_text((n / 10) % 10));
        text.append(digit_text(n % 10));
        proof {
            reveal_with_fuel(decimal, 3);
            assert(((n as nat) / 10) / 10 == n / 100);
            assert(text@ =~= before + decimal(n as nat));
        }
    } else if n >= 10 {
        text.append(digit_text(n / 10));
        text.append(digit_text(n % 10));
        proof {
            reveal_with_fuel(decimal, 2);
            assert(text@ =~= before + decimal(n as nat));
        }
    } else {
        text.append(digit_text(n));
    }
}

} // verus!
