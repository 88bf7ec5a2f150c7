//! Decimal digits: the characters `'0'`..`'9'`, their numeric values, and
//! zero-padded decimal rendering of unsigned numbers.

use vstd::prelude::*;

verus! {

/// A decimal digit character.
pub open spec fn is_digit(c: char) -> bool {
    '0' <= c && c <= '9'
}

/// Numeric value of a digit character.
pub open spec fn digit_val(c: char) -> nat {
    (c as u32 - '0' as u32) as nat
}

/// The digit character for a value below ten.
pub open spec fn digit_char(d: nat) -> char {
    if d == 0 {
        '0'
    } else if d == 1 {
        '1'
    } else if d == 2 {
        '2'
    } else if d == 3 {
        '3'
    } else if d == 4 {
        '4'
    } else if d == 5 {
        '5'
    } else if d == 6 {
        '6'
    } else if d == 7 {
        '7'
    } else if d == 8 {
        '8'
    } else {
        '9'
    }
}

/// Value of a whole sequence of digit characters read in base ten.
pub open spec fn digits_val(s: Seq<char>) -> nat
    decreases s.len(),
{
    if s.len() == 0 {
        0
    } else {
        digits_val(s.drop_last()) * 10 + digit_val(s.last())
    }
}

/// Decimal rendering of `n`, zero-padded on the left to at least `w` characters.
pub open spec fn dec_spec(n: nat, w: nat) -> Seq<char>
    decreases n, w,
{
    if n < 10 && w <= 1 {
        seq![digit_char(n)]
    } else {
        dec_spec(n / 10, if w == 0 { 0 } else { (w - 1) as nat }) + seq![digit_char(n % 10)]
    }
}

/// The digit character for a value below ten, as a one-character string slice.
fn digit_str(d: u32) -> (r: &'static str)
    requires
        d <= 9,
    ensures
        r@ == seq![digit_char(d as nat)],
{
    proof {
        reveal_strlit("0");
        reveal_strlit("1");
        reveal_strlit("2");
        reveal_strlit("3");
        reveal_strlit("4");
        reveal_strlit("5");
        reveal_strlit("6");
        reveal_strlit("7");
        reveal_strlit("8");
        reveal_strlit("9");
    }
    let r = match d {
        0 => "0",
        1 => "1",
        2 => "2",
        3 => "3",
        4 => "4",
        5 => "5",
        6 => "6",
        7 => "7",
        8 => "8",
        _ => "9",
    };
    proof {
        assert(r@ =~= seq![digit_char(d as nat)]);
    }
    r
}

/// Decimal rendering of `n`, zero-padded on the left to at least `w` characters.
pub fn dec_str(n: u32, w: usize) -> (r: String)
    ensures
        r@ == dec_spec(n as nat, w as nat),
    decreases n, w,
{
    if n < 10 && w <= 1 {
        digit_str(n).to_owned()
    } else {
        let mut r = dec_str(n / 10, if w == 0 { 0 } else { w - 1 });
        r.append(digit_str(n % 10));
        proof {
            assert(r@ =~= dec_spec(n as nat, w as nat));
        }
        r
    }
}

} // verus!
