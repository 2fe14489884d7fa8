//! Rendering numbers as text: decimal for dial URLs, fixed-width lowercase
//! hexadecimal for session identifiers.

use vstd::prelude::*;

verus! {

/// The decimal digit character for `d` (meaningful for `d < 10`).
pub open spec fn dec_digit(d: nat) -> char {
    if d == 0 {
        '0'
    } else if d == 1 {
        '1'
    } else if d == 2 {
        '2'
    } else if d == 3 {
        '3'
    } else if d == 4 {
        '4'
    } else if d == 5 {
        '5'
    } else if d == 6 {
        '6'
    } else if d == 7 {
        '7'
    } else if d == 8 {
        '8'
    } else {
        '9'
    }
}

/// The decimal rendering of `n`, most significant digit first, no leading
/// zeros (a single `0` for zero).
pub open spec fn dec_digits(n: nat) -> Seq<char>
    decreases n,
{
    if n < 10 {
        seq![dec_digit(n)]
    } else {
        dec_digits(n / 10).push(dec_digit(n % 10))
    }
}

/// The lowercase hexadecimal digit character for `d` (meaningful for
/// `d < 16`).
pub open spec fn hex_digit(d: nat) -> char {
    if d < 10 {
        dec_digit(d)
    } else if d == 10 {
        'a'
    } else if d == 11 {
        'b'
    } else if d == 12 {
        'c'
    } else if d == 13 {
        'd'
    } else if d == 14 {
        'e'
    } else {
        'f'
    }
}

/// The lowercase hexadecimal rendering of `n` in exactly `width` digits,
/// most significant first (high digits wrap away when `n` does not fit).
pub open spec fn hex_digits(n: nat, width: nat) -> Seq<char>
    decreases width,
{
    if width == 0 {
        Seq::empty()
    } else {
        hex_digits(n / 16, (width - 1) as nat).push(hex_digit(n % 16))
    }
}

/// Is `c` a lowercase hexadecimal digit?
pub open spec fn is_hex_char(c: char) -> bool {
    exists|d: nat| d < 16 && c == hex_digit(d)
}

/// A fixed-width hexadecimal rendering has exactly `width` characters, all
/// lowercase hexadecimal digits.
pub proof fn lemma_hex_digits_shape(n: nat, width: nat)
    ensures
        hex_digits(n, width).len() == width,
        forall|i: int| 0 <= i < width ==> is_hex_char(#[trigger] hex_digits(n, width)[i]),
    decreases width,
{
    if width > 0 {
        lemma_hex_digits_shape(n / 16, (width - 1) as nat);
        let d = n % 16;
        assert(is_hex_char(hex_digit(d))) by {
            assert(d < 16 && hex_digit(d) == hex_digit(d));
        }
    }
}

fn dec_digit_str(d: u8) -> (r: &'static str)
    requires
        d < 10,
    ensures
        r@ == seq![dec_digit(d as nat)],
{
    proof {
        reveal_strlit("0");
        reveal_strlit("1");
        reveal_strlit("2");
        reveal_strlit("3");
        reveal_strlit("4");
        reveal_strlit("5");
        reveal_strlit("6");
        reveal_strlit("7");
        reveal_strlit("8");
        reveal_strlit("9");
    }
    let r = match d {
        0 => "0",
        1 => "1",
        2 => "2",
        3 => "3",
        4 => "4",
        5 => "5",
        6 => "6",
        7 => "7",
        8 => "8",
        _ => "9",
    };
    proof {
        assert(r@ =~= seq![dec_digit(d as nat)]);
    }
    r
}

pub(crate) fn hex_digit_str(d: u8) -> (r: &'static str)
    requires
        d < 16,
    ensures
        r@ == seq![hex_digit(d as nat)],
{
    if d < 10 {
        dec_digit_str(d)
    } else {
        proof {
            reveal_strlit("a");
            reveal_strlit("b");
            reveal_strlit("c");
            reveal_strlit("d");
            reveal_strlit("e");
            reveal_strlit("f");
        }
        let r = match d {
            10 => "a",
            11 => "b",
            12 => "c",
            13 => "d",
            14 => "e",
            _ => "f",
        };
        proof {
            assert(r@ =~= seq![hex_digit(d as nat)]);
        }
        r
    }
}

/// Render `v` in decimal.
pub fn u16_to_dec(v: u16) -> (r: String)
    ensures
        r@ == dec_digits(v as nat),
    decreases v,
{
    if v < 10 {
        dec_digit_str(v as u8).to_owned()
    } else {
        let mut r = u16_to_dec(v / 10);
        r.append(dec_digit_str((v % 10) as u8));
        proof {
            assert(r@ =~= dec_digits(v as nat));
        }
        r
    }
}

fn hex_width(v: u128, width: usize) -> (r: String)
    ensures
        r@ == hex_digits(v as nat, width as nat),
    decreases width,
{
    if width == 0 {
        String::new()
    } else {
        let mut r = hex_width(v / 16, width - 1);
        r.append(hex_digit_str((v % 16) as u8));
        proof {
            assert(r@ =~= hex_digits(v as nat, width as nat));
        }
        r
    }
}

/// Render `v` as exactly 32 lowercase hexadecimal digits: the form of a
/// 128-bit session identifier.
pub fn u128_to_hex32(v: u128) -> (r: String)
    ensures
        r@ == hex_digits(v as nat, 32),
{
    hex_width(v, 32)
}

} // verus!
