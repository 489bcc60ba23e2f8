use vstd::prelude::*;
use vstd::string::StringExecFns;

verus! {

/// The character for one hexadecimal digit, upper case.
pub open spec fn spec_hex_digit(n: int) -> char {
    if n == 0 { '0' } else if n == 1 { '1' } else if n == 2 { '2' } else if n == 3 { '3' }
    else if n == 4 { '4' } else if n == 5 { '5' } else if n == 6 { '6' } else if n == 7 { '7' }
    else if n == 8 { '8' } else if n == 9 { '9' } else if n == 10 { 'A' } else if n == 11 { 'B' }
    else if n == 12 { 'C' } else if n == 13 { 'D' } else if n == 14 { 'E' } else { 'F' }
}

/// The `#RRGGBB` rendering of a color, as a character sequence.
pub open spec fn spec_hex_color(red: u8, green: u8, blue: u8) -> Seq<char> {
    seq![
        '#',
        spec_hex_digit(red as int / 16),
        spec_hex_digit(red as int % 16),
        spec_hex_digit(green as int / 16),
        spec_hex_digit(green as int % 16),
        spec_hex_digit(blue as int / 16),
        spec_hex_digit(blue as int % 16),
    ]
}

fn hex_digit_str(n: u8) -> (r: &'static str)
    requires
        n < 16,
    ensures
        r@ =~= seq![spec_hex_digit(n as int)],
{
    proof {
        reveal_strlit("0"); reveal_strlit("1"); reveal_strlit("2"); reveal_strlit("3");
        reveal_strlit("4"); reveal_strlit("5"); reveal_strlit("6"); reveal_strlit("7");
        reveal_strlit("8"); reveal_strlit("9"); reveal_strlit("A"); reveal_strlit("B");
        reveal_strlit("C"); reveal_strlit("D"); reveal_strlit("E"); reveal_strlit("F");
    }
    match n {
        0 => "0",
        1 => "1",
        2 => "2",
        3 => "3",
        4 => "4",
        5 => "5",
        6 => "6",
        7 => "7",
        8 => "8",
        9 => "9",
        10 => "A",
        11 => "B",
        12 => "C",
        13 => "D",
        14 => "E",
        _ => "F",
    }
}

/// Render a color as an upper-case `#RRGGBB` string.
pub fn hex_color(red: u8, green: u8, blue: u8) -> (s: String)
    ensures
        s@ =~= spec_hex_color(red, green, blue),
{
    let mut s = String::new();
    proof {
        reveal_strlit("#");
    }
    s.append("#");
    s.append(hex_digit_str(red / 16));
    s.append(hex_digit_str(red % 16));
    s.append(hex_digit_str(green / 16));
    s.append(hex_digit_str(green % 16));
    s.append(hex_digit_str(blue / 16));
    s.append(hex_digit_str(blue % 16));
    s
}

} // verus!
