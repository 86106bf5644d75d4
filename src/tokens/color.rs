use vstd::prelude::*;

use crate::text::{push_char, push_str, chars_of};

verus! {

/// The value of a hexadecimal digit, or -1 for any other character.
pub open spec fn hex_value(c: char) -> int {
    if '0' <= c && c <= '9' {
        c as int - '0' as int
    } else if 'a' <= c && c <= 'f' {
        c as int - 'a' as int + 10
    } else if 'A' <= c && c <= 'F' {
        c as int - 'A' as int + 10
    } else {
        -1
    }
}

/// Whether `s` is a color literal `#RRGGBB`.
pub open spec fn is_hex_color(s: Seq<char>) -> bool {
    s.len() == 7 && s[0] == '#' && forall|i: int| 1 <= i < 7 ==> hex_value(#[trigger] s[i]) >= 0
}

/// The channel written by the two hex digits at `i` and `i + 1`.
pub open spec fn channel(s: Seq<char>, i: int) -> int {
    16 * hex_value(s[i]) + hex_value(s[i + 1])
}

pub open spec fn digit_char(d: int) -> char {
    (d + '0' as int) as char
}

/// The decimal digits of `n`, without leading zeros.
pub open spec fn decimal(n: nat) -> Seq<char>
    decreases n,
{
    if n < 10 {
        seq![digit_char(n as int)]
    } else {
        decimal(n / 10).push(digit_char(n as int % 10))
    }
}

/// The three channels of a color literal, as `R, G, B` in decimal.
pub open spec fn rgb_channels(s: Seq<char>) -> Seq<char> {
    decimal(channel(s, 1) as nat) + ", "@ + decimal(channel(s, 3) as nat) + ", "@ + decimal(
        channel(s, 5) as nat,
    )
}

fn hex_digit(c: char) -> (r: Option<u8>)
    ensures
        match r {
            Some(d) => hex_value(c) == d as int && d < 16,
            None => hex_value(c) < 0,
        },
{
    if '0' <= c && c <= '9' {
        Some((c as u32 - '0' as u32) as u8)
    } else if 'a' <= c && c <= 'f' {
        Some((c as u32 - 'a' as u32 + 10) as u8)
    } else if 'A' <= c && c <= 'F' {
        Some((c as u32 - 'A' as u32 + 10) as u8)
    } else {
        None
    }
}

fn digit(d: u8) -> (c: char)
    requires
        d < 10,
    ensures
        c == digit_char(d as int),
{
    (d + 48) as char
}

/// The decimal digits of `n`.
pub fn decimal_string(n: u8) -> (r: String)
    ensures
        r@ == decimal(n as nat),
{
    let mut r = String::new();
    if n >= 100 {
        push_char(&mut r, digit(n / 100));
        push_char(&mut r, digit((n / 10) % 10));
        push_char(&mut r, digit(n % 10));
        proof {
            reveal_with_fuel(decimal, 3);
            assert(r@ =~= decimal(n as nat));
        }
    } else if n >= 10 {
        push_char(&mut r, digit(n / 10));
        push_char(&mut r, digit(n % 10));
        proof {
            reveal_with_fuel(decimal, 2);
            assert(r@ =~= decimal(n as nat));
        }
    } else {
        push_char(&mut r, digit(n));
        assert(r@ =~= decimal(n as nat));
    }
    r
}

/// The three channels of a `#RRGGBB` literal, each in `0..=255`; `None` for any other text.
pub fn parse_hex_color(s: &str) -> (r: Option<(u8, u8, u8)>)
    ensures
        match r {
            Some((red, green, blue)) => is_hex_color(s@) && red as int == channel(s@, 1)
                && green as int == channel(s@, 3) && blue as int == channel(s@, 5),
            None => !is_hex_color(s@),
        },
{
    let cs = chars_of(s);
    if cs.len() != 7 || cs[0] != '#' {
        return None;
    }
    let mut values: Vec<u8> = Vec::new();
    let mut i: usize = 1;
    while i < 7
        invariant
            1 <= i <= 7,
            cs@ == s@,
            cs@.len() == 7,
            values@.len() == i - 1,
            forall|j: int| 1 <= j < i ==> hex_value(#[trigger] cs@[j]) == values@[j - 1] as int,
            forall|j: int| 0 <= j < values@.len() ==> values@[j] < 16,
        decreases 7 - i,
    {
        match hex_digit(cs[i]) {
            Some(d) => values.push(d),
            None => {
                return None;
            },
        }
        i = i + 1;
    }
    let red = values[0] * 16 + values[1];
    let green = values[2] * 16 + values[3];
    let blue = values[4] * 16 + values[5];
    Some((red, green, blue))
}

/// The channels of a `#RRGGBB` literal as `R, G, B`, or `None` for any other text.
pub fn hex_to_rgb_channels(s: &str) -> (r: Option<String>)
    ensures
        match r {
            Some(t) => is_hex_color(s@) && t@ == rgb_channels(s@),
            None => !is_hex_color(s@),
        },
{
    match parse_hex_color(s) {
        Some((red, green, blue)) => {
            let mut t = decimal_string(red);
            push_str(&mut t, ", ");
            let g = decimal_string(green);
            push_str(&mut t, g.as_str());
            push_str(&mut t, ", ");
            let b = decimal_string(blue);
            push_str(&mut t, b.as_str());
            Some(t)
        },
        None => None,
    }
}

} // verus!
