//! A chat color: red, green and blue components.

use crate::text::{chars_of, trim, trim_spec};
use vstd::prelude::*;

verus! {

/// A color as red, green and blue components.
#[derive(Clone, Copy, Debug, PartialEq, Eq)]
pub struct RGB(pub u8, pub u8, pub u8);

/// A hexadecimal digit.
pub open spec fn is_hex_digit(c: char) -> bool {
    ('0' <= c && c <= '9') || ('a' <= c && c <= 'f') || ('A' <= c && c <= 'F')
}

/// The value of a hexadecimal digit.
pub open spec fn hex_value(c: char) -> int {
    if '0' <= c && c <= '9' {
        c as int - '0' as int
    } else if 'a' <= c && c <= 'f' {
        c as int - 'a' as int + 10
    } else {
        c as int - 'A' as int + 10
    }
}

/// The byte that the two hexadecimal digits `s[i]`, `s[i + 1]` write.
pub open spec fn hex_byte(s: Seq<char>, i: int) -> u8 {
    (hex_value(s[i]) * 16 + hex_value(s[i + 1])) as u8
}

/// White, the color of a user who chose none.
pub open spec fn white() -> RGB {
    RGB(255, 255, 255)
}

/// Every character of `h` is a hexadecimal digit.
pub open spec fn all_hex(h: Seq<char>) -> bool {
    forall|k: int| 0 <= k < h.len() ==> is_hex_digit(#[trigger] h[k])
}

/// The six hexadecimal digits of a color written `#rrggbb` or `rrggbb`, if it is one.
pub open spec fn color_digits(s: Seq<char>) -> Option<Seq<char>> {
    let t = trim_spec(s);
    let h = if t.len() == 7 && t[0] == '#' {
        t.drop_first()
    } else {
        t
    };
    if h.len() == 6 && all_hex(h) {
        Some(h)
    } else {
        None
    }
}

/// The color that `s` writes as `#rrggbb` or `rrggbb` (surrounding whitespace aside),
/// or white when it writes none.
pub open spec fn parse_rgb(s: Seq<char>) -> RGB {
    match color_digits(s) {
        Some(h) => RGB(hex_byte(h, 0), hex_byte(h, 2), hex_byte(h, 4)),
        None => white(),
    }
}

fn hex_digit(c: char) -> (r: Option<u8>)
    ensures
        r is Some == is_hex_digit(c),
        r matches Some(v) ==> v as int == hex_value(c) && v < 16,
{
    if '0' <= c && c <= '9' {
        Some(((c as u32) - ('0' as u32)) as u8)
    } else if 'a' <= c && c <= 'f' {
        Some(((c as u32) - ('a' as u32) + 10) as u8)
    } else if 'A' <= c && c <= 'F' {
        Some(((c as u32) - ('A' as u32) + 10) as u8)
    } else {
        None
    }
}

impl RGB {
    /// The color that `s` writes as `#rrggbb` or `rrggbb`, or white.
    pub fn from_str(s: &str) -> (r: RGB)
        ensures
            r == parse_rgb(s@),
    {
        let t = chars_of(trim(s));
        let start: usize = if t.len() == 7 && t[0] == '#' {
            1
        } else {
            0
        };
        let ghost h = if t@.len() == 7 && t@[0] == '#' {
            t@.drop_first()
        } else {
            t@
        };
        assert(h =~= t@.subrange(start as int, t@.len() as int));
        if t.len() - start != 6 {
            return RGB(255, 255, 255);
        }
        let mut vals: Vec<u8> = Vec::new();
        let mut i: usize = 0;
        while i < 6
            invariant
                t@.len() == start + 6,
                start <= 1,
                t@ == trim_spec(s@),
                h == (if t@.len() == 7 && t@[0] == '#' {
                    t@.drop_first()
                } else {
                    t@
                }),
                h =~= t@.subrange(start as int, t@.len() as int),
                i <= 6,
                vals@.len() == i,
                forall|k: int| 0 <= k < i ==> is_hex_digit(#[trigger] h[k]),
                forall|k: int| 0 <= k < i ==> vals@[k] as int == hex_value(#[trigger] h[k]),
                forall|k: int| 0 <= k < i ==> #[trigger] vals@[k] < 16,
            decreases 6 - i,
        {
            match hex_digit(t[start + i]) {
                Some(v) => vals.push(v),
                None => {
                    assert(!is_hex_digit(h[i as int]));
                    assert(h.len() == 6);
                    return RGB(255, 255, 255);
                },
            }
            i += 1;
        }
        assert(h[0] == t@[start as int]);
        let r = vals[0] * 16 + vals[1];
        let g = vals[2] * 16 + vals[3];
        let b = vals[4] * 16 + vals[5];
        RGB(r, g, b)
    }

    /// The color with the given components.
    pub fn from_rgb(r: u8, g: u8, b: u8) -> (c: RGB)
        ensures
            c == RGB(r, g, b),
    {
        RGB(r, g, b)
    }
}

} // verus!
