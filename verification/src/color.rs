//! Hex color attributes: an optional `#`, an optional two-digit alpha, then
//! two hex digits each of red, green and blue.

use vstd::prelude::*;

use crate::TmxError;

verus! {

/// An RGBA color. Alpha defaults to 255 when the attribute carries only six
/// digits.
#[derive(Debug, Clone, Copy, PartialEq, Eq, Structural)]
pub struct Color {
    pub r: u8,
    pub g: u8,
    pub b: u8,
    pub a: u8,
}

pub open spec fn is_hex_char(c: char) -> bool {
    (48 <= c as u32 && c as u32 <= 57) || (97 <= c as u32 && c as u32 <= 102) || (65 <= c as u32
        && c as u32 <= 70)
}

pub open spec fn hex_char_val(c: char) -> int {
    if 48 <= c as u32 && c as u32 <= 57 {
        c as u32 - 48
    } else if 97 <= c as u32 && c as u32 <= 102 {
        c as u32 - 87
    } else {
        c as u32 - 55
    }
}

pub open spec fn all_hex(s: Seq<char>) -> bool {
    forall|i: int| 0 <= i < s.len() ==> is_hex_char(#[trigger] s[i])
}

/// The byte value of the two hex digits at `i`.
pub open spec fn hex_pair_val(s: Seq<char>, i: int) -> int {
    hex_char_val(s[i]) * 16 + hex_char_val(s[i + 1])
}

/// What a color attribute denotes, as `(r, g, b, a)`: after an optional `#`,
/// exactly `RRGGBB` or `AARRGGBB` in hex; anything else is malformed.
pub open spec fn color_spec(s: Seq<char>) -> Option<(u8, u8, u8, u8)> {
    let t = if s.len() > 0 && s[0] == '#' {
        s.drop_first()
    } else {
        s
    };
    if t.len() == 6 && all_hex(t) {
        Some(
            (
                hex_pair_val(t, 0) as u8,
                hex_pair_val(t, 2) as u8,
                hex_pair_val(t, 4) as u8,
                255u8,
            ),
        )
    } else if t.len() == 8 && all_hex(t) {
        Some(
            (
                hex_pair_val(t, 2) as u8,
                hex_pair_val(t, 4) as u8,
                hex_pair_val(t, 6) as u8,
                hex_pair_val(t, 0) as u8,
            ),
        )
    } else {
        Option::None
    }
}

/// The hex value of one character, if it is a hex digit.
fn hex_digit(c: char) -> (r: Option<u8>)
    ensures
        match r {
            Some(v) => is_hex_char(c) && v as int == hex_char_val(c),
            None => !is_hex_char(c),
        },
{
    let u = c as u32;
    if 48 <= u && u <= 57 {
        Some((u - 48) as u8)
    } else if 97 <= u && u <= 102 {
        Some((u - 87) as u8)
    } else if 65 <= u && u <= 70 {
        Some((u - 55) as u8)
    } else {
        None
    }
}

/// The byte denoted by the two hex digits at `i`, if both are hex digits.
fn hex_pair(s: &str, i: usize) -> (r: Option<u8>)
    requires
        i + 1 < s@.len(),
        s@.len() <= usize::MAX,
    ensures
        match r {
            Some(v) => is_hex_char(s@[i as int]) && is_hex_char(s@[i as int + 1]) && v as int
                == hex_pair_val(s@, i as int),
            None => !(is_hex_char(s@[i as int]) && is_hex_char(s@[i as int + 1])),
        },
{
    let h = hex_digit(s.get_char(i));
    let l = hex_digit(s.get_char(i + 1));
    match (h, l) {
        (Some(a), Some(b)) => Some(a * 16 + b),
        _ => None,
    }
}

impl Color {
    /// Parse a color attribute.
    pub fn parse(s: &str) -> (res: Result<Color, TmxError>)
        ensures
            match res {
                Ok(c) => color_spec(s@) == Some((c.r, c.g, c.b, c.a)),
                Err(e) => color_spec(s@) is None && e == TmxError::MalformedColor,
            },
    {
        let len = s.unicode_len();
        let off: usize = if len > 0 && s.get_char(0) == '#' {
            1
        } else {
            0
        };
        let ghost t = if s@.len() > 0 && s@[0] == '#' {
            s@.drop_first()
        } else {
            s@
        };
        proof {
            assert(t =~= s@.skip(off as int));
            assert(forall|j: int| 0 <= j < t.len() ==> t[j] == s@[off + j]);
        }
        let rem = len - off;
        if rem != 6 && rem != 8 {
            return Err(TmxError::MalformedColor);
        }
        let alpha_first = rem == 8;
        let color_at = if alpha_first {
            off + 2
        } else {
            off
        };
        let red = hex_pair(s, color_at);
        let green = hex_pair(s, color_at + 2);
        let blue = hex_pair(s, color_at + 4);
        let alpha = if alpha_first {
            hex_pair(s, off)
        } else {
            Some(255u8)
        };
        match (red, green, blue, alpha) {
            (Some(r), Some(g), Some(b), Some(a)) => {
                proof {
                    assert(all_hex(t)) by {
                        assert forall|i: int| 0 <= i < t.len() implies is_hex_char(
                            #[trigger] t[i],
                        ) by {
                            assert(t[i] == s@[off + i]);
                        }
                    }
                    if alpha_first {
                        assert(hex_pair_val(t, 2) == hex_pair_val(s@, off as int + 2));
                        assert(hex_pair_val(t, 4) == hex_pair_val(s@, off as int + 4));
                        assert(hex_pair_val(t, 6) == hex_pair_val(s@, off as int + 6));
                        assert(hex_pair_val(t, 0) == hex_pair_val(s@, off as int));
                    } else {
                        assert(hex_pair_val(t, 0) == hex_pair_val(s@, off as int));
                        assert(hex_pair_val(t, 2) == hex_pair_val(s@, off as int + 2));
                        assert(hex_pair_val(t, 4) == hex_pair_val(s@, off as int + 4));
                    }
                }
                Ok(Color { r, g, b, a })
            },
            _ => {
                proof {
                    assert(!all_hex(t)) by {
                        if red is None {
                            assert(t[color_at - off as int] == s@[color_at as int]);
                            assert(t[color_at - off as int + 1] == s@[color_at as int + 1]);
                        } else if green is None {
                            assert(t[color_at + 2 - off as int] == s@[color_at as int + 2]);
                            assert(t[color_at + 2 - off as int + 1] == s@[color_at as int + 3]);
                        } else if blue is None {
                            assert(t[color_at + 4 - off as int] == s@[color_at as int + 4]);
                            assert(t[color_at + 4 - off as int + 1] == s@[color_at as int + 5]);
                        } else {
                            assert(t[0] == s@[off as int]);
                            assert(t[1] == s@[off as int + 1]);
                        }
                    }
                }
                Err(TmxError::MalformedColor)
            },
        }
    }
}

} // verus!
