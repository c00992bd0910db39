//! Shared enums used across several API endpoints, and hex colors.

use vstd::prelude::*;
use vstd::string::*;

verus! {

/// Direction of travel on the BART network.
#[derive(Debug, Clone, Copy, PartialEq, Eq, Structural)]
pub enum Direction {
    North,
    South,
}

impl Direction {
    /// The name the API and the display use for this direction.
    pub open spec fn spec_name(self) -> Seq<char> {
        match self {
            Direction::North => "North"@,
            Direction::South => "South"@,
        }
    }

    /// Returns `"North"` or `"South"`.
    pub fn name(&self) -> (s: &'static str)
        ensures
            s@ == self.spec_name(),
    {
        match self {
            Direction::North => "North",
            Direction::South => "South",
        }
    }

    /// The direction a name denotes, if any.
    pub open spec fn spec_from_name(s: Seq<char>) -> Option<Direction> {
        if s == "North"@ {
            Some(Direction::North)
        } else if s == "South"@ {
            Some(Direction::South)
        } else {
            None
        }
    }

    /// Reads a direction from its name; `None` for any other text.
    pub fn from_name(s: &str) -> (r: Option<Direction>)
        ensures
            r == Direction::spec_from_name(s@),
    {
        if crate::text::str_eq(s, "North") {
            Some(Direction::North)
        } else if crate::text::str_eq(s, "South") {
            Some(Direction::South)
        } else {
            None
        }
    }
}

/// Reading back the name of a direction gives the direction.
pub proof fn lemma_direction_name_roundtrip(d: Direction)
    ensures
        Direction::spec_from_name(d.spec_name()) == Some(d),
{
    reveal_strlit("North");
    reveal_strlit("South");
    assert("North"@[0] != "South"@[0]);
}

/// The value of an ASCII hexadecimal digit (either case).
pub open spec fn hex_digit(b: u8) -> Option<nat> {
    if 0x30 <= b <= 0x39 {
        Some((b - 0x30) as nat)
    } else if 0x61 <= b <= 0x66 {
        Some((b - 0x61 + 10) as nat)
    } else if 0x41 <= b <= 0x46 {
        Some((b - 0x41 + 10) as nat)
    } else {
        None
    }
}

/// The byte that two hexadecimal digits encode.
pub open spec fn hex_pair(b0: u8, b1: u8) -> Option<u8> {
    match (hex_digit(b0), hex_digit(b1)) {
        (Some(h), Some(l)) => Some((h * 16 + l) as u8),
        _ => None,
    }
}

/// `s` without its leading `#`, if it has one.
pub open spec fn hex_body(s: Seq<u8>) -> Seq<u8> {
    if s.len() > 0 && s[0] == 0x23 {
        s.drop_first()
    } else {
        s
    }
}

/// The `(r, g, b)` components of a color written as six hex digits, with or
/// without a leading `#`; `None` for any other text.
pub open spec fn spec_hex_to_rgb(s: Seq<u8>) -> Option<(u8, u8, u8)> {
    let h = hex_body(s);
    if h.len() != 6 {
        None
    } else {
        match (hex_pair(h[0], h[1]), hex_pair(h[2], h[3]), hex_pair(h[4], h[5])) {
            (Some(r), Some(g), Some(b)) => Some((r, g, b)),
            _ => None,
        }
    }
}

fn hex_digit_exec(b: u8) -> (r: Option<u8>)
    ensures
        match r {
            Some(v) => hex_digit(b) == Some(v as nat),
            None => hex_digit(b) is None,
        },
{
    if 0x30 <= b && b <= 0x39 {
        Some(b - 0x30)
    } else if 0x61 <= b && b <= 0x66 {
        Some(b - 0x61 + 10)
    } else if 0x41 <= b && b <= 0x46 {
        Some(b - 0x41 + 10)
    } else {
        None
    }
}

fn hex_pair_exec(b0: u8, b1: u8) -> (r: Option<u8>)
    ensures
        r == hex_pair(b0, b1),
{
    match (hex_digit_exec(b0), hex_digit_exec(b1)) {
        (Some(h), Some(l)) => Some(h * 16 + l),
        _ => None,
    }
}

/// Parses a hex color string into `(r, g, b)` components.
///
/// Accepts strings with or without a leading `#`. Returns `None` if the input
/// is not a valid 6-digit hex color.
pub fn hex_to_rgb(hex: &str) -> (r: Option<(u8, u8, u8)>)
    ensures
        r == spec_hex_to_rgb(hex.spec_bytes()),
{
    let b = hex.as_bytes();
    let n = b.len();
    let k: usize = if n > 0 && b[0] == 0x23 { 1 } else { 0 };
    proof {
        assert(hex_body(b@) =~= b@.subrange(k as int, n as int));
    }
    if n - k != 6 {
        return None;
    }
    let r = hex_pair_exec(b[k], b[k + 1]);
    let g = hex_pair_exec(b[k + 2], b[k + 3]);
    let bl = hex_pair_exec(b[k + 4], b[k + 5]);
    match (r, g, bl) {
        (Some(r), Some(g), Some(bl)) => Some((r, g, bl)),
        _ => None,
    }
}

/// The upper-case hex digit for a value below 16.
pub open spec fn hex_char(v: nat) -> u8 {
    if v < 10 {
        (v + 0x30) as u8
    } else {
        (v - 10 + 0x41) as u8
    }
}

/// The usual `#RRGGBB` text of a color.
pub open spec fn hex_color_text(r: u8, g: u8, b: u8) -> Seq<u8> {
    seq![
        0x23u8,
        hex_char(r as nat / 16),
        hex_char(r as nat % 16),
        hex_char(g as nat / 16),
        hex_char(g as nat % 16),
        hex_char(b as nat / 16),
        hex_char(b as nat % 16),
    ]
}

/// Every color written as `#RRGGBB` reads back as its components.
pub proof fn lemma_hex_color_roundtrip(r: u8, g: u8, b: u8)
    ensures
        spec_hex_to_rgb(hex_color_text(r, g, b)) == Some((r, g, b)),
{
    let t = hex_color_text(r, g, b);
    let h = t.drop_first();
    assert(h.len() == 6);
    assert(hex_body(t) == h);
    assert(hex_digit(h[0]) == Some(r as nat / 16));
    assert(hex_digit(h[1]) == Some(r as nat % 16));
    assert(hex_digit(h[2]) == Some(g as nat / 16));
    assert(hex_digit(h[3]) == Some(g as nat % 16));
    assert(hex_digit(h[4]) == Some(b as nat / 16));
    assert(hex_digit(h[5]) == Some(b as nat % 16));
}

/// A leading `#` does not change the color a string denotes, unless the rest
/// starts with `#` itself.
pub proof fn lemma_hash_prefix_irrelevant(s: Seq<u8>)
    requires
        s.len() == 0 || s[0] != 0x23,
    ensures
        spec_hex_to_rgb(seq![0x23u8] + s) == spec_hex_to_rgb(s),
{
    assert((seq![0x23u8] + s).drop_first() =~= s);
}

/// The byte with an ASCII lower-case letter made upper-case; every other
/// byte as it is.
pub open spec fn ascii_upper(b: u8) -> u8 {
    if 0x61 <= b <= 0x7a {
        (b - 0x20) as u8
    } else {
        b
    }
}

/// The letters `a`-`f` and `A`-`F` are the digits 10 to 15, in either case.
pub proof fn lemma_hex_letters(b: u8)
    requires
        0x61 <= b <= 0x66 || 0x41 <= b <= 0x46,
    ensures
        hex_digit(b) == Some((ascii_upper(b) - 0x41 + 10) as nat),
        hex_digit(b) == hex_digit(ascii_upper(b)),
{
}

/// Letter case does not matter in a color: a string denotes the same color
/// as the string with its ASCII letters upper-cased.
pub proof fn lemma_hex_case_insensitive(s: Seq<u8>)
    ensures
        spec_hex_to_rgb(s) == spec_hex_to_rgb(s.map_values(|b: u8| ascii_upper(b))),
{
    let u = s.map_values(|b: u8| ascii_upper(b));
    assert forall|b: u8| #[trigger] hex_digit(b) == hex_digit(ascii_upper(b)) by {}
    let h = hex_body(s);
    let hu = hex_body(u);
    assert(hu.len() == h.len());
    assert forall|i: int| 0 <= i < h.len() implies #[trigger] hu[i] == ascii_upper(h[i]) by {
        if s.len() > 0 && s[0] == 0x23 {
            assert(u[0] == 0x23);
            assert(hu[i] == u[i + 1]);
        } else {
            if s.len() > 0 {
                assert(u[0] == ascii_upper(s[0]));
            }
            assert(hu[i] == u[i]);
        }
    }
    if h.len() == 6 {
        assert(hex_pair(hu[0], hu[1]) == hex_pair(h[0], h[1]));
        assert(hex_pair(hu[2], hu[3]) == hex_pair(h[2], h[3]));
        assert(hex_pair(hu[4], hu[5]) == hex_pair(h[4], h[5]));
    }
}

} // verus!
