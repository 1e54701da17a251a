//! Hex-coded colors and their conversion to drawable RGB triples.
//!
//! A color is configured as a string in the form `#RRGGBB`.  Each
//! two-hex-digit component is parsed independently; a component that is
//! absent or malformed resolves to `0` rather than raising an error
//! (lenient-default policy).

use vstd::prelude::*;
use vstd::string::StrSliceExecFns;
use vstd::string::StringExecFns;

verus! {

/// A color given as a hex code, nominally in the form `#RRGGBB`.
pub struct HexColor {
    code: String,
}

/// An RGB triple: the drawable form of a `HexColor`.
#[derive(Clone, Copy, Debug, PartialEq, Eq, Structural)]
pub struct Rgb {
    pub r: u8,
    pub g: u8,
    pub b: u8,
}

/// Value of a single hex digit, or `-1` when `c` is not a hex digit.
pub open spec fn hex_digit_value(c: char) -> int {
    let u = c as u32;
    if ('0' as u32) <= u && u <= ('9' as u32) {
        u - ('0' as u32)
    } else if ('A' as u32) <= u && u <= ('F' as u32) {
        u - ('A' as u32) + 10
    } else if ('a' as u32) <= u && u <= ('f' as u32) {
        u - ('a' as u32) + 10
    } else {
        -1
    }
}

/// Whether `c` is a hex digit (either case).
pub open spec fn is_hex_digit(c: char) -> bool {
    hex_digit_value(c) >= 0
}

/// The byte encoded by the two hex digits at positions `i` and `i + 1`
/// of `s`, or `0` when either position is absent or not a hex digit.
pub open spec fn hex_pair_value(s: Seq<char>, i: int) -> u8 {
    if 0 <= i && i + 1 < s.len() && is_hex_digit(s[i]) && is_hex_digit(s[i + 1]) {
        (hex_digit_value(s[i]) * 16 + hex_digit_value(s[i + 1])) as u8
    } else {
        0u8
    }
}

/// The RGB triple that a hex code resolves to: the components sit at
/// positions 1, 3 and 5 (position 0 holds the `#` and is not examined).
pub open spec fn rgb_of(s: Seq<char>) -> Rgb {
    Rgb { r: hex_pair_value(s, 1), g: hex_pair_value(s, 3), b: hex_pair_value(s, 5) }
}

/// The hex code that colors fall back to when none is configured: white.
pub open spec fn default_color_code() -> Seq<char> {
    seq!['#', 'F', 'F', 'F', 'F', 'F', 'F']
}

impl View for HexColor {
    type V = Seq<char>;

    closed spec fn view(&self) -> Seq<char> {
        self.code@
    }
}

impl DeepView for HexColor {
    type V = Seq<char>;

    open spec fn deep_view(&self) -> Seq<char> {
        self.view()
    }
}

impl Clone for HexColor {
    fn clone(&self) -> (r: Self)
        ensures
            r@ == self@,
    {
        HexColor { code: self.code.clone() }
    }
}

/// The value of one hex digit, or `None` when `c` is not a hex digit.
fn hex_digit(c: char) -> (r: Option<u8>)
    ensures
        match r {
            Some(v) => v as int == hex_digit_value(c),
            None => !is_hex_digit(c),
        },
{
    let u = c as u32;
    if ('0' as u32) <= u && u <= ('9' as u32) {
        Some((u - ('0' as u32)) as u8)
    } else if ('A' as u32) <= u && u <= ('F' as u32) {
        Some((u - ('A' as u32) + 10) as u8)
    } else if ('a' as u32) <= u && u <= ('f' as u32) {
        Some((u - ('a' as u32) + 10) as u8)
    } else {
        None
    }
}

/// The byte encoded by the two hex digits of `s` at `i` and `i + 1`,
/// or `0` when either is absent or malformed.  `n` is the character
/// length of `s`.
fn hex_pair(s: &str, n: usize, i: usize) -> (r: u8)
    requires
        n == s@.len(),
        i < usize::MAX,
    ensures
        r == hex_pair_value(s@, i as int),
{
    if i + 1 < n {
        let hi = hex_digit(s.get_char(i));
        let lo = hex_digit(s.get_char(i + 1));
        match (hi, lo) {
            (Some(h), Some(l)) => h * 16 + l,
            _ => 0,
        }
    } else {
        0
    }
}

impl HexColor {
    /// Wraps a hex code string as a color.
    pub fn new(code: &str) -> (r: Self)
        ensures
            r@ == code@,
    {
        Self { code: String::from_str(code) }
    }

    /// Resolves the hex code into an RGB triple.  Each two-digit
    /// component parses independently; a missing or malformed component
    /// resolves to `0`.
    pub fn to_rgb(&self) -> (rgb: Rgb)
        ensures
            rgb == rgb_of(self@),
    {
        let s: &str = self.code.as_str();
        let n: usize = s.unicode_len();
        Rgb { r: hex_pair(s, n, 1), g: hex_pair(s, n, 3), b: hex_pair(s, n, 5) }
    }
}

} // verus!
