//! Font style and text alignment metadata: sibling configuration of
//! the border engine, carried but not consumed by it.

use vstd::prelude::*;

verus! {

/// Horizontal alignment of text inside a layer.
#[derive(Clone, Copy, PartialEq, Eq, Debug, Structural)]
pub enum TextAlignment {
    Left,
    Center,
    Right,
}

/// Character style flags.
pub struct FontStyle {
    bold: bool,
    italic: bool,
    underline: bool,
}

impl FontStyle {
    /// Whether the style is bold.
    pub closed spec fn is_bold(&self) -> bool {
        self.bold
    }

    /// Whether the style is italic.
    pub closed spec fn is_italic(&self) -> bool {
        self.italic
    }

    /// Whether the style is underlined.
    pub closed spec fn is_underline(&self) -> bool {
        self.underline
    }

    /// Bundles the three style flags.
    pub fn new(bold: bool, italic: bool, underline: bool) -> (r: Self)
        ensures
            r.is_bold() == bold,
            r.is_italic() == italic,
            r.is_underline() == underline,
    {
        Self { bold, italic, underline }
    }
}

} // verus!
