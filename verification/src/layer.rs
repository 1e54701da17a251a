//! The base screen layer: the top-level surface that owns a border and
//! the sibling presentation settings.  The window size is supplied by
//! the caller (queried from the terminal outside this library) and is
//! re-supplied on every render, so resizes are picked up naturally.

use vstd::prelude::*;
use crate::border::Border;
use crate::border::BorderType;
use crate::border::BorderView;
use crate::border::spec_default_border;
use crate::color::HexColor;
use crate::font::FontStyle;
use crate::font::TextAlignment;

verus! {

/// A whole-screen layer: window size, colors, border and text
/// presentation defaults.
pub struct BaseLayer {
    pub window_size: (usize, usize),
    pub background_color: HexColor,
    pub foreground_color: HexColor,
    pub border: Border,
    pub title: Option<String>,
    pub cursor_visibility: bool,
    pub default_cursor_position: (usize, usize),
    pub text_alignment: TextAlignment,
    pub font_style: FontStyle,
}

/// The border a fresh base layer carries: one visible dotted layer at
/// padding 1, drawn with `X` on every edge, colored `#FF0BB0`.
pub open spec fn spec_base_layer_border() -> BorderView {
    BorderView {
        visible: true,
        padding: 1,
        width: 1,
        color: "#FF0BB0"@,
        border_type: BorderType::Dotted,
        vertical_chars: seq!['X'],
        horizontal_chars: seq!['X'],
        ..spec_default_border()
    }
}

impl BaseLayer {
    /// A base layer for a window of the given size: black background,
    /// white foreground, the default border of `spec_base_layer_border`,
    /// no title, visible cursor at the origin, left-aligned plain text.
    pub fn new(window_size: (usize, usize)) -> (r: Self)
        ensures
            r.window_size == window_size,
            r.background_color@ == "#000000"@,
            r.foreground_color@ == "#FFFFFF"@,
            r.border@ == spec_base_layer_border(),
            r.title is None,
            r.cursor_visibility == true,
            r.default_cursor_position == (0usize, 0usize),
            r.text_alignment == TextAlignment::Left,
            !r.font_style.is_bold(),
            !r.font_style.is_italic(),
            !r.font_style.is_underline(),
    {
        let border = Border::new()
            .visible(true)
            .padding(1)
            .width(1)
            .color(HexColor::new("#FF0BB0"))
            .border_type(BorderType::Dotted)
            .border_char('X')
            .build();
        proof {
            assert(border@ =~= spec_base_layer_border());
        }
        Self {
            window_size,
            background_color: HexColor::new("#000000"),
            foreground_color: HexColor::new("#FFFFFF"),
            border,
            title: None,
            cursor_visibility: true,
            default_cursor_position: (0, 0),
            text_alignment: TextAlignment::Left,
            font_style: FontStyle::new(false, false, false),
        }
    }
}

} // verus!
