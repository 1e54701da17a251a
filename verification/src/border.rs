//! Border configuration: the immutable-once-built description of a
//! layered border, the staging builder that produces it, and the
//! validation that runs before any drawing.

use vstd::prelude::*;
use crate::color::HexColor;
use crate::color::default_color_code;
use crate::render::resolve_spec;

verus! {

/// The stock glyph families a border can be drawn with.
#[derive(Clone, Copy, PartialEq, Eq, Debug, Structural)]
pub enum BorderType {
    Solid,
    Dotted,
    Dashed,
    Double,
}

/// The default glyph for vertical edges of a border type.
pub open spec fn default_vertical_char(t: BorderType) -> char {
    match t {
        BorderType::Solid => '│',
        BorderType::Dotted => '┆',
        BorderType::Dashed => '┊',
        BorderType::Double => '║',
    }
}

/// The default glyph for horizontal edges of a border type.
pub open spec fn default_horizontal_char(t: BorderType) -> char {
    match t {
        BorderType::Solid => '─',
        BorderType::Dotted => '┄',
        BorderType::Dashed => '┈',
        BorderType::Double => '═',
    }
}

/// The glyph lists a border is drawn with: one entry intended per
/// layer, with last-element fallback for layers beyond a list's length.
/// A non-null `omni_char` switches rendering to a single full-perimeter
/// sweep that ignores every list here.
pub struct DecorationLine {
    pub(crate) omni_char: char,
    pub(crate) vertical_char: Vec<char>,
    pub(crate) horizontal_char: Vec<char>,
    pub(crate) top_right_corner_char: Vec<char>,
    pub(crate) top_left_corner_char: Vec<char>,
    pub(crate) bottom_right_corner_char: Vec<char>,
    pub(crate) bottom_left_corner_char: Vec<char>,
}

/// The properties of a layered border.  Built once by `BorderBuilder`
/// and immutable afterwards; geometry is recomputed from the window
/// size passed into each render call.
pub struct Border {
    pub(crate) visible: bool,
    pub(crate) padding: usize,
    pub(crate) width: usize,
    pub(crate) color: HexColor,
    pub(crate) border_type: BorderType,
    pub(crate) decoration_lines: DecorationLine,
    pub(crate) border_colors: Vec<HexColor>,
    pub(crate) color_overflow: bool,
}

/// The mathematical content of a `Border`: every list as a sequence,
/// every color as its hex-code character sequence.
#[verifier::ext_equal]
pub struct BorderView {
    pub visible: bool,
    pub padding: nat,
    pub width: nat,
    pub color: Seq<char>,
    pub border_type: BorderType,
    pub omni_char: char,
    pub vertical_chars: Seq<char>,
    pub horizontal_chars: Seq<char>,
    pub top_left_chars: Seq<char>,
    pub top_right_chars: Seq<char>,
    pub bottom_left_chars: Seq<char>,
    pub bottom_right_chars: Seq<char>,
    pub colors: Seq<Seq<char>>,
    pub color_overflow: bool,
}

impl View for Border {
    type V = BorderView;

    closed spec fn view(&self) -> BorderView {
        BorderView {
            visible: self.visible,
            padding: self.padding as nat,
            width: self.width as nat,
            color: self.color@,
            border_type: self.border_type,
            omni_char: self.decoration_lines.omni_char,
            vertical_chars: self.decoration_lines.vertical_char@,
            horizontal_chars: self.decoration_lines.horizontal_char@,
            top_left_chars: self.decoration_lines.top_left_corner_char@,
            top_right_chars: self.decoration_lines.top_right_corner_char@,
            bottom_left_chars: self.decoration_lines.bottom_left_corner_char@,
            bottom_right_chars: self.decoration_lines.bottom_right_corner_char@,
            colors: self.border_colors.deep_view(),
            color_overflow: self.color_overflow,
        }
    }
}

/// The configuration a border starts from: one visible solid layer,
/// no padding, white, classic box-drawing corners.
pub open spec fn spec_default_border() -> BorderView {
    BorderView {
        visible: true,
        padding: 0,
        width: 1,
        color: "#FFFFFF"@,
        border_type: BorderType::Solid,
        omni_char: '\0',
        vertical_chars: seq![default_vertical_char(BorderType::Solid)],
        horizontal_chars: seq![default_horizontal_char(BorderType::Solid)],
        top_left_chars: seq!['┌'],
        top_right_chars: seq!['┐'],
        bottom_left_chars: seq!['└'],
        bottom_right_chars: seq!['┘'],
        colors: seq!["#FFFFFF"@],
        color_overflow: false,
    }
}

/// A configuration fault, detected before any cell is written.
#[derive(Clone, Copy, Debug, PartialEq, Eq, Structural)]
pub enum ConfigError {
    /// The layer count is zero.
    ZeroWidth,
    /// More colors were supplied than there are layers.
    TooManyColors,
    /// No vertical edge glyph is available (empty list, or an omni
    /// glyph shadows the per-edge lists).
    MissingVerticalChar,
    /// No horizontal edge glyph is available.
    MissingHorizontalChar,
    /// One of the four corner glyph lists is empty.
    MissingCornerChar,
}

/// The message a configuration error reports.
pub open spec fn spec_message(e: ConfigError) -> Seq<char> {
    match e {
        ConfigError::ZeroWidth => "Border width cannot be 0"@,
        ConfigError::TooManyColors => "Number of colors provided exceeds border width"@,
        ConfigError::MissingVerticalChar => "Appropriate vertical character not provided"@,
        ConfigError::MissingHorizontalChar => "Appropriate horizontal character not provided"@,
        ConfigError::MissingCornerChar => "Appropriate corner character not provided"@,
    }
}

impl ConfigError {
    /// A human-readable description of the fault.
    pub fn message(&self) -> (m: &'static str)
        ensures
            m@ == spec_message(*self),
    {
        match self {
            ConfigError::ZeroWidth => "Border width cannot be 0",
            ConfigError::TooManyColors => "Number of colors provided exceeds border width",
            ConfigError::MissingVerticalChar => "Appropriate vertical character not provided",
            ConfigError::MissingHorizontalChar => "Appropriate horizontal character not provided",
            ConfigError::MissingCornerChar => "Appropriate corner character not provided",
        }
    }
}

/// The checks shared by every render entry point: a border must have at
/// least one layer, and never more colors than layers.
pub open spec fn spec_validate_common(v: BorderView) -> Option<ConfigError> {
    if v.width == 0 {
        Some(ConfigError::ZeroWidth)
    } else if v.color_overflow || v.colors.len() > v.width {
        Some(ConfigError::TooManyColors)
    } else {
        None
    }
}

/// Validation for a full box render.  In omni mode the per-edge and
/// per-corner lists are irrelevant and not inspected; otherwise each of
/// them must be non-empty.
pub open spec fn spec_validate_box(v: BorderView) -> Option<ConfigError> {
    if spec_validate_common(v) is Some {
        spec_validate_common(v)
    } else if v.omni_char != '\0' {
        None
    } else if v.vertical_chars.len() == 0 {
        Some(ConfigError::MissingVerticalChar)
    } else if v.horizontal_chars.len() == 0 {
        Some(ConfigError::MissingHorizontalChar)
    } else if v.top_left_chars.len() == 0 || v.top_right_chars.len() == 0
        || v.bottom_left_chars.len() == 0 || v.bottom_right_chars.len() == 0 {
        Some(ConfigError::MissingCornerChar)
    } else {
        None
    }
}

/// Validation for the vertical-edges pass alone, which has no omni
/// path: an omni glyph or an empty vertical list is a fault.
pub open spec fn spec_validate_vertical(v: BorderView) -> Option<ConfigError> {
    if spec_validate_common(v) is Some {
        spec_validate_common(v)
    } else if v.omni_char != '\0' || v.vertical_chars.len() == 0 {
        Some(ConfigError::MissingVerticalChar)
    } else {
        None
    }
}

/// Validation for the horizontal-edges pass alone.
pub open spec fn spec_validate_horizontal(v: BorderView) -> Option<ConfigError> {
    if spec_validate_common(v) is Some {
        spec_validate_common(v)
    } else if v.omni_char != '\0' || v.horizontal_chars.len() == 0 {
        Some(ConfigError::MissingHorizontalChar)
    } else {
        None
    }
}

impl Border {
    /// Starts a builder from the default configuration.
    pub fn new() -> (b: BorderBuilder)
        ensures
            b@ == spec_default_border(),
    {
        BorderBuilder { border: Border::default() }
    }

    /// The color layer `layer` resolves to: its own entry if present,
    /// else the last configured color, else white.
    pub(crate) fn get_border_color(&self, layer: usize) -> (r: HexColor)
        ensures
            r@ == resolve_spec(self@.colors, layer as int, default_color_code()),
    {
        let n = self.border_colors.len();
        if layer < n {
            self.border_colors[layer].clone()
        } else if n > 0 {
            self.border_colors[n - 1].clone()
        } else {
            let c = HexColor::new("#FFFFFF");
            proof {
                reveal_strlit("#FFFFFF");
                assert(c@ =~= default_color_code());
            }
            c
        }
    }

    /// The stock vertical-edge glyph of a border type.
    pub(crate) fn default_vertical_border_char(border_type: BorderType) -> (c: char)
        ensures
            c == default_vertical_char(border_type),
    {
        match border_type {
            BorderType::Solid => '│',
            BorderType::Dotted => '┆',
            BorderType::Dashed => '┊',
            BorderType::Double => '║',
        }
    }

    /// The stock horizontal-edge glyph of a border type.
    pub(crate) fn default_horizontal_border_char(border_type: BorderType) -> (c: char)
        ensures
            c == default_horizontal_char(border_type),
    {
        match border_type {
            BorderType::Solid => '─',
            BorderType::Dotted => '┄',
            BorderType::Dashed => '┈',
            BorderType::Double => '═',
        }
    }

    /// Whether `(x, y)` lies in the padding band: before the padding
    /// offset, or at or beyond `width - padding` in either coordinate.
    pub(crate) fn check_current_position_is_padding(&self, x_axis: usize, y_axis: usize) -> (r:
        bool)
        requires
            self@.padding <= self@.width,
        ensures
            r == (x_axis < self@.padding || y_axis < self@.padding || x_axis >= self@.width
                - self@.padding || y_axis >= self@.width - self@.padding),
    {
        (x_axis < self.padding) || (y_axis < self.padding) || (x_axis >= self.width - self.padding)
            || (y_axis >= self.width - self.padding)
    }

    /// Whether a border cell should be drawn at `(x, y)`: the border is
    /// visible and the position is not in the padding band.
    pub(crate) fn should_render_border(&self, x_axis: usize, y_axis: usize) -> (r: bool)
        requires
            self@.padding <= self@.width,
        ensures
            r == (!(x_axis < self@.padding || y_axis < self@.padding || x_axis >= self@.width
                - self@.padding || y_axis >= self@.width - self@.padding) && self@.visible),
    {
        !self.check_current_position_is_padding(x_axis, y_axis) && self.visible
    }

    /// The configured border type.
    pub(crate) fn check_border_type(&self) -> (t: BorderType)
        ensures
            t == self@.border_type,
    {
        self.border_type
    }

    /// Runs the checks shared by every render entry point.
    pub(crate) fn validate_common(&self) -> (r: Option<ConfigError>)
        ensures
            r == spec_validate_common(self@),
    {
        if self.width == 0 {
            Some(ConfigError::ZeroWidth)
        } else if self.color_overflow || self.border_colors.len() > self.width {
            Some(ConfigError::TooManyColors)
        } else {
            None
        }
    }

    /// Runs the vertical-pass validation.
    pub(crate) fn validate_vertical(&self) -> (r: Option<ConfigError>)
        ensures
            r == spec_validate_vertical(self@),
    {
        let common = self.validate_common();
        if common.is_some() {
            common
        } else if self.decoration_lines.omni_char != '\0'
            || self.decoration_lines.vertical_char.len() == 0 {
            Some(ConfigError::MissingVerticalChar)
        } else {
            None
        }
    }

    /// Runs the horizontal-pass validation.
    pub(crate) fn validate_horizontal(&self) -> (r: Option<ConfigError>)
        ensures
            r == spec_validate_horizontal(self@),
    {
        let common = self.validate_common();
        if common.is_some() {
            common
        } else if self.decoration_lines.omni_char != '\0'
            || self.decoration_lines.horizontal_char.len() == 0 {
            Some(ConfigError::MissingHorizontalChar)
        } else {
            None
        }
    }

    /// Runs the full-box validation.
    pub(crate) fn validate_box(&self) -> (r: Option<ConfigError>)
        ensures
            r == spec_validate_box(self@),
    {
        let common = self.validate_common();
        if common.is_some() {
            common
        } else if self.decoration_lines.omni_char != '\0' {
            None
        } else if self.decoration_lines.vertical_char.len() == 0 {
            Some(ConfigError::MissingVerticalChar)
        } else if self.decoration_lines.horizontal_char.len() == 0 {
            Some(ConfigError::MissingHorizontalChar)
        } else if self.decoration_lines.top_left_corner_char.len() == 0
            || self.decoration_lines.top_right_corner_char.len() == 0
            || self.decoration_lines.bottom_left_corner_char.len() == 0
            || self.decoration_lines.bottom_right_corner_char.len() == 0 {
            Some(ConfigError::MissingCornerChar)
        } else {
            None
        }
    }
}

impl Default for Border {
    /// One visible solid layer, no padding, white, classic corners.
    fn default() -> (b: Self)
        ensures
            b@ == spec_default_border(),
    {
        let mut vertical_char: Vec<char> = Vec::new();
        vertical_char.push(Self::default_vertical_border_char(BorderType::Solid));
        let mut horizontal_char: Vec<char> = Vec::new();
        horizontal_char.push(Self::default_horizontal_border_char(BorderType::Solid));
        let mut top_right_corner_char: Vec<char> = Vec::new();
        top_right_corner_char.push('┐');
        let mut top_left_corner_char: Vec<char> = Vec::new();
        top_left_corner_char.push('┌');
        let mut bottom_right_corner_char: Vec<char> = Vec::new();
        bottom_right_corner_char.push('┘');
        let mut bottom_left_corner_char: Vec<char> = Vec::new();
        bottom_left_corner_char.push('└');
        let mut border_colors: Vec<HexColor> = Vec::new();
        border_colors.push(HexColor::new("#FFFFFF"));
        let b = Self {
            visible: true,
            padding: 0,
            width: 1,
            color: HexColor::new("#FFFFFF"),
            border_type: BorderType::Solid,
            border_colors,
            color_overflow: false,
            decoration_lines: DecorationLine {
                omni_char: '\0',
                vertical_char,
                horizontal_char,
                top_right_corner_char,
                top_left_corner_char,
                bottom_right_corner_char,
                bottom_left_corner_char,
            },
        };
        proof {
            assert(b@ =~= spec_default_border());
        }
        b
    }
}

/// Mutable staging object that accumulates configuration through
/// chained setters and produces the finished `Border`.
pub struct BorderBuilder {
    pub(crate) border: Border,
}

impl View for BorderBuilder {
    type V = BorderView;

    closed spec fn view(&self) -> BorderView {
        self.border@
    }
}

impl BorderBuilder {
    /// Starts from the default configuration.
    pub fn new() -> (b: Self)
        ensures
            b@ == spec_default_border(),
    {
        BorderBuilder { border: Border::default() }
    }

    /// Sets whether the border is drawn at all.
    pub fn visible(self, visible: bool) -> (r: Self)
        ensures
            r@ == (BorderView { visible, ..self@ }),
    {
        let mut this = self;
        this.border.visible = visible;
        this
    }

    /// Sets the gap, in cells, between the window edge and the
    /// outermost layer.
    pub fn padding(self, padding: usize) -> (r: Self)
        ensures
            r@ == (BorderView { padding: padding as nat, ..self@ }),
    {
        let mut this = self;
        this.border.padding = padding;
        this
    }

    /// Sets the layer count.  Zero is rejected at render time.
    pub fn width(self, width: usize) -> (r: Self)
        ensures
            r@ == (BorderView { width: width as nat, ..self@ }),
    {
        let mut this = self;
        this.border.width = width;
        this
    }

    /// Sets the border's nominal color field (sibling configuration;
    /// the per-layer colors come from `with_color` / `with_colors`).
    pub fn color(self, color: HexColor) -> (r: Self)
        ensures
            r@ == (BorderView { color: color@, ..self@ }),
    {
        let mut this = self;
        this.border.color = color;
        this
    }

    /// Selects a glyph family and fills both edge-glyph lists with one
    /// copy of its default glyph per layer.
    pub fn border_type(self, border_type: BorderType) -> (r: Self)
        ensures
            r@ == (BorderView {
                border_type,
                vertical_chars: Seq::new(self@.width, |i: int| default_vertical_char(border_type)),
                horizontal_chars: Seq::new(
                    self@.width,
                    |i: int| default_horizontal_char(border_type),
                ),
                ..self@
            }),
    {
        let ghost prior = self@;
        let mut this = self;
        this.border.border_type = border_type;
        this.border.decoration_lines.vertical_char = repeat_char(
            Border::default_vertical_border_char(border_type),
            this.border.width,
        );
        this.border.decoration_lines.horizontal_char = repeat_char(
            Border::default_horizontal_border_char(border_type),
            this.border.width,
        );
        proof {
            assert(this@ =~= (BorderView {
                border_type,
                vertical_chars: Seq::new(prior.width, |i: int| default_vertical_char(border_type)),
                horizontal_chars: Seq::new(
                    prior.width,
                    |i: int| default_horizontal_char(border_type),
                ),
                ..prior
            }));
        }
        this
    }

    /// Replaces the per-layer colors with a single color.
    pub fn with_color(self, color: HexColor) -> (r: Self)
        ensures
            r@ == (BorderView { colors: seq![color@], ..self@ }),
    {
        let ghost prior = self@;
        let mut this = self;
        let mut border_colors: Vec<HexColor> = Vec::new();
        border_colors.push(color);
        this.border.border_colors = border_colors;
        proof {
            assert(this@ =~= (BorderView { colors: seq![color@], ..prior }));
        }
        this
    }

    /// Replaces the per-layer colors.  A list longer than the layer
    /// count is a configuration error: the list is not taken, and the
    /// border reports the fault at render time instead of drawing.
    pub fn with_colors(self, colors: Vec<HexColor>) -> (r: Self)
        ensures
            colors@.len() <= self@.width ==> r@ == (BorderView {
                colors: colors.deep_view(),
                ..self@
            }),
            colors@.len() > self@.width ==> r@ == (BorderView { color_overflow: true, ..self@ }),
    {
        let mut this = self;
        if colors.len() > this.border.width {
            this.border.color_overflow = true;
        } else {
            this.border.border_colors = colors;
        }
        this
    }

    /// Shorthand: one glyph for every edge of every layer (the two
    /// edge lists become single-entry lists, which the last-element
    /// fallback stretches over all layers).
    pub fn border_char(self, border_char: char) -> (r: Self)
        ensures
            r@ == (BorderView {
                vertical_chars: seq![border_char],
                horizontal_chars: seq![border_char],
                ..self@
            }),
    {
        let ghost prior = self@;
        let mut this = self;
        let mut vertical_char: Vec<char> = Vec::new();
        vertical_char.push(border_char);
        let mut horizontal_char: Vec<char> = Vec::new();
        horizontal_char.push(border_char);
        this.border.decoration_lines.vertical_char = vertical_char;
        this.border.decoration_lines.horizontal_char = horizontal_char;
        proof {
            assert(this@ =~= (BorderView {
                vertical_chars: seq![border_char],
                horizontal_chars: seq![border_char],
                ..prior
            }));
        }
        this
    }

    /// Replaces the per-layer vertical edge glyphs.
    pub fn vertical_border_char(self, chars: Vec<char>) -> (r: Self)
        ensures
            r@ == (BorderView { vertical_chars: chars@, ..self@ }),
    {
        let mut this = self;
        this.border.decoration_lines.vertical_char = chars;
        this
    }

    /// Replaces the per-layer horizontal edge glyphs.
    pub fn horizontal_border_char(self, chars: Vec<char>) -> (r: Self)
        ensures
            r@ == (BorderView { horizontal_chars: chars@, ..self@ }),
    {
        let mut this = self;
        this.border.decoration_lines.horizontal_char = chars;
        this
    }

    /// Sets the omni glyph: one character that replaces every edge and
    /// corner glyph and reduces rendering to a single perimeter sweep.
    pub fn omni_char(self, omni_char: char) -> (r: Self)
        ensures
            r@ == (BorderView { omni_char, ..self@ }),
    {
        let mut this = self;
        this.border.decoration_lines.omni_char = omni_char;
        this
    }

    /// Finishes the configuration.
    pub fn build(self) -> (b: Border)
        ensures
            b@ == self@,
    {
        self.border
    }
}

/// The view of a border, field by field.  The view itself is closed;
/// the rendering module relies on this shape.
pub(crate) proof fn lemma_border_view(b: &Border)
    ensures
        b@ == (BorderView {
            visible: b.visible,
            padding: b.padding as nat,
            width: b.width as nat,
            color: b.color@,
            border_type: b.border_type,
            omni_char: b.decoration_lines.omni_char,
            vertical_chars: b.decoration_lines.vertical_char@,
            horizontal_chars: b.decoration_lines.horizontal_char@,
            top_left_chars: b.decoration_lines.top_left_corner_char@,
            top_right_chars: b.decoration_lines.top_right_corner_char@,
            bottom_left_chars: b.decoration_lines.bottom_left_corner_char@,
            bottom_right_chars: b.decoration_lines.bottom_right_corner_char@,
            colors: b.border_colors.deep_view(),
            color_overflow: b.color_overflow,
        }),
{
}

/// A list of `n` copies of `c`.
fn repeat_char(c: char, n: usize) -> (v: Vec<char>)
    ensures
        v@ == Seq::new(n as nat, |i: int| c),
{
    let mut v: Vec<char> = Vec::new();
    let mut k: usize = 0;
    while k < n
        invariant
            k <= n,
            v@ == Seq::new(k as nat, |i: int| c),
        decreases n - k,
    {
        v.push(c);
        k = k + 1;
        proof {
            assert(v@ =~= Seq::new(k as nat, |i: int| c));
        }
    }
    v
}

} // verus!
