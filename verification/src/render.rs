//! Rendering: turning a border configuration and a window size into
//! the sequence of cell writes that draws it.
//!
//! Rendering validates the configuration first, is a no-op for an
//! invisible border, and otherwise emits one pass per edge kind over
//! all layers (left, right, top, bottom, then corners), or a single
//! full-perimeter sweep in omni mode.

use vstd::prelude::*;
use crate::border::Border;
use crate::border::BorderView;
use crate::border::ConfigError;
use crate::border::default_horizontal_char;
use crate::border::default_vertical_char;
use crate::border::spec_validate_box;
use crate::border::spec_validate_horizontal;
use crate::border::spec_validate_vertical;
use crate::color::Rgb;
use crate::color::default_color_code;
use crate::color::rgb_of;
use crate::geometry::CellWrite;
use crate::geometry::bottom_of;
use crate::geometry::hrun_len;
use crate::geometry::layer_live;
use crate::geometry::left_of;
use crate::geometry::right_of;
use crate::geometry::top_of;
use crate::geometry::vrun_len;

verus! {

/// The fallback chain shared by glyphs and colors: the entry at `i`
/// if present, else the last entry, else `d`.
pub open spec fn resolve_spec<A>(s: Seq<A>, i: int, d: A) -> A {
    if 0 <= i < s.len() {
        s[i]
    } else if s.len() > 0 {
        s[s.len() - 1]
    } else {
        d
    }
}

/// The glyph drawn on the vertical edges of layer `l`.
pub open spec fn vertical_glyph(v: BorderView, l: int) -> char {
    resolve_spec(v.vertical_chars, l, default_vertical_char(v.border_type))
}

/// The glyph drawn on the horizontal edges of layer `l`.
pub open spec fn horizontal_glyph(v: BorderView, l: int) -> char {
    resolve_spec(v.horizontal_chars, l, default_horizontal_char(v.border_type))
}

/// The four corner glyphs of layer `l`, in the order top-left,
/// top-right, bottom-left, bottom-right.
pub open spec fn top_left_glyph(v: BorderView, l: int) -> char {
    resolve_spec(v.top_left_chars, l, '┌')
}

pub open spec fn top_right_glyph(v: BorderView, l: int) -> char {
    resolve_spec(v.top_right_chars, l, '┐')
}

pub open spec fn bottom_left_glyph(v: BorderView, l: int) -> char {
    resolve_spec(v.bottom_left_chars, l, '└')
}

pub open spec fn bottom_right_glyph(v: BorderView, l: int) -> char {
    resolve_spec(v.bottom_right_chars, l, '┘')
}

/// The color layer `l` is drawn with: its own entry if present, else
/// the last configured color, else white.
pub open spec fn layer_rgb(v: BorderView, l: int) -> Rgb {
    rgb_of(resolve_spec(v.colors, l, default_color_code()))
}

/// A cell write at integer coordinates (meaningful when both are in
/// `usize` range, which holds for every live layer).
pub open spec fn cell_at(x: int, y: int, glyph: char, color: Rgb) -> CellWrite {
    CellWrite { x: x as usize, y: y as usize, glyph, color }
}

/// The five passes a box render is made of.
#[derive(Clone, Copy, PartialEq, Eq, Debug, Structural)]
pub enum EdgePass {
    LeftEdge,
    RightEdge,
    TopEdge,
    BottomEdge,
    Corners,
}

/// The writes one pass emits for layer `l`: nothing when the layer is
/// degenerate; otherwise the run of cells strictly between the layer's
/// corners (edge passes) or its four corner cells (corner pass).
pub open spec fn run_writes(v: BorderView, w: int, h: int, l: int, pass: EdgePass) -> Seq<
    CellWrite,
> {
    let p = v.padding as int;
    if layer_live(w, h, p, l) {
        match pass {
            EdgePass::LeftEdge => Seq::new(
                vrun_len(h, p, l) as nat,
                |i: int|
                    cell_at(left_of(p, l), top_of(p, l) + 1 + i, vertical_glyph(v, l), layer_rgb(v, l)),
            ),
            EdgePass::RightEdge => Seq::new(
                vrun_len(h, p, l) as nat,
                |i: int|
                    cell_at(
                        right_of(w, p, l),
                        top_of(p, l) + 1 + i,
                        vertical_glyph(v, l),
                        layer_rgb(v, l),
                    ),
            ),
            EdgePass::TopEdge => Seq::new(
                hrun_len(w, p, l) as nat,
                |i: int|
                    cell_at(
                        left_of(p, l) + 1 + i,
                        top_of(p, l),
                        horizontal_glyph(v, l),
                        layer_rgb(v, l),
                    ),
            ),
            EdgePass::BottomEdge => Seq::new(
                hrun_len(w, p, l) as nat,
                |i: int|
                    cell_at(
                        left_of(p, l) + 1 + i,
                        bottom_of(h, p, l),
                        horizontal_glyph(v, l),
                        layer_rgb(v, l),
                    ),
            ),
            EdgePass::Corners => seq![
                cell_at(left_of(p, l), top_of(p, l), top_left_glyph(v, l), layer_rgb(v, l)),
                cell_at(right_of(w, p, l), top_of(p, l), top_right_glyph(v, l), layer_rgb(v, l)),
                cell_at(left_of(p, l), bottom_of(h, p, l), bottom_left_glyph(v, l), layer_rgb(v, l)),
                cell_at(
                    right_of(w, p, l),
                    bottom_of(h, p, l),
                    bottom_right_glyph(v, l),
                    layer_rgb(v, l),
                ),
            ],
        }
    } else {
        Seq::empty()
    }
}

/// The writes one pass emits over layers `0 .. n`, in increasing layer
/// order.
pub open spec fn pass_writes(v: BorderView, w: int, h: int, n: nat, pass: EdgePass) -> Seq<
    CellWrite,
>
    decreases n,
{
    if n == 0 {
        Seq::empty()
    } else {
        pass_writes(v, w, h, (n - 1) as nat, pass) + run_writes(v, w, h, n - 1, pass)
    }
}

/// The writes of the two vertical-edge passes (left then right), over
/// all configured layers.
pub open spec fn vertical_writes(v: BorderView, w: int, h: int) -> Seq<CellWrite> {
    pass_writes(v, w, h, v.width, EdgePass::LeftEdge) + pass_writes(
        v,
        w,
        h,
        v.width,
        EdgePass::RightEdge,
    )
}

/// The writes of the two horizontal-edge passes (top then bottom).
pub open spec fn horizontal_writes(v: BorderView, w: int, h: int) -> Seq<CellWrite> {
    pass_writes(v, w, h, v.width, EdgePass::TopEdge) + pass_writes(
        v,
        w,
        h,
        v.width,
        EdgePass::BottomEdge,
    )
}

/// The writes of a full multi-layer frame render: edges of every layer,
/// then every layer's corners.
pub open spec fn frame_writes(v: BorderView, w: int, h: int) -> Seq<CellWrite> {
    vertical_writes(v, w, h) + horizontal_writes(v, w, h) + pass_writes(
        v,
        w,
        h,
        v.width,
        EdgePass::Corners,
    )
}

/// The top row of the omni sweep: the outermost rectangle's top edge,
/// corners included, left to right.
pub open spec fn omni_top_row(v: BorderView, w: int, h: int) -> Seq<CellWrite> {
    let p = v.padding as int;
    Seq::new(
        (right_of(w, p, 0) - left_of(p, 0) + 1) as nat,
        |i: int| cell_at(left_of(p, 0) + i, top_of(p, 0), v.omni_char, layer_rgb(v, 0)),
    )
}

/// The bottom row of the omni sweep, corners included, left to right.
pub open spec fn omni_bottom_row(v: BorderView, w: int, h: int) -> Seq<CellWrite> {
    let p = v.padding as int;
    Seq::new(
        (right_of(w, p, 0) - left_of(p, 0) + 1) as nat,
        |i: int| cell_at(left_of(p, 0) + i, bottom_of(h, p, 0), v.omni_char, layer_rgb(v, 0)),
    )
}

/// The left column of the omni sweep, strictly between the two rows.
pub open spec fn omni_left_col(v: BorderView, w: int, h: int) -> Seq<CellWrite> {
    let p = v.padding as int;
    Seq::new(
        (bottom_of(h, p, 0) - top_of(p, 0) - 1) as nat,
        |i: int| cell_at(left_of(p, 0), top_of(p, 0) + 1 + i, v.omni_char, layer_rgb(v, 0)),
    )
}

/// The right column of the omni sweep, strictly between the two rows.
pub open spec fn omni_right_col(v: BorderView, w: int, h: int) -> Seq<CellWrite> {
    let p = v.padding as int;
    Seq::new(
        (bottom_of(h, p, 0) - top_of(p, 0) - 1) as nat,
        |i: int| cell_at(right_of(w, p, 0), top_of(p, 0) + 1 + i, v.omni_char, layer_rgb(v, 0)),
    )
}

/// The writes of an omni render: one sweep over the perimeter of the
/// outermost rectangle (top row, bottom row, then the two columns
/// strictly between them), every cell with the omni glyph and the color
/// of layer 0.  Nothing when even the outermost layer is degenerate.
pub open spec fn omni_writes(v: BorderView, w: int, h: int) -> Seq<CellWrite> {
    if layer_live(w, h, v.padding as int, 0) {
        omni_top_row(v, w, h) + omni_bottom_row(v, w, h) + omni_left_col(v, w, h) + omni_right_col(
            v,
            w,
            h,
        )
    } else {
        Seq::empty()
    }
}

/// Everything a validated box render writes: nothing when invisible,
/// the omni sweep when an omni glyph is set, else the full frame.
pub open spec fn box_writes(v: BorderView, w: int, h: int) -> Seq<CellWrite> {
    if !v.visible {
        Seq::empty()
    } else if v.omni_char != '\0' {
        omni_writes(v, w, h)
    } else {
        frame_writes(v, w, h)
    }
}

/// The fallback chain at `i`: the entry at `i` if present, else the
/// last entry, else `fallback`.
pub fn resolve_glyph(list: &Vec<char>, i: usize, fallback: char) -> (r: char)
    ensures
        r == resolve_spec(list@, i as int, fallback),
{
    let n = list.len();
    if i < n {
        list[i]
    } else if n > 0 {
        list[n - 1]
    } else {
        fallback
    }
}

/// Whether layer `layer` still fits in a `w x h` window at padding `p`,
/// computed without overflow in 128-bit arithmetic.
fn layer_is_live(w: usize, h: usize, p: usize, layer: usize) -> (r: bool)
    ensures
        r == layer_live(w as int, h as int, p as int, layer as int),
{
    let s: u128 = p as u128 + layer as u128;
    2 * s + 2 <= w as u128 && 2 * s + 2 <= h as u128
}

impl Border {
    /// Emits one vertical-edge cell at `(start_x, y_axis)` with the
    /// glyph and color that `layer` resolves to.
    fn render_vertical_border(
        &self,
        out: &mut Vec<CellWrite>,
        y_axis: usize,
        start_x: usize,
        layer: usize,
    )
        ensures
            final(out)@ == old(out)@.push(
                CellWrite {
                    x: start_x,
                    y: y_axis,
                    glyph: vertical_glyph(self@, layer as int),
                    color: layer_rgb(self@, layer as int),
                },
            ),
    {
        proof {
            crate::border::lemma_border_view(self);
        }
        let border_char = resolve_glyph(
            &self.decoration_lines.vertical_char,
            layer,
            Border::default_vertical_border_char(self.border_type),
        );
        let color = self.get_border_color(layer).to_rgb();
        out.push(CellWrite { x: start_x, y: y_axis, glyph: border_char, color });
    }

    /// Emits one horizontal-edge cell at `(x_axis, start_y)` with the
    /// glyph and color that `layer` resolves to.
    fn render_horizontal_border(
        &self,
        out: &mut Vec<CellWrite>,
        x_axis: usize,
        start_y: usize,
        layer: usize,
    )
        ensures
            final(out)@ == old(out)@.push(
                CellWrite {
                    x: x_axis,
                    y: start_y,
                    glyph: horizontal_glyph(self@, layer as int),
                    color: layer_rgb(self@, layer as int),
                },
            ),
    {
        proof {
            crate::border::lemma_border_view(self);
        }
        let border_char = resolve_glyph(
            &self.decoration_lines.horizontal_char,
            layer,
            Border::default_horizontal_border_char(self.border_type),
        );
        let color = self.get_border_color(layer).to_rgb();
        out.push(CellWrite { x: x_axis, y: start_y, glyph: border_char, color });
    }

    /// Emits one corner cell at `(x_axis, y_axis)` with the given glyph
    /// and the color that `layer` resolves to.
    fn render_corner(
        &self,
        out: &mut Vec<CellWrite>,
        x_axis: usize,
        y_axis: usize,
        corner_char: char,
        layer: usize,
    )
        ensures
            final(out)@ == old(out)@.push(
                CellWrite {
                    x: x_axis,
                    y: y_axis,
                    glyph: corner_char,
                    color: layer_rgb(self@, layer as int),
                },
            ),
    {
        let color = self.get_border_color(layer).to_rgb();
        out.push(CellWrite { x: x_axis, y: y_axis, glyph: corner_char, color });
    }

    /// Appends the left vertical edge of every live layer.
    pub(crate) fn render_left_vertical_border(
        &self,
        out: &mut Vec<CellWrite>,
        window_size: (usize, usize),
    )
        ensures
            final(out)@ == old(out)@ + pass_writes(
                self@,
                window_size.0 as int,
                window_size.1 as int,
                self@.width,
                EdgePass::LeftEdge,
            ),
    {
        proof {
            crate::border::lemma_border_view(self);
        }
        let (w, h) = window_size;
        let p = self.padding;
        let width = self.width;
        let ghost v = self@;
        let ghost wi = w as int;
        let ghost hi = h as int;
        let ghost out0 = out@;
        let mut layer: usize = 0;
        proof {
            assert(out@ =~= out0 + pass_writes(v, wi, hi, 0 as nat, EdgePass::LeftEdge));
        }
        while layer < width
            invariant
                v == self@,
                v.width == width as nat,
                v.padding == p as nat,
                wi == w as int,
                hi == h as int,
                layer <= width,
                out@ == out0 + pass_writes(v, wi, hi, layer as nat, EdgePass::LeftEdge),
            decreases width - layer,
        {
            let ghost run = run_writes(v, wi, hi, layer as int, EdgePass::LeftEdge);
            if layer_is_live(w, h, p, layer) {
                let x_axis = p + layer;
                let y_start = p + layer + 1;
                let y_end = h - p - 1 - layer;
                let mut y_axis = y_start;
                proof {
                    assert(run.take(0) =~= Seq::<CellWrite>::empty());
                    assert(out@ =~= out0 + pass_writes(v, wi, hi, layer as nat, EdgePass::LeftEdge)
                        + run.take(0));
                }
                while y_axis < y_end
                    invariant
                        v == self@,
                        v.padding == p as nat,
                        wi == w as int,
                        hi == h as int,
                        layer_live(wi, hi, p as int, layer as int),
                        x_axis == left_of(p as int, layer as int),
                        y_start == top_of(p as int, layer as int) + 1,
                        y_end == bottom_of(hi, p as int, layer as int),
                        y_start <= y_axis <= y_end,
                        run == run_writes(v, wi, hi, layer as int, EdgePass::LeftEdge),
                        out@ == out0 + pass_writes(v, wi, hi, layer as nat, EdgePass::LeftEdge)
                            + run.take(y_axis - y_start),
                    decreases y_end - y_axis,
                {
                    self.render_vertical_border(out, y_axis, x_axis, layer);
                    proof {
                        let j = y_axis - y_start;
                        assert(run[j] == CellWrite {
                            x: x_axis,
                            y: y_axis,
                            glyph: vertical_glyph(v, layer as int),
                            color: layer_rgb(v, layer as int),
                        });
                        assert(run.take(j + 1) =~= run.take(j).push(run[j]));
                        assert(out@ =~= out0 + pass_writes(
                            v,
                            wi,
                            hi,
                            layer as nat,
                            EdgePass::LeftEdge,
                        ) + run.take(j + 1));
                    }
                    y_axis = y_axis + 1;
                }
                proof {
                    assert(run.take(y_end - y_start) =~= run);
                }
            }
            proof {
                assert(pass_writes(v, wi, hi, (layer + 1) as nat, EdgePass::LeftEdge)
                    == pass_writes(v, wi, hi, layer as nat, EdgePass::LeftEdge) + run);
                if !layer_live(wi, hi, p as int, layer as int) {
                    assert(run =~= Seq::<CellWrite>::empty());
                }
                assert(out@ =~= out0 + pass_writes(
                    v,
                    wi,
                    hi,
                    (layer + 1) as nat,
                    EdgePass::LeftEdge,
                ));
            }
            layer = layer + 1;
        }
    }

    /// Appends the right vertical edge of every live layer.
    pub(crate) fn render_right_vertical_border(
        &self,
        out: &mut Vec<CellWrite>,
        window_size: (usize, usize),
    )
        ensures
            final(out)@ == old(out)@ + pass_writes(
                self@,
                window_size.0 as int,
                window_size.1 as int,
                self@.width,
                EdgePass::RightEdge,
            ),
    {
        proof {
            crate::border::lemma_border_view(self);
        }
        let (w, h) = window_size;
        let p = self.padding;
        let width = self.width;
        let ghost v = self@;
        let ghost wi = w as int;
        let ghost hi = h as int;
        let ghost out0 = out@;
        let mut layer: usize = 0;
        proof {
            assert(out@ =~= out0 + pass_writes(v, wi, hi, 0 as nat, EdgePass::RightEdge));
        }
        while layer < width
            invariant
                v == self@,
                v.width == width as nat,
                v.padding == p as nat,
                wi == w as int,
                hi == h as int,
                layer <= width,
                out@ == out0 + pass_writes(v, wi, hi, layer as nat, EdgePass::RightEdge),
            decreases width - layer,
        {
            let ghost run = run_writes(v, wi, hi, layer as int, EdgePass::RightEdge);
            if layer_is_live(w, h, p, layer) {
                let x_axis = w - p - 1 - layer;
                let y_start = p + layer + 1;
                let y_end = h - p - 1 - layer;
                let mut y_axis = y_start;
                proof {
                    assert(run.take(0) =~= Seq::<CellWrite>::empty());
                    assert(out@ =~= out0 + pass_writes(v, wi, hi, layer as nat, EdgePass::RightEdge)
                        + run.take(0));
                }
                while y_axis < y_end
                    invariant
                        v == self@,
                        v.padding == p as nat,
                        wi == w as int,
                        hi == h as int,
                        layer_live(wi, hi, p as int, layer as int),
                        x_axis == right_of(wi, p as int, layer as int),
                        y_start == top_of(p as int, layer as int) + 1,
                        y_end == bottom_of(hi, p as int, layer as int),
                        y_start <= y_axis <= y_end,
                        run == run_writes(v, wi, hi, layer as int, EdgePass::RightEdge),
                        out@ == out0 + pass_writes(v, wi, hi, layer as nat, EdgePass::RightEdge)
                            + run.take(y_axis - y_start),
                    decreases y_end - y_axis,
                {
                    self.render_vertical_border(out, y_axis, x_axis, layer);
                    proof {
                        let j = y_axis - y_start;
                        assert(run[j] == CellWrite {
                            x: x_axis,
                            y: y_axis,
                            glyph: vertical_glyph(v, layer as int),
                            color: layer_rgb(v, layer as int),
                        });
                        assert(run.take(j + 1) =~= run.take(j).push(run[j]));
                        assert(out@ =~= out0 + pass_writes(
                            v,
                            wi,
                            hi,
                            layer as nat,
                            EdgePass::RightEdge,
                        ) + run.take(j + 1));
                    }
                    y_axis = y_axis + 1;
                }
                proof {
                    assert(run.take(y_end - y_start) =~= run);
                }
            }
            proof {
                assert(pass_writes(v, wi, hi, (layer + 1) as nat, EdgePass::RightEdge)
                    == pass_writes(v, wi, hi, layer as nat, EdgePass::RightEdge) + run);
                if !layer_live(wi, hi, p as int, layer as int) {
                    assert(run =~= Seq::<CellWrite>::empty());
                }
                assert(out@ =~= out0 + pass_writes(
                    v,
                    wi,
                    hi,
                    (layer + 1) as nat,
                    EdgePass::RightEdge,
                ));
            }
            layer = layer + 1;
        }
    }

    /// Appends the top horizontal edge of every live layer.
    pub(crate) fn render_top_horizontal_border(
        &self,
        out: &mut Vec<CellWrite>,
        window_size: (usize, usize),
    )
        ensures
            final(out)@ == old(out)@ + pass_writes(
                self@,
                window_size.0 as int,
                window_size.1 as int,
                self@.width,
                EdgePass::TopEdge,
            ),
    {
        proof {
            crate::border::lemma_border_view(self);
        }
        let (w, h) = window_size;
        let p = self.padding;
        let width = self.width;
        let ghost v = self@;
        let ghost wi = w as int;
        let ghost hi = h as int;
        let ghost out0 = out@;
        let mut layer: usize = 0;
        proof {
            assert(out@ =~= out0 + pass_writes(v, wi, hi, 0 as nat, EdgePass::TopEdge));
        }
        while layer < width
            invariant
                v == self@,
                v.width == width as nat,
                v.padding == p as nat,
                wi == w as int,
                hi == h as int,
                layer <= width,
                out@ == out0 + pass_writes(v, wi, hi, layer as nat, EdgePass::TopEdge),
            decreases width - layer,
        {
            let ghost run = run_writes(v, wi, hi, layer as int, EdgePass::TopEdge);
            if layer_is_live(w, h, p, layer) {
                let y_axis = p + layer;
                let x_start = p + layer + 1;
                let x_end = w - p - 1 - layer;
                let mut x_axis = x_start;
                proof {
                    assert(run.take(0) =~= Seq::<CellWrite>::empty());
                    assert(out@ =~= out0 + pass_writes(v, wi, hi, layer as nat, EdgePass::TopEdge)
                        + run.take(0));
                }
                while x_axis < x_end
                    invariant
                        v == self@,
                        v.padding == p as nat,
                        wi == w as int,
                        hi == h as int,
                        layer_live(wi, hi, p as int, layer as int),
                        y_axis == top_of(p as int, layer as int),
                        x_start == left_of(p as int, layer as int) + 1,
                        x_end == right_of(wi, p as int, layer as int),
                        x_start <= x_axis <= x_end,
                        run == run_writes(v, wi, hi, layer as int, EdgePass::TopEdge),
                        out@ == out0 + pass_writes(v, wi, hi, layer as nat, EdgePass::TopEdge)
                            + run.take(x_axis - x_start),
                    decreases x_end - x_axis,
                {
                    self.render_horizontal_border(out, x_axis, y_axis, layer);
                    proof {
                        let j = x_axis - x_start;
                        assert(run[j] == CellWrite {
                            x: x_axis,
                            y: y_axis,
                            glyph: horizontal_glyph(v, layer as int),
                            color: layer_rgb(v, layer as int),
                        });
                        assert(run.take(j + 1) =~= run.take(j).push(run[j]));
                        assert(out@ =~= out0 + pass_writes(
                            v,
                            wi,
                            hi,
                            layer as nat,
                            EdgePass::TopEdge,
                        ) + run.take(j + 1));
                    }
                    x_axis = x_axis + 1;
                }
                proof {
                    assert(run.take(x_end - x_start) =~= run);
                }
            }
            proof {
                assert(pass_writes(v, wi, hi, (layer + 1) as nat, EdgePass::TopEdge)
                    == pass_writes(v, wi, hi, layer as nat, EdgePass::TopEdge) + run);
                if !layer_live(wi, hi, p as int, layer as int) {
                    assert(run =~= Seq::<CellWrite>::empty());
                }
                assert(out@ =~= out0 + pass_writes(
                    v,
                    wi,
                    hi,
                    (layer + 1) as nat,
                    EdgePass::TopEdge,
                ));
            }
            layer = layer + 1;
        }
    }

    /// Appends the bottom horizontal edge of every live layer.
    pub(crate) fn render_bottom_horizontal_border(
        &self,
        out: &mut Vec<CellWrite>,
        window_size: (usize, usize),
    )
        ensures
            final(out)@ == old(out)@ + pass_writes(
                self@,
                window_size.0 as int,
                window_size.1 as int,
                self@.width,
                EdgePass::BottomEdge,
            ),
    {
        proof {
            crate::border::lemma_border_view(self);
        }
        let (w, h) = window_size;
        let p = self.padding;
        let width = self.width;
        let ghost v = self@;
        let ghost wi = w as int;
        let ghost hi = h as int;
        let ghost out0 = out@;
        let mut layer: usize = 0;
        proof {
            assert(out@ =~= out0 + pass_writes(v, wi, hi, 0 as nat, EdgePass::BottomEdge));
        }
        while layer < width
            invariant
                v == self@,
                v.width == width as nat,
                v.padding == p as nat,
                wi == w as int,
                hi == h as int,
                layer <= width,
                out@ == out0 + pass_writes(v, wi, hi, layer as nat, EdgePass::BottomEdge),
            decreases width - layer,
        {
            let ghost run = run_writes(v, wi, hi, layer as int, EdgePass::BottomEdge);
            if layer_is_live(w, h, p, layer) {
                let y_axis = h - p - 1 - layer;
                let x_start = p + layer + 1;
                let x_end = w - p - 1 - layer;
                let mut x_axis = x_start;
                proof {
                    assert(run.take(0) =~= Seq::<CellWrite>::empty());
                    assert(out@ =~= out0 + pass_writes(v, wi, hi, layer as nat, EdgePass::BottomEdge)
                        + run.take(0));
                }
                while x_axis < x_end
                    invariant
                        v == self@,
                        v.padding == p as nat,
                        wi == w as int,
                        hi == h as int,
                        layer_live(wi, hi, p as int, layer as int),
                        y_axis == bottom_of(hi, p as int, layer as int),
                        x_start == left_of(p as int, layer as int) + 1,
                        x_end == right_of(wi, p as int, layer as int),
                        x_start <= x_axis <= x_end,
                        run == run_writes(v, wi, hi, layer as int, EdgePass::BottomEdge),
                        out@ == out0 + pass_writes(v, wi, hi, layer as nat, EdgePass::BottomEdge)
                            + run.take(x_axis - x_start),
                    decreases x_end - x_axis,
                {
                    self.render_horizontal_border(out, x_axis, y_axis, layer);
                    proof {
                        let j = x_axis - x_start;
                        assert(run[j] == CellWrite {
                            x: x_axis,
                            y: y_axis,
                            glyph: horizontal_glyph(v, layer as int),
                            color: layer_rgb(v, layer as int),
                        });
                        assert(run.take(j + 1) =~= run.take(j).push(run[j]));
                        assert(out@ =~= out0 + pass_writes(
                            v,
                            wi,
                            hi,
                            layer as nat,
                            EdgePass::BottomEdge,
                        ) + run.take(j + 1));
                    }
                    x_axis = x_axis + 1;
                }
                proof {
                    assert(run.take(x_end - x_start) =~= run);
                }
            }
            proof {
                assert(pass_writes(v, wi, hi, (layer + 1) as nat, EdgePass::BottomEdge)
                    == pass_writes(v, wi, hi, layer as nat, EdgePass::BottomEdge) + run);
                if !layer_live(wi, hi, p as int, layer as int) {
                    assert(run =~= Seq::<CellWrite>::empty());
                }
                assert(out@ =~= out0 + pass_writes(
                    v,
                    wi,
                    hi,
                    (layer + 1) as nat,
                    EdgePass::BottomEdge,
                ));
            }
            layer = layer + 1;
        }
    }

    /// Appends the four corner cells of every live layer, in the order
    /// top-left, top-right, bottom-left, bottom-right.
    pub(crate) fn render_corners(&self, out: &mut Vec<CellWrite>, window_size: (usize, usize))
        ensures
            final(out)@ == old(out)@ + pass_writes(
                self@,
                window_size.0 as int,
                window_size.1 as int,
                self@.width,
                EdgePass::Corners,
            ),
    {
        proof {
            crate::border::lemma_border_view(self);
        }
        let (w, h) = window_size;
        let p = self.padding;
        let width = self.width;
        let ghost v = self@;
        let ghost wi = w as int;
        let ghost hi = h as int;
        let ghost out0 = out@;
        let mut layer: usize = 0;
        proof {
            assert(out@ =~= out0 + pass_writes(v, wi, hi, 0 as nat, EdgePass::Corners));
        }
        while layer < width
            invariant
                v == self@,
                v.width == width as nat,
                v.padding == p as nat,
                wi == w as int,
                hi == h as int,
                layer <= width,
                out@ == out0 + pass_writes(v, wi, hi, layer as nat, EdgePass::Corners),
            decreases width - layer,
        {
            proof {
                crate::border::lemma_border_view(self);
            }
            let ghost run = run_writes(v, wi, hi, layer as int, EdgePass::Corners);
            if layer_is_live(w, h, p, layer) {
                let top_y = p + layer;
                let bottom_y = h - p - 1 - layer;
                let left_x = p + layer;
                let right_x = w - p - 1 - layer;
                let top_left_char = resolve_glyph(
                    &self.decoration_lines.top_left_corner_char,
                    layer,
                    '┌',
                );
                let top_right_char = resolve_glyph(
                    &self.decoration_lines.top_right_corner_char,
                    layer,
                    '┐',
                );
                let bottom_left_char = resolve_glyph(
                    &self.decoration_lines.bottom_left_corner_char,
                    layer,
                    '└',
                );
                let bottom_right_char = resolve_glyph(
                    &self.decoration_lines.bottom_right_corner_char,
                    layer,
                    '┘',
                );
                self.render_corner(out, left_x, top_y, top_left_char, layer);
                self.render_corner(out, right_x, top_y, top_right_char, layer);
                self.render_corner(out, left_x, bottom_y, bottom_left_char, layer);
                self.render_corner(out, right_x, bottom_y, bottom_right_char, layer);
                proof {
                    assert(out@ =~= out0 + pass_writes(v, wi, hi, layer as nat, EdgePass::Corners)
                        + run);
                }
            }
            proof {
                assert(pass_writes(v, wi, hi, (layer + 1) as nat, EdgePass::Corners)
                    == pass_writes(v, wi, hi, layer as nat, EdgePass::Corners) + run);
                if !layer_live(wi, hi, p as int, layer as int) {
                    assert(run =~= Seq::<CellWrite>::empty());
                }
                assert(out@ =~= out0 + pass_writes(
                    v,
                    wi,
                    hi,
                    (layer + 1) as nat,
                    EdgePass::Corners,
                ));
            }
            layer = layer + 1;
        }
    }

    /// Appends the omni sweep: the full perimeter of the outermost
    /// rectangle, every cell with the omni glyph and the color of layer
    /// 0.  Nothing when even the outermost layer is degenerate.
    pub(crate) fn render_omni(&self, out: &mut Vec<CellWrite>, window_size: (usize, usize))
        ensures
            final(out)@ == old(out)@ + omni_writes(
                self@,
                window_size.0 as int,
                window_size.1 as int,
            ),
    {
        proof {
            crate::border::lemma_border_view(self);
        }
        let (w, h) = window_size;
        let p = self.padding;
        let ghost v = self@;
        let ghost wi = w as int;
        let ghost hi = h as int;
        let ghost out0 = out@;
        if !layer_is_live(w, h, p, 0) {
            proof {
                assert(out@ =~= out0 + omni_writes(v, wi, hi));
            }
            return ;
        }
        let glyph = self.decoration_lines.omni_char;
        let color = self.get_border_color(0).to_rgb();
        let top_y = p;
        let bottom_y = h - p - 1;
        let left_x = p;
        let right_x = w - p - 1;
        let ghost t_row = Seq::new(
            (right_x - left_x + 1) as nat,
            |i: int| cell_at(left_x + i, top_y as int, v.omni_char, layer_rgb(v, 0)),
        );
        let ghost b_row = Seq::new(
            (right_x - left_x + 1) as nat,
            |i: int| cell_at(left_x + i, bottom_y as int, v.omni_char, layer_rgb(v, 0)),
        );
        let ghost l_col = Seq::new(
            (bottom_y - top_y - 1) as nat,
            |i: int| cell_at(left_x as int, top_y + 1 + i, v.omni_char, layer_rgb(v, 0)),
        );
        let ghost r_col = Seq::new(
            (bottom_y - top_y - 1) as nat,
            |i: int| cell_at(right_x as int, top_y + 1 + i, v.omni_char, layer_rgb(v, 0)),
        );
        let mut x_axis = left_x;
        proof {
            assert(t_row.take(0) =~= Seq::<CellWrite>::empty());
            assert(out@ =~= out0 + t_row.take(0));
        }
        while x_axis < right_x + 1
            invariant
                left_x <= x_axis <= right_x + 1,
                right_x < w,
                top_y == p,
                left_x == p,
                out@ == out0 + t_row.take(x_axis - left_x),
                glyph == v.omni_char,
                color == layer_rgb(v, 0),
                t_row == Seq::new(
                    (right_x - left_x + 1) as nat,
                    |i: int| cell_at(left_x + i, top_y as int, v.omni_char, layer_rgb(v, 0)),
                ),
            decreases right_x + 1 - x_axis,
        {
            out.push(CellWrite { x: x_axis, y: top_y, glyph, color });
            proof {
                let j = x_axis - left_x;
                assert(t_row.take(j + 1) =~= t_row.take(j).push(t_row[j]));
                assert(out@ =~= out0 + t_row.take(j + 1));
            }
            x_axis = x_axis + 1;
        }
        proof {
            assert(t_row.take(right_x + 1 - left_x) =~= t_row);
        }
        let mut x_axis = left_x;
        proof {
            assert(b_row.take(0) =~= Seq::<CellWrite>::empty());
            assert(out@ =~= out0 + t_row + b_row.take(0));
        }
        while x_axis < right_x + 1
            invariant
                left_x <= x_axis <= right_x + 1,
                right_x < w,
                bottom_y < h,
                left_x == p,
                out@ == out0 + t_row + b_row.take(x_axis - left_x),
                glyph == v.omni_char,
                color == layer_rgb(v, 0),
                b_row == Seq::new(
                    (right_x - left_x + 1) as nat,
                    |i: int| cell_at(left_x + i, bottom_y as int, v.omni_char, layer_rgb(v, 0)),
                ),
                t_row == Seq::new(
                    (right_x - left_x + 1) as nat,
                    |i: int| cell_at(left_x + i, top_y as int, v.omni_char, layer_rgb(v, 0)),
                ),
                top_y == p,
            decreases right_x + 1 - x_axis,
        {
            out.push(CellWrite { x: x_axis, y: bottom_y, glyph, color });
            proof {
                let j = x_axis - left_x;
                assert(b_row.take(j + 1) =~= b_row.take(j).push(b_row[j]));
                assert(out@ =~= out0 + t_row + b_row.take(j + 1));
            }
            x_axis = x_axis + 1;
        }
        proof {
            assert(b_row.take(right_x + 1 - left_x) =~= b_row);
        }
        let mut y_axis = top_y + 1;
        proof {
            assert(l_col.take(0) =~= Seq::<CellWrite>::empty());
            assert(out@ =~= out0 + t_row + b_row + l_col.take(0));
        }
        while y_axis < bottom_y
            invariant
                top_y + 1 <= y_axis <= bottom_y,
                bottom_y < h,
                top_y == p,
                left_x == p,
                out@ == out0 + t_row + b_row + l_col.take(y_axis - top_y - 1),
                glyph == v.omni_char,
                color == layer_rgb(v, 0),
                l_col == Seq::new(
                    (bottom_y - top_y - 1) as nat,
                    |i: int| cell_at(left_x as int, top_y + 1 + i, v.omni_char, layer_rgb(v, 0)),
                ),
                b_row == Seq::new(
                    (right_x - left_x + 1) as nat,
                    |i: int| cell_at(left_x + i, bottom_y as int, v.omni_char, layer_rgb(v, 0)),
                ),
                t_row == Seq::new(
                    (right_x - left_x + 1) as nat,
                    |i: int| cell_at(left_x + i, top_y as int, v.omni_char, layer_rgb(v, 0)),
                ),
            decreases bottom_y - y_axis,
        {
            out.push(CellWrite { x: left_x, y: y_axis, glyph, color });
            proof {
                let j = y_axis - top_y - 1;
                assert(l_col.take(j + 1) =~= l_col.take(j).push(l_col[j]));
                assert(out@ =~= out0 + t_row + b_row + l_col.take(j + 1));
            }
            y_axis = y_axis + 1;
        }
        proof {
            assert(l_col.take(bottom_y - top_y - 1) =~= l_col);
        }
        let mut y_axis = top_y + 1;
        proof {
            assert(r_col.take(0) =~= Seq::<CellWrite>::empty());
            assert(out@ =~= out0 + t_row + b_row + l_col + r_col.take(0));
        }
        while y_axis < bottom_y
            invariant
                top_y + 1 <= y_axis <= bottom_y,
                bottom_y < h,
                right_x < w,
                top_y == p,
                out@ == out0 + t_row + b_row + l_col + r_col.take(y_axis - top_y - 1),
                glyph == v.omni_char,
                color == layer_rgb(v, 0),
                r_col == Seq::new(
                    (bottom_y - top_y - 1) as nat,
                    |i: int| cell_at(right_x as int, top_y + 1 + i, v.omni_char, layer_rgb(v, 0)),
                ),
                l_col == Seq::new(
                    (bottom_y - top_y - 1) as nat,
                    |i: int| cell_at(left_x as int, top_y + 1 + i, v.omni_char, layer_rgb(v, 0)),
                ),
                b_row == Seq::new(
                    (right_x - left_x + 1) as nat,
                    |i: int| cell_at(left_x + i, bottom_y as int, v.omni_char, layer_rgb(v, 0)),
                ),
                t_row == Seq::new(
                    (right_x - left_x + 1) as nat,
                    |i: int| cell_at(left_x + i, top_y as int, v.omni_char, layer_rgb(v, 0)),
                ),
                left_x == p,
            decreases bottom_y - y_axis,
        {
            out.push(CellWrite { x: right_x, y: y_axis, glyph, color });
            proof {
                let j = y_axis - top_y - 1;
                assert(r_col.take(j + 1) =~= r_col.take(j).push(r_col[j]));
                assert(out@ =~= out0 + t_row + b_row + l_col + r_col.take(j + 1));
            }
            y_axis = y_axis + 1;
        }
        proof {
            assert(r_col.take(bottom_y - top_y - 1) =~= r_col);
            assert(out@ =~= out0 + omni_writes(v, wi, hi));
        }
    }

    /// Computes the writes of the left and right vertical edges of
    /// every layer.  Fails fast on an invalid configuration; draws
    /// nothing when the border is invisible.
    pub fn render_vertical_borders(&self, window_size: (usize, usize)) -> (r: Result<
        Vec<CellWrite>,
        ConfigError,
    >)
        ensures
            match r {
                Ok(ws) => spec_validate_vertical(self@) is None && ws@ == (if self@.visible {
                    vertical_writes(self@, window_size.0 as int, window_size.1 as int)
                } else {
                    Seq::<CellWrite>::empty()
                }),
                Err(e) => spec_validate_vertical(self@) == Some(e),
            },
    {
        proof {
            crate::border::lemma_border_view(self);
        }
        if let Some(e) = self.validate_vertical() {
            return Err(e);
        }
        let mut out: Vec<CellWrite> = Vec::new();
        if !self.visible {
            return Ok(out);
        }
        self.render_left_vertical_border(&mut out, window_size);
        self.render_right_vertical_border(&mut out, window_size);
        proof {
            assert(out@ =~= vertical_writes(self@, window_size.0 as int, window_size.1 as int));
        }
        Ok(out)
    }

    /// Computes the writes of the top and bottom horizontal edges of
    /// every layer.  Fails fast on an invalid configuration; draws
    /// nothing when the border is invisible.
    pub fn render_horizontal_borders(&self, window_size: (usize, usize)) -> (r: Result<
        Vec<CellWrite>,
        ConfigError,
    >)
        ensures
            match r {
                Ok(ws) => spec_validate_horizontal(self@) is None && ws@ == (if self@.visible {
                    horizontal_writes(self@, window_size.0 as int, window_size.1 as int)
                } else {
                    Seq::<CellWrite>::empty()
                }),
                Err(e) => spec_validate_horizontal(self@) == Some(e),
            },
    {
        proof {
            crate::border::lemma_border_view(self);
        }
        if let Some(e) = self.validate_horizontal() {
            return Err(e);
        }
        let mut out: Vec<CellWrite> = Vec::new();
        if !self.visible {
            return Ok(out);
        }
        self.render_top_horizontal_border(&mut out, window_size);
        self.render_bottom_horizontal_border(&mut out, window_size);
        proof {
            assert(out@ =~= horizontal_writes(self@, window_size.0 as int, window_size.1 as int));
        }
        Ok(out)
    }

    /// Computes everything one render of the box writes: validation
    /// first (fail fast, before any cell), then nothing for an
    /// invisible border, the omni sweep when an omni glyph is set, and
    /// otherwise all edges of every live layer followed by all corners.
    pub fn render_box(&self, window_size: (usize, usize)) -> (r: Result<
        Vec<CellWrite>,
        ConfigError,
    >)
        ensures
            match r {
                Ok(ws) => spec_validate_box(self@) is None && ws@ == box_writes(
                    self@,
                    window_size.0 as int,
                    window_size.1 as int,
                ),
                Err(e) => spec_validate_box(self@) == Some(e),
            },
    {
        proof {
            crate::border::lemma_border_view(self);
        }
        if let Some(e) = self.validate_box() {
            return Err(e);
        }
        let mut out: Vec<CellWrite> = Vec::new();
        if !self.visible {
            return Ok(out);
        }
        if self.decoration_lines.omni_char != '\0' {
            self.render_omni(&mut out, window_size);
            proof {
                assert(out@ =~= box_writes(self@, window_size.0 as int, window_size.1 as int));
            }
            return Ok(out);
        }
        self.render_left_vertical_border(&mut out, window_size);
        self.render_right_vertical_border(&mut out, window_size);
        self.render_top_horizontal_border(&mut out, window_size);
        self.render_bottom_horizontal_border(&mut out, window_size);
        self.render_corners(&mut out, window_size);
        proof {
            assert(out@ =~= box_writes(self@, window_size.0 as int, window_size.1 as int));
        }
        Ok(out)
    }
}

} // verus!
