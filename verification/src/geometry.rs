//! Layer geometry: which grid cells belong to which edge or corner of
//! which border layer.
//!
//! For layer `l` (layer 0 outermost) at padding `p` on a `w x h` window:
//! the left and top coordinates are `p + l`, the right and bottom
//! coordinates are `w - p - 1 - l` and `h - p - 1 - l`.  Edge runs span
//! strictly between the corners of their own layer.  A layer whose
//! rectangle has collapsed (no two distinct corner coordinates in either
//! direction) is degenerate and draws nothing.

use vstd::prelude::*;
use crate::color::Rgb;

verus! {

/// One emitted draw call: move to `(x, y)`, set the foreground color,
/// print the glyph, reset the color.
#[derive(Clone, Copy, Debug, PartialEq, Eq, Structural)]
pub struct CellWrite {
    pub x: usize,
    pub y: usize,
    pub glyph: char,
    pub color: Rgb,
}

/// The y coordinate of layer `l`'s top edge.
pub open spec fn top_of(p: int, l: int) -> int {
    p + l
}

/// The y coordinate of layer `l`'s bottom edge on a window of height `h`.
pub open spec fn bottom_of(h: int, p: int, l: int) -> int {
    h - p - 1 - l
}

/// The x coordinate of layer `l`'s left edge.
pub open spec fn left_of(p: int, l: int) -> int {
    p + l
}

/// The x coordinate of layer `l`'s right edge on a window of width `w`.
pub open spec fn right_of(w: int, p: int, l: int) -> int {
    w - p - 1 - l
}

/// Whether layer `l` still fits: its rectangle has distinct top and
/// bottom rows and distinct left and right columns.  A layer that is
/// not live is degenerate and contributes no cell at all.
pub open spec fn layer_live(w: int, h: int, p: int, l: int) -> bool {
    top_of(p, l) < bottom_of(h, p, l) && left_of(p, l) < right_of(w, p, l)
}

/// Number of cells in a vertical edge run of layer `l`: the cells
/// strictly between the layer's own top and bottom corners.
pub open spec fn vrun_len(h: int, p: int, l: int) -> int {
    bottom_of(h, p, l) - top_of(p, l) - 1
}

/// Number of cells in a horizontal edge run of layer `l`: the cells
/// strictly between the layer's own left and right corners.
pub open spec fn hrun_len(w: int, p: int, l: int) -> int {
    right_of(w, p, l) - left_of(p, l) - 1
}

/// Whether the cell `(x, y)` lies on the rectangular ring of layer `l`:
/// inside the layer's bounding box and on at least one of its four
/// boundary lines.
pub open spec fn on_frame(x: int, y: int, w: int, h: int, p: int, l: int) -> bool {
    &&& left_of(p, l) <= x <= right_of(w, p, l)
    &&& top_of(p, l) <= y <= bottom_of(h, p, l)
    &&& (x == left_of(p, l) || x == right_of(w, p, l) || y == top_of(p, l) || y == bottom_of(
        h,
        p,
        l,
    ))
}

/// The set of cells making up the rectangular ring of layer `l`.
pub open spec fn frame_cells(w: int, h: int, p: int, l: int) -> Set<(int, int)> {
    Set::new(|c: (int, int)| on_frame(c.0, c.1, w, h, p, l))
}

/// The set of cells that a sequence of writes touches.
pub open spec fn cells_of(s: Seq<CellWrite>) -> Set<(int, int)> {
    Set::new(|c: (int, int)| exists|i: int| 0 <= i < s.len() && (#[trigger] s[i]).x == c.0 && s[i].y == c.1)
}

/// Once a layer is degenerate, every deeper layer is degenerate too:
/// spans shrink strictly with the layer index.
pub proof fn lemma_live_monotonic(w: int, h: int, p: int, l1: int, l2: int)
    requires
        0 <= l1 <= l2,
        layer_live(w, h, p, l2),
    ensures
        layer_live(w, h, p, l1),
{
}

/// Cells written by a concatenation are the union of the cells written
/// by the parts.
pub proof fn lemma_cells_of_add(s1: Seq<CellWrite>, s2: Seq<CellWrite>)
    ensures
        cells_of(s1 + s2) == cells_of(s1).union(cells_of(s2)),
{
    assert forall|c: (int, int)| cells_of(s1 + s2).contains(c) implies cells_of(s1).union(
        cells_of(s2),
    ).contains(c) by {
        let i = choose|i: int|
            0 <= i < (s1 + s2).len() && (#[trigger] (s1 + s2)[i]).x == c.0 && (s1 + s2)[i].y
                == c.1;
        if i < s1.len() {
            assert(s1[i] == (s1 + s2)[i]);
            assert(cells_of(s1).contains(c));
        } else {
            assert(s2[i - s1.len()] == (s1 + s2)[i]);
            assert(cells_of(s2).contains(c));
        }
    }
    assert forall|c: (int, int)| cells_of(s1).union(cells_of(s2)).contains(c) implies cells_of(
        s1 + s2,
    ).contains(c) by {
        if cells_of(s1).contains(c) {
            let i = choose|i: int| 0 <= i < s1.len() && (#[trigger] s1[i]).x == c.0 && s1[i].y == c.1;
            assert((s1 + s2)[i] == s1[i]);
        } else {
            let i = choose|i: int| 0 <= i < s2.len() && (#[trigger] s2[i]).x == c.0 && s2[i].y == c.1;
            assert((s1 + s2)[s1.len() + i] == s2[i]);
        }
    }
    assert(cells_of(s1 + s2) =~= cells_of(s1).union(cells_of(s2)));
}

/// The cells of a vertical line at `x`, strictly between rows `y0`
/// and `y1`.
pub open spec fn col_cells(x: int, y0: int, y1: int) -> Set<(int, int)> {
    Set::new(|c: (int, int)| c.0 == x && y0 < c.1 && c.1 < y1)
}

/// The cells of a horizontal line at `y`, strictly between columns
/// `x0` and `x1`.
pub open spec fn row_cells(y: int, x0: int, x1: int) -> Set<(int, int)> {
    Set::new(|c: (int, int)| c.1 == y && x0 < c.0 && c.0 < x1)
}

/// The cells of a horizontal line at `y`, from `x0` to `x1` inclusive.
pub open spec fn full_row_cells(y: int, x0: int, x1: int) -> Set<(int, int)> {
    Set::new(|c: (int, int)| c.1 == y && x0 <= c.0 && c.0 <= x1)
}

/// The four corner cells of layer `l`.
pub open spec fn corner_points(w: int, h: int, p: int, l: int) -> Set<(int, int)> {
    Set::new(
        |c: (int, int)|
            c == (left_of(p, l), top_of(p, l)) || c == (right_of(w, p, l), top_of(p, l)) || c == (
                left_of(p, l),
                bottom_of(h, p, l),
            ) || c == (right_of(w, p, l), bottom_of(h, p, l)),
    )
}

/// A live layer's ring splits into its four edge runs (strictly
/// between the corners) and its four corner cells.
pub proof fn lemma_frame_decomposition(w: int, h: int, p: int, l: int)
    requires
        layer_live(w, h, p, l),
    ensures
        frame_cells(w, h, p, l) == row_cells(top_of(p, l), left_of(p, l), right_of(w, p, l)).union(
            row_cells(bottom_of(h, p, l), left_of(p, l), right_of(w, p, l)),
        ).union(col_cells(left_of(p, l), top_of(p, l), bottom_of(h, p, l))).union(
            col_cells(right_of(w, p, l), top_of(p, l), bottom_of(h, p, l)),
        ).union(corner_points(w, h, p, l)),
{
    assert(frame_cells(w, h, p, l) =~= row_cells(top_of(p, l), left_of(p, l), right_of(w, p, l))
        .union(row_cells(bottom_of(h, p, l), left_of(p, l), right_of(w, p, l))).union(
        col_cells(left_of(p, l), top_of(p, l), bottom_of(h, p, l)),
    ).union(col_cells(right_of(w, p, l), top_of(p, l), bottom_of(h, p, l))).union(
        corner_points(w, h, p, l),
    ));
}

/// A live layer's ring also splits as a perimeter sweep: two full rows
/// and the two columns strictly between them.
pub proof fn lemma_frame_ring_decomposition(w: int, h: int, p: int, l: int)
    requires
        layer_live(w, h, p, l),
    ensures
        frame_cells(w, h, p, l) == full_row_cells(top_of(p, l), left_of(p, l), right_of(w, p, l))
            .union(full_row_cells(bottom_of(h, p, l), left_of(p, l), right_of(w, p, l))).union(
            col_cells(left_of(p, l), top_of(p, l), bottom_of(h, p, l)),
        ).union(col_cells(right_of(w, p, l), top_of(p, l), bottom_of(h, p, l))),
{
    assert(frame_cells(w, h, p, l) =~= full_row_cells(
        top_of(p, l),
        left_of(p, l),
        right_of(w, p, l),
    ).union(full_row_cells(bottom_of(h, p, l), left_of(p, l), right_of(w, p, l))).union(
        col_cells(left_of(p, l), top_of(p, l), bottom_of(h, p, l)),
    ).union(col_cells(right_of(w, p, l), top_of(p, l), bottom_of(h, p, l))));
}

/// The cells of a write sequence that walks a column at `x` from row
/// `y0 + 1` up to `y1 - 1`.
pub proof fn lemma_col_seq_cells(s: Seq<CellWrite>, x: int, y0: int, y1: int)
    requires
        y0 < y1,
        s.len() == y1 - y0 - 1,
        forall|i: int| 0 <= i < s.len() ==> (#[trigger] s[i]).x == x && s[i].y == y0 + 1 + i,
    ensures
        cells_of(s) == col_cells(x, y0, y1),
{
    assert forall|c: (int, int)| cells_of(s).contains(c) implies col_cells(x, y0, y1).contains(
        c,
    ) by {
        let i = choose|i: int| 0 <= i < s.len() && (#[trigger] s[i]).x == c.0 && s[i].y == c.1;
        assert(s[i].y == y0 + 1 + i);
    }
    assert forall|c: (int, int)| col_cells(x, y0, y1).contains(c) implies cells_of(s).contains(
        c,
    ) by {
        let i = c.1 - y0 - 1;
        assert(s[i].x == c.0 && s[i].y == c.1);
    }
    assert(cells_of(s) =~= col_cells(x, y0, y1));
}

/// The cells of a write sequence that walks a row at `y` from column
/// `x0 + 1` up to `x1 - 1`.
pub proof fn lemma_row_seq_cells(s: Seq<CellWrite>, y: int, x0: int, x1: int)
    requires
        x0 < x1,
        s.len() == x1 - x0 - 1,
        forall|i: int| 0 <= i < s.len() ==> (#[trigger] s[i]).y == y && s[i].x == x0 + 1 + i,
    ensures
        cells_of(s) == row_cells(y, x0, x1),
{
    assert forall|c: (int, int)| cells_of(s).contains(c) implies row_cells(y, x0, x1).contains(
        c,
    ) by {
        let i = choose|i: int| 0 <= i < s.len() && (#[trigger] s[i]).x == c.0 && s[i].y == c.1;
        assert(s[i].x == x0 + 1 + i);
    }
    assert forall|c: (int, int)| row_cells(y, x0, x1).contains(c) implies cells_of(s).contains(
        c,
    ) by {
        let i = c.0 - x0 - 1;
        assert(s[i].x == c.0 && s[i].y == c.1);
    }
    assert(cells_of(s) =~= row_cells(y, x0, x1));
}

/// The cells of a write sequence that walks a row at `y` from `x0` to
/// `x1` inclusive.
pub proof fn lemma_full_row_seq_cells(s: Seq<CellWrite>, y: int, x0: int, x1: int)
    requires
        x0 <= x1,
        s.len() == x1 - x0 + 1,
        forall|i: int| 0 <= i < s.len() ==> (#[trigger] s[i]).y == y && s[i].x == x0 + i,
    ensures
        cells_of(s) == full_row_cells(y, x0, x1),
{
    assert forall|c: (int, int)| cells_of(s).contains(c) implies full_row_cells(
        y,
        x0,
        x1,
    ).contains(c) by {
        let i = choose|i: int| 0 <= i < s.len() && (#[trigger] s[i]).x == c.0 && s[i].y == c.1;
        assert(s[i].x == x0 + i);
    }
    assert forall|c: (int, int)| full_row_cells(y, x0, x1).contains(c) implies cells_of(
        s,
    ).contains(c) by {
        let i = c.0 - x0;
        assert(s[i].x == c.0 && s[i].y == c.1);
    }
    assert(cells_of(s) =~= full_row_cells(y, x0, x1));
}

/// The cells of the four-write corner sequence of a layer.
pub proof fn lemma_corner_seq_cells(s: Seq<CellWrite>, w: int, h: int, p: int, l: int)
    requires
        0 <= left_of(p, l),
        0 <= top_of(p, l),
        s.len() == 4,
        s[0].x == left_of(p, l) && s[0].y == top_of(p, l),
        s[1].x == right_of(w, p, l) && s[1].y == top_of(p, l),
        s[2].x == left_of(p, l) && s[2].y == bottom_of(h, p, l),
        s[3].x == right_of(w, p, l) && s[3].y == bottom_of(h, p, l),
    ensures
        cells_of(s) == corner_points(w, h, p, l),
{
    assert forall|c: (int, int)| cells_of(s).contains(c) implies corner_points(w, h, p, l).contains(
        c,
    ) by {
        let i = choose|i: int| 0 <= i < s.len() && (#[trigger] s[i]).x == c.0 && s[i].y == c.1;
        assert(i == 0 || i == 1 || i == 2 || i == 3);
    }
    assert forall|c: (int, int)| corner_points(w, h, p, l).contains(c) implies cells_of(s).contains(
        c,
    ) by {
        if c == (left_of(p, l), top_of(p, l)) {
            assert(s[0].x == c.0 && s[0].y == c.1);
        } else if c == (right_of(w, p, l), top_of(p, l)) {
            assert(s[1].x == c.0 && s[1].y == c.1);
        } else if c == (left_of(p, l), bottom_of(h, p, l)) {
            assert(s[2].x == c.0 && s[2].y == c.1);
        } else {
            assert(s[3].x == c.0 && s[3].y == c.1);
        }
    }
    assert(cells_of(s) =~= corner_points(w, h, p, l));
}

/// Rings of distinct layers never share a cell: every cell of the
/// deeper ring lies strictly inside the shallower ring's bounding box.
pub proof fn lemma_frames_disjoint(w: int, h: int, p: int, l1: int, l2: int)
    requires
        l1 < l2,
    ensures
        frame_cells(w, h, p, l1).disjoint(frame_cells(w, h, p, l2)),
{
    assert forall|c: (int, int)| frame_cells(w, h, p, l1).contains(c) implies !frame_cells(
        w,
        h,
        p,
        l2,
    ).contains(c) by {
    }
}

/// Whether a write sequence touches no cell twice.
pub open spec fn unique_cells(s: Seq<CellWrite>) -> bool {
    forall|i: int, j: int|
        #![trigger s[i], s[j]]
        0 <= i < j < s.len() ==> (s[i].x != s[j].x || s[i].y != s[j].y)
}

/// The empty write sequence touches no cell.
pub proof fn lemma_cells_of_empty(s: Seq<CellWrite>)
    requires
        s.len() == 0,
    ensures
        cells_of(s) == Set::<(int, int)>::empty(),
        unique_cells(s),
{
    assert forall|c: (int, int)| !cells_of(s).contains(c) by {
    }
    assert(cells_of(s) =~= Set::<(int, int)>::empty());
}

/// Concatenating two duplicate-free write sequences over disjoint cell
/// sets stays duplicate-free.
pub proof fn lemma_unique_concat(s1: Seq<CellWrite>, s2: Seq<CellWrite>)
    requires
        unique_cells(s1),
        unique_cells(s2),
        cells_of(s1).disjoint(cells_of(s2)),
    ensures
        unique_cells(s1 + s2),
{
    let s = s1 + s2;
    assert forall|i: int, j: int|
        #![trigger s[i], s[j]]
        0 <= i < j < s.len() implies (s[i].x != s[j].x || s[i].y != s[j].y) by {
        if j < s1.len() {
            assert(s[i] == s1[i] && s[j] == s1[j]);
        } else if i >= s1.len() {
            assert(s[i] == s2[i - s1.len()] && s[j] == s2[j - s1.len()]);
        } else {
            assert(s[i] == s1[i] && s[j] == s2[j - s1.len()]);
            let c = (s1[i].x as int, s1[i].y as int);
            assert(cells_of(s1).contains(c));
            if s[i].x == s[j].x && s[i].y == s[j].y {
                assert(s2[j - s1.len()].x == c.0 && s2[j - s1.len()].y == c.1);
                assert(cells_of(s2).contains(c));
            }
        }
    }
}

} // verus!
