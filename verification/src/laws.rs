//! The library's laws: properties of rendering that hold for every
//! configuration, stated over the same spec functions that the render
//! functions' contracts use, and proved once and for all.

use vstd::prelude::*;
use crate::border::BorderView;
use crate::color::rgb_of;
use crate::geometry::CellWrite;
use crate::geometry::bottom_of;
use crate::geometry::cells_of;
use crate::geometry::col_cells;
use crate::geometry::corner_points;
use crate::geometry::frame_cells;
use crate::geometry::layer_live;
use crate::geometry::left_of;
use crate::geometry::lemma_cells_of_add;
use crate::geometry::lemma_cells_of_empty;
use crate::geometry::lemma_col_seq_cells;
use crate::geometry::lemma_corner_seq_cells;
use crate::geometry::lemma_frame_decomposition;
use crate::geometry::lemma_frames_disjoint;
use crate::geometry::lemma_frame_ring_decomposition;
use crate::geometry::lemma_full_row_seq_cells;
use crate::geometry::lemma_live_monotonic;
use crate::geometry::lemma_row_seq_cells;
use crate::geometry::lemma_unique_concat;
use crate::geometry::unique_cells;
use crate::geometry::right_of;
use crate::geometry::row_cells;
use crate::geometry::top_of;
use crate::render::EdgePass;
use crate::render::box_writes;
use crate::render::layer_rgb;
use crate::render::omni_bottom_row;
use crate::render::omni_left_col;
use crate::render::omni_right_col;
use crate::render::omni_top_row;
use crate::render::pass_writes;
use crate::render::run_writes;

verus! {

/// Rendering is deterministic: two renders of the same configuration
/// against the same window size produce an identical sequence of cell
/// writes.
pub proof fn lemma_render_idempotent(
    v: BorderView,
    w: int,
    h: int,
    s1: Seq<CellWrite>,
    s2: Seq<CellWrite>,
)
    requires
        s1 == box_writes(v, w, h),
        s2 == box_writes(v, w, h),
    ensures
        s1 == s2,
{
}

/// Last-element color fallback: every layer at or beyond the end of a
/// non-empty color list resolves to the list's last color.
pub proof fn lemma_color_last_fallback(v: BorderView, l: int)
    requires
        v.colors.len() > 0,
        l >= v.colors.len(),
    ensures
        layer_rgb(v, l) == rgb_of(v.colors.last()),
{
}

/// With a single configured color, every layer resolves to it.
pub proof fn lemma_single_color_all_layers(v: BorderView, l: int)
    requires
        v.colors.len() == 1,
        0 <= l,
    ensures
        layer_rgb(v, l) == rgb_of(v.colors[0]),
{
}

/// When the outermost layer is degenerate, a pass over any number of
/// layers emits nothing.
proof fn lemma_pass_empty(v: BorderView, w: int, h: int, n: nat, pass: EdgePass)
    requires
        !layer_live(w, h, v.padding as int, 0),
    ensures
        pass_writes(v, w, h, n, pass) == Seq::<CellWrite>::empty(),
    decreases n,
{
    if n > 0 {
        lemma_pass_empty(v, w, h, (n - 1) as nat, pass);
        if layer_live(w, h, v.padding as int, n - 1) {
            lemma_live_monotonic(w, h, v.padding as int, 0, n - 1);
        }
        assert(run_writes(v, w, h, n - 1, pass) =~= Seq::<CellWrite>::empty());
        assert(pass_writes(v, w, h, n, pass) =~= Seq::<CellWrite>::empty());
    }
}

/// Degeneracy is silent: when padding and window size leave no room
/// for even the outermost layer, a render writes nothing at all, for
/// any layer count and in either mode.
pub proof fn lemma_degenerate_no_writes(v: BorderView, w: int, h: int)
    requires
        !layer_live(w, h, v.padding as int, 0),
    ensures
        box_writes(v, w, h) == Seq::<CellWrite>::empty(),
{
    if v.visible && v.omni_char == '\0' {
        lemma_pass_empty(v, w, h, v.width, EdgePass::LeftEdge);
        lemma_pass_empty(v, w, h, v.width, EdgePass::RightEdge);
        lemma_pass_empty(v, w, h, v.width, EdgePass::TopEdge);
        lemma_pass_empty(v, w, h, v.width, EdgePass::BottomEdge);
        lemma_pass_empty(v, w, h, v.width, EdgePass::Corners);
        assert(box_writes(v, w, h) =~= Seq::<CellWrite>::empty());
    }
}

/// Omni mode: an omni render writes every cell with the omni glyph,
/// covers exactly the perimeter of the outermost rectangle (at the
/// padding distance from the window edge), and draws no inner layer,
/// whatever the layer count or glyph-list configuration.
pub proof fn lemma_omni_perimeter(v: BorderView, w: int, h: int)
    requires
        v.visible,
        v.omni_char != '\0',
        w <= usize::MAX,
        h <= usize::MAX,
    ensures
        forall|i: int|
            0 <= i < box_writes(v, w, h).len() ==> (#[trigger] box_writes(v, w, h)[i]).glyph
                == v.omni_char,
        layer_live(w, h, v.padding as int, 0) ==> cells_of(box_writes(v, w, h)) == frame_cells(
            w,
            h,
            v.padding as int,
            0,
        ),
        !layer_live(w, h, v.padding as int, 0) ==> box_writes(v, w, h) == Seq::<
            CellWrite,
        >::empty(),
{
    let p = v.padding as int;
    if layer_live(w, h, p, 0) {
        let t = top_of(p, 0);
        let b = bottom_of(h, p, 0);
        let lx = left_of(p, 0);
        let rx = right_of(w, p, 0);
        let t_row = omni_top_row(v, w, h);
        let b_row = omni_bottom_row(v, w, h);
        let l_col = omni_left_col(v, w, h);
        let r_col = omni_right_col(v, w, h);
        let s = box_writes(v, w, h);
        assert(s == t_row + b_row + l_col + r_col);
        assert forall|i: int| 0 <= i < s.len() implies (#[trigger] s[i]).glyph == v.omni_char by {
            if i < t_row.len() {
                assert(s[i] == t_row[i]);
            } else if i < t_row.len() + b_row.len() {
                assert(s[i] == b_row[i - t_row.len()]);
            } else if i < t_row.len() + b_row.len() + l_col.len() {
                assert(s[i] == l_col[i - t_row.len() - b_row.len()]);
            } else {
                assert(s[i] == r_col[i - t_row.len() - b_row.len() - l_col.len()]);
            }
        }
        lemma_cells_of_add(t_row + b_row + l_col, r_col);
        lemma_cells_of_add(t_row + b_row, l_col);
        lemma_cells_of_add(t_row, b_row);
        lemma_full_row_seq_cells(t_row, t, lx, rx);
        lemma_full_row_seq_cells(b_row, b, lx, rx);
        lemma_col_seq_cells(l_col, lx, t, b);
        lemma_col_seq_cells(r_col, rx, t, b);
        lemma_frame_ring_decomposition(w, h, p, 0);
        assert(cells_of(s) =~= frame_cells(w, h, p, 0));
    }
}

/// The region of cells one pass covers for one layer: a column for the
/// vertical passes, a row for the horizontal passes, the four corner
/// cells for the corner pass.
spec fn run_region(v: BorderView, w: int, h: int, l: int, pass: EdgePass) -> Set<(int, int)> {
    let p = v.padding as int;
    match pass {
        EdgePass::LeftEdge => col_cells(left_of(p, l), top_of(p, l), bottom_of(h, p, l)),
        EdgePass::RightEdge => col_cells(right_of(w, p, l), top_of(p, l), bottom_of(h, p, l)),
        EdgePass::TopEdge => row_cells(top_of(p, l), left_of(p, l), right_of(w, p, l)),
        EdgePass::BottomEdge => row_cells(bottom_of(h, p, l), left_of(p, l), right_of(w, p, l)),
        EdgePass::Corners => corner_points(w, h, p, l),
    }
}

/// For a live layer, a pass's run covers exactly its region.
proof fn lemma_run_cells(v: BorderView, w: int, h: int, l: int, pass: EdgePass)
    requires
        0 <= l,
        w <= usize::MAX,
        h <= usize::MAX,
        layer_live(w, h, v.padding as int, l),
    ensures
        cells_of(run_writes(v, w, h, l, pass)) == run_region(v, w, h, l, pass),
{
    let p = v.padding as int;
    let s = run_writes(v, w, h, l, pass);
    match pass {
        EdgePass::LeftEdge => {
            lemma_col_seq_cells(s, left_of(p, l), top_of(p, l), bottom_of(h, p, l));
        },
        EdgePass::RightEdge => {
            lemma_col_seq_cells(s, right_of(w, p, l), top_of(p, l), bottom_of(h, p, l));
        },
        EdgePass::TopEdge => {
            lemma_row_seq_cells(s, top_of(p, l), left_of(p, l), right_of(w, p, l));
        },
        EdgePass::BottomEdge => {
            lemma_row_seq_cells(s, bottom_of(h, p, l), left_of(p, l), right_of(w, p, l));
        },
        EdgePass::Corners => {
            lemma_corner_seq_cells(s, w, h, p, l);
        },
    }
}

/// When no layer below `n` is degenerate, a pass over layers `0 .. n`
/// covers exactly the union of the per-layer regions.
proof fn lemma_pass_cells(v: BorderView, w: int, h: int, n: nat, pass: EdgePass)
    requires
        w <= usize::MAX,
        h <= usize::MAX,
        n == 0 || layer_live(w, h, v.padding as int, n - 1),
    ensures
        cells_of(pass_writes(v, w, h, n, pass)) == Set::<(int, int)>::new(
            |c: (int, int)|
                exists|l: int| 0 <= l < n && (#[trigger] run_region(v, w, h, l, pass)).contains(c),
        ),
    decreases n,
{
    let p = v.padding as int;
    let full = Set::<(int, int)>::new(
        |c: (int, int)|
            exists|l: int| 0 <= l < n && (#[trigger] run_region(v, w, h, l, pass)).contains(c),
    );
    if n == 0 {
        assert forall|c: (int, int)| !cells_of(pass_writes(v, w, h, n, pass)).contains(c) by {
            assert(pass_writes(v, w, h, n, pass).len() == 0);
        }
        assert(cells_of(pass_writes(v, w, h, n, pass)) =~= full);
    } else {
        if n > 1 {
            lemma_live_monotonic(w, h, p, n - 2, n - 1);
        }
        lemma_pass_cells(v, w, h, (n - 1) as nat, pass);
        lemma_cells_of_add(pass_writes(v, w, h, (n - 1) as nat, pass), run_writes(v, w, h, n - 1, pass));
        lemma_run_cells(v, w, h, n - 1, pass);
        let prev = Set::<(int, int)>::new(
            |c: (int, int)|
                exists|l: int|
                    0 <= l < n - 1 && (#[trigger] run_region(v, w, h, l, pass)).contains(c),
        );
        assert forall|c: (int, int)| full.contains(c) implies cells_of(
            pass_writes(v, w, h, n, pass),
        ).contains(c) by {
            let l = choose|l: int|
                0 <= l < n && (#[trigger] run_region(v, w, h, l, pass)).contains(c);
            if l < n - 1 {
                assert(prev.contains(c));
            } else {
                assert(run_region(v, w, h, n - 1, pass).contains(c));
            }
        }
        assert forall|c: (int, int)| cells_of(pass_writes(v, w, h, n, pass)).contains(c) implies
            full.contains(c) by {
            if prev.contains(c) {
                let l = choose|l: int|
                    0 <= l < n - 1 && (#[trigger] run_region(v, w, h, l, pass)).contains(c);
                assert(run_region(v, w, h, l, pass).contains(c));
            } else {
                assert(run_region(v, w, h, n - 1, pass).contains(c));
            }
        }
        assert(cells_of(pass_writes(v, w, h, n, pass)) =~= full);
    }
}

/// Nested frames: when no layer degenerates, a frame render draws
/// exactly one rectangular ring of cells per layer; the rings are
/// pairwise disjoint, none is empty, and each is strictly inside the
/// previous one.
pub proof fn lemma_nested_frames(v: BorderView, w: int, h: int)
    requires
        v.visible,
        v.omni_char == '\0',
        v.width >= 1,
        w <= usize::MAX,
        h <= usize::MAX,
        layer_live(w, h, v.padding as int, v.width - 1),
    ensures
        cells_of(box_writes(v, w, h)) == Set::<(int, int)>::new(
            |c: (int, int)|
                exists|l: int|
                    0 <= l < v.width && (#[trigger] frame_cells(
                        w,
                        h,
                        v.padding as int,
                        l,
                    )).contains(c),
        ),
        forall|l1: int, l2: int|
            0 <= l1 < l2 < v.width ==> frame_cells(w, h, v.padding as int, l1).disjoint(
                frame_cells(w, h, v.padding as int, l2),
            ),
        forall|l: int|
            0 <= l < v.width ==> #[trigger] frame_cells(w, h, v.padding as int, l).contains(
                (left_of(v.padding as int, l), top_of(v.padding as int, l)),
            ),
        forall|l: int, c: (int, int)|
            1 <= l < v.width && #[trigger] frame_cells(w, h, v.padding as int, l).contains(c)
                ==> left_of(v.padding as int, l - 1) < c.0 < right_of(w, v.padding as int, l - 1)
                && top_of(v.padding as int, l - 1) < c.1 < bottom_of(h, v.padding as int, l - 1),
{
    let p = v.padding as int;
    let n = v.width;
    let s = box_writes(v, w, h);
    let pl = pass_writes(v, w, h, n, EdgePass::LeftEdge);
    let pr = pass_writes(v, w, h, n, EdgePass::RightEdge);
    let pt = pass_writes(v, w, h, n, EdgePass::TopEdge);
    let pb = pass_writes(v, w, h, n, EdgePass::BottomEdge);
    let pc = pass_writes(v, w, h, n, EdgePass::Corners);
    assert(s == (pl + pr) + (pt + pb) + pc);
    lemma_cells_of_add((pl + pr) + (pt + pb), pc);
    lemma_cells_of_add(pl + pr, pt + pb);
    lemma_cells_of_add(pl, pr);
    lemma_cells_of_add(pt, pb);
    lemma_pass_cells(v, w, h, n, EdgePass::LeftEdge);
    lemma_pass_cells(v, w, h, n, EdgePass::RightEdge);
    lemma_pass_cells(v, w, h, n, EdgePass::TopEdge);
    lemma_pass_cells(v, w, h, n, EdgePass::BottomEdge);
    lemma_pass_cells(v, w, h, n, EdgePass::Corners);
    let frames = Set::<(int, int)>::new(
        |c: (int, int)|
            exists|l: int|
                0 <= l < v.width && (#[trigger] frame_cells(w, h, v.padding as int, l)).contains(
                    c,
                ),
    );
    assert forall|c: (int, int)| cells_of(s).contains(c) implies frames.contains(c) by {
        if cells_of(pl).contains(c) {
            let l = choose|l: int|
                0 <= l < n && (#[trigger] run_region(v, w, h, l, EdgePass::LeftEdge)).contains(c);
            lemma_live_monotonic(w, h, p, l, n - 1);
            lemma_frame_decomposition(w, h, p, l);
            assert(frame_cells(w, h, p, l).contains(c));
        } else if cells_of(pr).contains(c) {
            let l = choose|l: int|
                0 <= l < n && (#[trigger] run_region(v, w, h, l, EdgePass::RightEdge)).contains(c);
            lemma_live_monotonic(w, h, p, l, n - 1);
            lemma_frame_decomposition(w, h, p, l);
            assert(frame_cells(w, h, p, l).contains(c));
        } else if cells_of(pt).contains(c) {
            let l = choose|l: int|
                0 <= l < n && (#[trigger] run_region(v, w, h, l, EdgePass::TopEdge)).contains(c);
            lemma_live_monotonic(w, h, p, l, n - 1);
            lemma_frame_decomposition(w, h, p, l);
            assert(frame_cells(w, h, p, l).contains(c));
        } else if cells_of(pb).contains(c) {
            let l = choose|l: int|
                0 <= l < n && (#[trigger] run_region(v, w, h, l, EdgePass::BottomEdge)).contains(
                    c,
                );
            lemma_live_monotonic(w, h, p, l, n - 1);
            lemma_frame_decomposition(w, h, p, l);
            assert(frame_cells(w, h, p, l).contains(c));
        } else {
            assert(cells_of(pc).contains(c));
            let l = choose|l: int|
                0 <= l < n && (#[trigger] run_region(v, w, h, l, EdgePass::Corners)).contains(c);
            lemma_live_monotonic(w, h, p, l, n - 1);
            lemma_frame_decomposition(w, h, p, l);
            assert(frame_cells(w, h, p, l).contains(c));
        }
    }
    assert forall|c: (int, int)| frames.contains(c) implies cells_of(s).contains(c) by {
        let l = choose|l: int|
            0 <= l < n && (#[trigger] frame_cells(w, h, v.padding as int, l)).contains(c);
        lemma_live_monotonic(w, h, p, l, n - 1);
        lemma_frame_decomposition(w, h, p, l);
        if row_cells(top_of(p, l), left_of(p, l), right_of(w, p, l)).contains(c) {
            assert(run_region(v, w, h, l, EdgePass::TopEdge).contains(c));
            assert(cells_of(pt).contains(c));
        } else if row_cells(bottom_of(h, p, l), left_of(p, l), right_of(w, p, l)).contains(c) {
            assert(run_region(v, w, h, l, EdgePass::BottomEdge).contains(c));
            assert(cells_of(pb).contains(c));
        } else if col_cells(left_of(p, l), top_of(p, l), bottom_of(h, p, l)).contains(c) {
            assert(run_region(v, w, h, l, EdgePass::LeftEdge).contains(c));
            assert(cells_of(pl).contains(c));
        } else if col_cells(right_of(w, p, l), top_of(p, l), bottom_of(h, p, l)).contains(c) {
            assert(run_region(v, w, h, l, EdgePass::RightEdge).contains(c));
            assert(cells_of(pr).contains(c));
        } else {
            assert(corner_points(w, h, p, l).contains(c));
            assert(run_region(v, w, h, l, EdgePass::Corners).contains(c));
            assert(cells_of(pc).contains(c));
        }
    }
    assert(cells_of(s) =~= frames);
    assert forall|l1: int, l2: int| 0 <= l1 < l2 < v.width implies frame_cells(
        w,
        h,
        v.padding as int,
        l1,
    ).disjoint(frame_cells(w, h, v.padding as int, l2)) by {
        lemma_frames_disjoint(w, h, p, l1, l2);
    }
    assert forall|l: int| 0 <= l < v.width implies #[trigger] frame_cells(
        w,
        h,
        v.padding as int,
        l,
    ).contains((left_of(v.padding as int, l), top_of(v.padding as int, l))) by {
        lemma_live_monotonic(w, h, p, l, n - 1);
    }
}

/// A pass's region for a live layer lies on that layer's ring.
proof fn lemma_region_in_frame(v: BorderView, w: int, h: int, l: int, pass: EdgePass)
    requires
        layer_live(w, h, v.padding as int, l),
    ensures
        run_region(v, w, h, l, pass).subset_of(frame_cells(w, h, v.padding as int, l)),
{
    let p = v.padding as int;
    assert forall|c: (int, int)| run_region(v, w, h, l, pass).contains(c) implies frame_cells(
        w,
        h,
        p,
        l,
    ).contains(c) by {
    }
}

/// One pass's run for one layer touches no cell twice.
proof fn lemma_run_unique(v: BorderView, w: int, h: int, l: int, pass: EdgePass)
    requires
        0 <= l,
        w <= usize::MAX,
        h <= usize::MAX,
    ensures
        unique_cells(run_writes(v, w, h, l, pass)),
{
    let p = v.padding as int;
    let s = run_writes(v, w, h, l, pass);
    if layer_live(w, h, p, l) {
        assert forall|i: int, j: int|
            #![trigger s[i], s[j]]
            0 <= i < j < s.len() implies (s[i].x != s[j].x || s[i].y != s[j].y) by {
        }
    }
}

/// Runs of two different layer-and-pass pairs never share a cell.
proof fn lemma_runs_disjoint(
    v: BorderView,
    w: int,
    h: int,
    l1: int,
    p1: EdgePass,
    l2: int,
    p2: EdgePass,
)
    requires
        0 <= l1,
        0 <= l2,
        w <= usize::MAX,
        h <= usize::MAX,
        l1 != l2 || p1 != p2,
    ensures
        cells_of(run_writes(v, w, h, l1, p1)).disjoint(cells_of(run_writes(v, w, h, l2, p2))),
{
    let p = v.padding as int;
    let s1 = run_writes(v, w, h, l1, p1);
    let s2 = run_writes(v, w, h, l2, p2);
    if !layer_live(w, h, p, l1) {
        lemma_cells_of_empty(s1);
    } else if !layer_live(w, h, p, l2) {
        lemma_cells_of_empty(s2);
        assert forall|c: (int, int)| cells_of(s1).contains(c) implies !cells_of(s2).contains(
            c,
        ) by {
        }
    } else {
        lemma_run_cells(v, w, h, l1, p1);
        lemma_run_cells(v, w, h, l2, p2);
        if l1 != l2 {
            lemma_region_in_frame(v, w, h, l1, p1);
            lemma_region_in_frame(v, w, h, l2, p2);
            if l1 < l2 {
                lemma_frames_disjoint(w, h, p, l1, l2);
            } else {
                lemma_frames_disjoint(w, h, p, l2, l1);
            }
            assert forall|c: (int, int)| cells_of(s1).contains(c) implies !cells_of(s2).contains(
                c,
            ) by {
                assert(frame_cells(w, h, p, l1).contains(c));
            }
        } else {
            assert forall|c: (int, int)| run_region(v, w, h, l1, p1).contains(c) implies
                !run_region(v, w, h, l2, p2).contains(c) by {
            }
        }
    }
}

/// A pass over layers `0 .. n` shares no cell with a run of any layer
/// at or beyond `n`.
proof fn lemma_pass_run_disjoint(
    v: BorderView,
    w: int,
    h: int,
    n: nat,
    pass: EdgePass,
    l2: int,
    p2: EdgePass,
)
    requires
        w <= usize::MAX,
        h <= usize::MAX,
        n <= l2,
    ensures
        cells_of(pass_writes(v, w, h, n, pass)).disjoint(cells_of(run_writes(v, w, h, l2, p2))),
    decreases n,
{
    if n == 0 {
        lemma_cells_of_empty(pass_writes(v, w, h, n, pass));
    } else {
        lemma_pass_run_disjoint(v, w, h, (n - 1) as nat, pass, l2, p2);
        lemma_cells_of_add(pass_writes(v, w, h, (n - 1) as nat, pass), run_writes(v, w, h, n - 1, pass));
        lemma_runs_disjoint(v, w, h, n - 1, pass, l2, p2);
    }
}

/// A pass over layers `0 .. n` touches no cell twice.
proof fn lemma_pass_unique(v: BorderView, w: int, h: int, n: nat, pass: EdgePass)
    requires
        w <= usize::MAX,
        h <= usize::MAX,
    ensures
        unique_cells(pass_writes(v, w, h, n, pass)),
    decreases n,
{
    if n == 0 {
        lemma_cells_of_empty(pass_writes(v, w, h, n, pass));
    } else {
        lemma_pass_unique(v, w, h, (n - 1) as nat, pass);
        lemma_run_unique(v, w, h, n - 1, pass);
        lemma_pass_run_disjoint(v, w, h, (n - 1) as nat, pass, n - 1, pass);
        lemma_unique_concat(pass_writes(v, w, h, (n - 1) as nat, pass), run_writes(v, w, h, n - 1, pass));
    }
}

/// Every cell a pass writes belongs to the run of one of its layers.
proof fn lemma_pass_cells_subset(v: BorderView, w: int, h: int, n: nat, pass: EdgePass)
    ensures
        forall|c: (int, int)|
            cells_of(pass_writes(v, w, h, n, pass)).contains(c) ==> exists|l: int|
                0 <= l < n && cells_of(#[trigger] run_writes(v, w, h, l, pass)).contains(c),
    decreases n,
{
    if n == 0 {
        lemma_cells_of_empty(pass_writes(v, w, h, n, pass));
    } else {
        lemma_pass_cells_subset(v, w, h, (n - 1) as nat, pass);
        lemma_cells_of_add(pass_writes(v, w, h, (n - 1) as nat, pass), run_writes(v, w, h, n - 1, pass));
        assert forall|c: (int, int)| cells_of(pass_writes(v, w, h, n, pass)).contains(c) implies
            exists|l: int|
                0 <= l < n && cells_of(#[trigger] run_writes(v, w, h, l, pass)).contains(c) by {
            if cells_of(pass_writes(v, w, h, (n - 1) as nat, pass)).contains(c) {
                let l = choose|l: int|
                    0 <= l < n - 1 && cells_of(#[trigger] run_writes(v, w, h, l, pass)).contains(
                        c,
                    );
                assert(cells_of(run_writes(v, w, h, l, pass)).contains(c));
            } else {
                assert(cells_of(run_writes(v, w, h, n - 1, pass)).contains(c));
            }
        }
    }
}

/// Two different passes never share a cell, over any number of layers.
proof fn lemma_pass_pass_disjoint(v: BorderView, w: int, h: int, n: nat, p1: EdgePass, p2: EdgePass)
    requires
        w <= usize::MAX,
        h <= usize::MAX,
        p1 != p2,
    ensures
        cells_of(pass_writes(v, w, h, n, p1)).disjoint(cells_of(pass_writes(v, w, h, n, p2))),
{
    lemma_pass_cells_subset(v, w, h, n, p1);
    lemma_pass_cells_subset(v, w, h, n, p2);
    assert forall|c: (int, int)| cells_of(pass_writes(v, w, h, n, p1)).contains(c) implies
        !cells_of(pass_writes(v, w, h, n, p2)).contains(c) by {
        let l1 = choose|l: int|
            0 <= l < n && cells_of(#[trigger] run_writes(v, w, h, l, p1)).contains(c);
        if cells_of(pass_writes(v, w, h, n, p2)).contains(c) {
            let l2 = choose|l: int|
                0 <= l < n && cells_of(#[trigger] run_writes(v, w, h, l, p2)).contains(c);
            lemma_runs_disjoint(v, w, h, l1, p1, l2, p2);
        }
    }
}

/// One render never writes a cell twice: edge runs stay strictly
/// between their own corners, the five passes cover disjoint cells,
/// rings of distinct layers never meet, and the omni sweep walks its
/// perimeter once.
pub proof fn lemma_each_cell_written_once(v: BorderView, w: int, h: int)
    requires
        w <= usize::MAX,
        h <= usize::MAX,
    ensures
        unique_cells(box_writes(v, w, h)),
{
    let p = v.padding as int;
    let s = box_writes(v, w, h);
    if !v.visible {
        lemma_cells_of_empty(s);
    } else if v.omni_char != '\0' {
        if layer_live(w, h, p, 0) {
            let t = top_of(p, 0);
            let b = bottom_of(h, p, 0);
            let lx = left_of(p, 0);
            let rx = right_of(w, p, 0);
            let t_row = omni_top_row(v, w, h);
            let b_row = omni_bottom_row(v, w, h);
            let l_col = omni_left_col(v, w, h);
            let r_col = omni_right_col(v, w, h);
            lemma_full_row_seq_cells(t_row, t, lx, rx);
            lemma_full_row_seq_cells(b_row, b, lx, rx);
            lemma_col_seq_cells(l_col, lx, t, b);
            lemma_col_seq_cells(r_col, rx, t, b);
            assert forall|i: int, j: int|
                #![trigger t_row[i], t_row[j]]
                0 <= i < j < t_row.len() implies (t_row[i].x != t_row[j].x || t_row[i].y
                    != t_row[j].y) by {
            }
            assert forall|i: int, j: int|
                #![trigger b_row[i], b_row[j]]
                0 <= i < j < b_row.len() implies (b_row[i].x != b_row[j].x || b_row[i].y
                    != b_row[j].y) by {
            }
            assert forall|i: int, j: int|
                #![trigger l_col[i], l_col[j]]
                0 <= i < j < l_col.len() implies (l_col[i].x != l_col[j].x || l_col[i].y
                    != l_col[j].y) by {
            }
            assert forall|i: int, j: int|
                #![trigger r_col[i], r_col[j]]
                0 <= i < j < r_col.len() implies (r_col[i].x != r_col[j].x || r_col[i].y
                    != r_col[j].y) by {
            }
            lemma_unique_concat(t_row, b_row);
            lemma_cells_of_add(t_row, b_row);
            lemma_unique_concat(t_row + b_row, l_col);
            lemma_cells_of_add(t_row + b_row, l_col);
            lemma_unique_concat(t_row + b_row + l_col, r_col);
            assert(s == t_row + b_row + l_col + r_col);
        } else {
            lemma_cells_of_empty(s);
        }
    } else {
        let n = v.width;
        let pl = pass_writes(v, w, h, n, EdgePass::LeftEdge);
        let pr = pass_writes(v, w, h, n, EdgePass::RightEdge);
        let pt = pass_writes(v, w, h, n, EdgePass::TopEdge);
        let pb = pass_writes(v, w, h, n, EdgePass::BottomEdge);
        let pc = pass_writes(v, w, h, n, EdgePass::Corners);
        lemma_pass_unique(v, w, h, n, EdgePass::LeftEdge);
        lemma_pass_unique(v, w, h, n, EdgePass::RightEdge);
        lemma_pass_unique(v, w, h, n, EdgePass::TopEdge);
        lemma_pass_unique(v, w, h, n, EdgePass::BottomEdge);
        lemma_pass_unique(v, w, h, n, EdgePass::Corners);
        lemma_pass_pass_disjoint(v, w, h, n, EdgePass::LeftEdge, EdgePass::RightEdge);
        lemma_pass_pass_disjoint(v, w, h, n, EdgePass::LeftEdge, EdgePass::TopEdge);
        lemma_pass_pass_disjoint(v, w, h, n, EdgePass::LeftEdge, EdgePass::BottomEdge);
        lemma_pass_pass_disjoint(v, w, h, n, EdgePass::LeftEdge, EdgePass::Corners);
        lemma_pass_pass_disjoint(v, w, h, n, EdgePass::RightEdge, EdgePass::TopEdge);
        lemma_pass_pass_disjoint(v, w, h, n, EdgePass::RightEdge, EdgePass::BottomEdge);
        lemma_pass_pass_disjoint(v, w, h, n, EdgePass::RightEdge, EdgePass::Corners);
        lemma_pass_pass_disjoint(v, w, h, n, EdgePass::TopEdge, EdgePass::BottomEdge);
        lemma_pass_pass_disjoint(v, w, h, n, EdgePass::TopEdge, EdgePass::Corners);
        lemma_pass_pass_disjoint(v, w, h, n, EdgePass::BottomEdge, EdgePass::Corners);
        lemma_unique_concat(pl, pr);
        lemma_cells_of_add(pl, pr);
        lemma_unique_concat(pt, pb);
        lemma_cells_of_add(pt, pb);
        assert(cells_of(pl + pr).disjoint(cells_of(pt + pb)));
        lemma_unique_concat(pl + pr, pt + pb);
        lemma_cells_of_add(pl + pr, pt + pb);
        assert(cells_of((pl + pr) + (pt + pb)).disjoint(cells_of(pc)));
        lemma_unique_concat((pl + pr) + (pt + pb), pc);
        assert(s == (pl + pr) + (pt + pb) + pc);
    }
}

} // verus!
