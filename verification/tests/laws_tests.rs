use layered_borders::border::Border;
use layered_borders::border::ConfigError;
use layered_borders::color::HexColor;
use layered_borders::color::Rgb;
use layered_borders::geometry::CellWrite;

fn count_cell(ws: &[CellWrite], x: usize, y: usize) -> usize {
    let mut n = 0;
    for w in ws {
        if w.x == x && w.y == y {
            n += 1;
        }
    }
    n
}

#[test]
fn nested_frames_two_layers() {
    // 8x6 window, two layers, nothing degenerate: exactly two disjoint
    // rectangular rings, the inner strictly inside the outer
    let b = Border::new().width(2).build();
    let ws = b.render_box((8, 6)).unwrap();
    // ring 0 has 2*8 + 2*6 - 4 = 24 cells, ring 1 has 2*6 + 2*4 - 4 = 16
    assert_eq!(ws.len(), 40);
    let mut ring0 = 0;
    let mut ring1 = 0;
    for w in &ws {
        // distance from the window edge classifies the ring
        let d = w.x.min(w.y).min(7 - w.x).min(5 - w.y);
        if d == 0 {
            ring0 += 1;
        } else if d == 1 {
            ring1 += 1;
        } else {
            panic!("cell off both rings: ({}, {})", w.x, w.y);
        }
    }
    assert_eq!(ring0, 24);
    assert_eq!(ring1, 16);
    // no cell is written twice: the rings are disjoint and each ring is
    // covered exactly once
    for w in &ws {
        assert_eq!(count_cell(&ws, w.x, w.y), 1);
    }
}

#[test]
fn rendering_is_idempotent() {
    let b = Border::new()
        .width(2)
        .padding(1)
        .border_type(layered_borders::border::BorderType::Dotted)
        .with_color(HexColor::new("#336699"))
        .build();
    let first = b.render_box((12, 9)).unwrap();
    let second = b.render_box((12, 9)).unwrap();
    assert_eq!(first, second);
}

#[test]
fn single_color_covers_all_three_layers() {
    let b = Border::new()
        .width(3)
        .with_colors(vec![HexColor::new("#123456")])
        .build();
    let ws = b.render_box((12, 12)).unwrap();
    assert!(!ws.is_empty());
    for w in &ws {
        assert_eq!(w.color, Rgb { r: 0x12, g: 0x34, b: 0x56 });
    }
}

#[test]
fn degenerate_window_renders_nothing() {
    for width in [1usize, 2, 7] {
        let b = Border::new().padding(2).width(width).build();
        let ws = b.render_box((4, 4)).unwrap();
        assert!(ws.is_empty());
    }
}

#[test]
fn degenerate_window_omni_renders_nothing() {
    let b = Border::new().padding(2).omni_char('X').build();
    let ws = b.render_box((4, 4)).unwrap();
    assert!(ws.is_empty());
}

#[test]
fn omni_draws_full_perimeter_only() {
    let b = Border::new()
        .width(3)
        .vertical_border_char(vec!['|'])
        .horizontal_border_char(vec!['-'])
        .omni_char('X')
        .build();
    let ws = b.render_box((5, 4)).unwrap();
    // perimeter of the full 5x4 window: 2*5 + 2*2 = 14 cells
    assert_eq!(ws.len(), 14);
    for w in &ws {
        assert_eq!(w.glyph, 'X');
        let on_perimeter = w.x == 0 || w.x == 4 || w.y == 0 || w.y == 3;
        assert!(on_perimeter);
        // each perimeter cell exactly once
        assert_eq!(count_cell(&ws, w.x, w.y), 1);
    }
    // every perimeter cell is covered; inner layers are not drawn
    for x in 0..5usize {
        for y in 0..4usize {
            let on_perimeter = x == 0 || x == 4 || y == 0 || y == 3;
            assert_eq!(count_cell(&ws, x, y), if on_perimeter { 1 } else { 0 });
        }
    }
}

#[test]
fn omni_respects_padding() {
    let b = Border::new().padding(1).omni_char('o').build();
    let ws = b.render_box((6, 6)).unwrap();
    // perimeter of the 4x4 rectangle at distance 1: 2*4 + 2*2 = 12
    assert_eq!(ws.len(), 12);
    for w in &ws {
        assert_eq!(w.glyph, 'o');
        assert!(w.x >= 1 && w.x <= 4 && w.y >= 1 && w.y <= 4);
        assert!(w.x == 1 || w.x == 4 || w.y == 1 || w.y == 4);
    }
}

#[test]
fn zero_width_rejected_before_any_write() {
    let b = Border::new().width(0).build();
    let r = b.render_box((10, 10));
    match r {
        Ok(_) => panic!("zero-width configuration must be rejected"),
        Err(e) => {
            assert_eq!(e, ConfigError::ZeroWidth);
            assert_eq!(e.message(), "Border width cannot be 0");
        }
    }
}

#[test]
fn corner_exclusivity_single_layer() {
    let b = Border::new().build();
    let ws = b.render_box((10, 5)).unwrap();
    let corners = [
        (0usize, 0usize, '┌'),
        (9, 0, '┐'),
        (0, 4, '└'),
        (9, 4, '┘'),
    ];
    for &(x, y, glyph) in &corners {
        // written exactly once, with the corner glyph
        assert_eq!(count_cell(&ws, x, y), 1);
        for w in &ws {
            if w.x == x && w.y == y {
                assert_eq!(w.glyph, glyph);
            }
        }
    }
    // edge runs stay strictly between the corners
    for w in &ws {
        if w.glyph == '│' {
            assert!(w.y > 0 && w.y < 4);
        }
        if w.glyph == '─' {
            assert!(w.x > 0 && w.x < 9);
        }
    }
}

#[test]
fn partial_degeneracy_keeps_shallower_layers() {
    // on a 5x5 window the third layer no longer fits; the two shallower
    // layers must still be drawn in full
    let b = Border::new().width(3).build();
    let ws = b.render_box((5, 5)).unwrap();
    // ring 0: 2*5 + 2*3 - 4 = 16 cells; ring 1: 2*3 + 2*1 - 4 = 8 cells
    assert_eq!(ws.len(), 24);
    for w in &ws {
        let d = w.x.min(w.y).min(4 - w.x).min(4 - w.y);
        assert!(d <= 1, "cell from a degenerate layer: ({}, {})", w.x, w.y);
    }
}

#[test]
fn color_overflow_is_recorded_when_supplied() {
    // the overflow is a configuration error at the time the list is
    // given; widening the border afterwards does not paper over it
    let b = Border::new()
        .with_colors(vec![HexColor::new("#111111"), HexColor::new("#222222")])
        .width(5)
        .build();
    assert_eq!(b.render_box((20, 20)).unwrap_err(), ConfigError::TooManyColors);
}
