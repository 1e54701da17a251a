use layered_borders::border::Border;
use layered_borders::border::BorderBuilder;
use layered_borders::border::BorderType;
use layered_borders::border::ConfigError;
use layered_borders::color::HexColor;
use layered_borders::color::Rgb;
use layered_borders::font::FontStyle;
use layered_borders::font::TextAlignment;
use layered_borders::geometry::CellWrite;
use layered_borders::layer::BaseLayer;

fn white() -> Rgb {
    Rgb { r: 255, g: 255, b: 255 }
}

fn cell(x: usize, y: usize, glyph: char, color: Rgb) -> CellWrite {
    CellWrite { x, y, glyph, color }
}

#[test]
fn default_border_renders_exact_box_on_3x3() {
    let b = Border::new().build();
    let ws = b.render_box((3, 3)).unwrap();
    let expected = vec![
        cell(0, 1, '│', white()),
        cell(2, 1, '│', white()),
        cell(1, 0, '─', white()),
        cell(1, 2, '─', white()),
        cell(0, 0, '┌', white()),
        cell(2, 0, '┐', white()),
        cell(0, 2, '└', white()),
        cell(2, 2, '┘', white()),
    ];
    assert_eq!(ws, expected);
}

#[test]
fn vertical_borders_only_vertical_cells() {
    let b = Border::new().build();
    let ws = b.render_vertical_borders((3, 3)).unwrap();
    assert_eq!(ws, vec![cell(0, 1, '│', white()), cell(2, 1, '│', white())]);
}

#[test]
fn horizontal_borders_only_horizontal_cells() {
    let b = Border::new().build();
    let ws = b.render_horizontal_borders((3, 3)).unwrap();
    assert_eq!(ws, vec![cell(1, 0, '─', white()), cell(1, 2, '─', white())]);
}

#[test]
fn border_type_selects_default_glyphs() {
    let b = Border::new().width(2).border_type(BorderType::Dashed).build();
    let vs = b.render_vertical_borders((8, 8)).unwrap();
    assert!(!vs.is_empty());
    for w in &vs {
        assert_eq!(w.glyph, '┊');
    }
    let hs = b.render_horizontal_borders((8, 8)).unwrap();
    assert!(!hs.is_empty());
    for w in &hs {
        assert_eq!(w.glyph, '┈');
    }
}

#[test]
fn double_border_type_glyphs() {
    let b = Border::new().border_type(BorderType::Double).build();
    let ws = b.render_box((3, 3)).unwrap();
    assert_eq!(ws[0], cell(0, 1, '║', white()));
    assert_eq!(ws[2], cell(1, 0, '═', white()));
}

#[test]
fn glyph_list_last_element_fallback() {
    let b = Border::new()
        .width(3)
        .vertical_border_char(vec!['a', 'b'])
        .horizontal_border_char(vec!['c', 'd'])
        .build();
    let ws = b.render_box((12, 12)).unwrap();
    for w in &ws {
        // left vertical runs sit at x == layer index here (padding 0)
        if w.x == 0 && w.y > 0 && w.y < 11 && w.glyph != '┌' && w.glyph != '└' {
            assert_eq!(w.glyph, 'a');
        }
        if w.x == 2 && w.y > 2 && w.y < 9 {
            // third layer: beyond the two-entry list, so its last element
            assert_eq!(w.glyph, 'b');
        }
        if w.y == 2 && w.x > 2 && w.x < 9 {
            assert_eq!(w.glyph, 'd');
        }
    }
}

#[test]
fn corner_glyphs_fall_back_to_last_element() {
    let b = Border::new().width(2).build();
    let ws = b.render_box((8, 6)).unwrap();
    // inner layer corners: the default single-entry corner lists stretch
    // over every layer via the last-element fallback
    assert!(ws.contains(&cell(1, 1, '┌', white())));
    assert!(ws.contains(&cell(6, 1, '┐', white())));
    assert!(ws.contains(&cell(1, 4, '└', white())));
    assert!(ws.contains(&cell(6, 4, '┘', white())));
}

#[test]
fn border_char_sets_both_edge_lists() {
    let b = Border::new().border_char('*').build();
    let ws = b.render_box((5, 5)).unwrap();
    for w in &ws {
        let corner = (w.x == 0 || w.x == 4) && (w.y == 0 || w.y == 4);
        if corner {
            assert_ne!(w.glyph, '*');
        } else {
            assert_eq!(w.glyph, '*');
        }
    }
}

#[test]
fn padding_offsets_the_outermost_layer() {
    let b = Border::new().padding(1).build();
    let ws = b.render_box((5, 5)).unwrap();
    let expected = vec![
        cell(1, 2, '│', white()),
        cell(3, 2, '│', white()),
        cell(2, 1, '─', white()),
        cell(2, 3, '─', white()),
        cell(1, 1, '┌', white()),
        cell(3, 1, '┐', white()),
        cell(1, 3, '└', white()),
        cell(3, 3, '┘', white()),
    ];
    assert_eq!(ws, expected);
}

#[test]
fn invisible_border_renders_nothing() {
    let b = Border::new().visible(false).build();
    let ws = b.render_box((10, 10)).unwrap();
    assert!(ws.is_empty());
    let vs = b.render_vertical_borders((10, 10)).unwrap();
    assert!(vs.is_empty());
}

#[test]
fn invisible_border_still_validates_first() {
    let b = Border::new().visible(false).width(0).build();
    assert_eq!(b.render_box((10, 10)).unwrap_err(), ConfigError::ZeroWidth);
}

#[test]
fn too_many_colors_rejected() {
    let b = Border::new()
        .with_colors(vec![HexColor::new("#111111"), HexColor::new("#222222")])
        .build();
    assert_eq!(b.render_box((10, 10)).unwrap_err(), ConfigError::TooManyColors);
}

#[test]
fn colors_up_to_width_accepted() {
    let b = Border::new()
        .width(2)
        .with_colors(vec![HexColor::new("#111111"), HexColor::new("#222222")])
        .build();
    let ws = b.render_box((8, 8)).unwrap();
    assert!(!ws.is_empty());
    for w in &ws {
        let expect = if w.x == 0 || w.x == 7 || w.y == 0 || w.y == 7 {
            Rgb { r: 0x11, g: 0x11, b: 0x11 }
        } else {
            Rgb { r: 0x22, g: 0x22, b: 0x22 }
        };
        assert_eq!(w.color, expect);
    }
}

#[test]
fn with_color_sets_single_layer_color() {
    let b = Border::new().with_color(HexColor::new("#ABCDEF")).build();
    let ws = b.render_box((3, 3)).unwrap();
    for w in &ws {
        assert_eq!(w.color, Rgb { r: 0xAB, g: 0xCD, b: 0xEF });
    }
}

#[test]
fn empty_vertical_glyph_list_rejected() {
    let b = Border::new().vertical_border_char(vec![]).build();
    assert_eq!(b.render_box((5, 5)).unwrap_err(), ConfigError::MissingVerticalChar);
    assert_eq!(b.render_vertical_borders((5, 5)).unwrap_err(), ConfigError::MissingVerticalChar);
}

#[test]
fn empty_horizontal_glyph_list_rejected() {
    let b = Border::new().horizontal_border_char(vec![]).build();
    assert_eq!(b.render_box((5, 5)).unwrap_err(), ConfigError::MissingHorizontalChar);
    assert_eq!(
        b.render_horizontal_borders((5, 5)).unwrap_err(),
        ConfigError::MissingHorizontalChar
    );
}

#[test]
fn omni_glyph_blocks_the_pass_renders() {
    let b = Border::new().omni_char('#').build();
    assert_eq!(b.render_vertical_borders((5, 5)).unwrap_err(), ConfigError::MissingVerticalChar);
    assert_eq!(
        b.render_horizontal_borders((5, 5)).unwrap_err(),
        ConfigError::MissingHorizontalChar
    );
    assert!(b.render_box((5, 5)).is_ok());
}

#[test]
fn error_messages() {
    assert_eq!(ConfigError::ZeroWidth.message(), "Border width cannot be 0");
    assert_eq!(ConfigError::TooManyColors.message(), "Number of colors provided exceeds border width");
    assert_eq!(ConfigError::MissingVerticalChar.message(), "Appropriate vertical character not provided");
    assert_eq!(
        ConfigError::MissingHorizontalChar.message(),
        "Appropriate horizontal character not provided"
    );
    assert_eq!(
        ConfigError::MissingCornerChar.message(),
        "Appropriate corner character not provided"
    );
}

#[test]
fn builder_new_equals_border_new() {
    let a = BorderBuilder::new().build();
    let b = Border::new().build();
    assert_eq!(a.render_box((4, 4)).unwrap(), b.render_box((4, 4)).unwrap());
}

#[test]
fn base_layer_defaults() {
    let layer = BaseLayer::new((20, 10));
    assert_eq!(layer.window_size, (20, 10));
    assert!(layer.title.is_none());
    assert!(layer.cursor_visibility);
    assert_eq!(layer.default_cursor_position, (0, 0));
    assert_eq!(layer.text_alignment, TextAlignment::Left);
    assert_eq!(layer.background_color.to_rgb(), Rgb { r: 0, g: 0, b: 0 });
    assert_eq!(layer.foreground_color.to_rgb(), Rgb { r: 255, g: 255, b: 255 });
    let ws = layer.border.render_box(layer.window_size).unwrap();
    // padding 1, one layer: corners of the 18x8 inner rectangle
    assert!(ws.contains(&cell(1, 1, '┌', white())));
    assert!(ws.contains(&cell(18, 1, '┐', white())));
    assert!(ws.contains(&cell(1, 8, '└', white())));
    assert!(ws.contains(&cell(18, 8, '┘', white())));
    // edges drawn with the configured shorthand glyph
    assert!(ws.contains(&cell(2, 1, 'X', white())));
    assert!(ws.contains(&cell(1, 2, 'X', white())));
}

#[test]
fn font_style_constructs() {
    let _style = FontStyle::new(true, false, true);
    let _plain = FontStyle::new(false, false, false);
    assert_eq!(TextAlignment::Center, TextAlignment::Center);
    assert_ne!(TextAlignment::Left, TextAlignment::Right);
}
