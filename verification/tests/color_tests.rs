use layered_borders::color::HexColor;
use layered_borders::color::Rgb;

#[test]
fn to_rgb_parses_well_formed_code() {
    let c = HexColor::new("#0A1B2C");
    assert_eq!(c.to_rgb(), Rgb { r: 0x0A, g: 0x1B, b: 0x2C });
}

#[test]
fn to_rgb_white() {
    let c = HexColor::new("#FFFFFF");
    assert_eq!(c.to_rgb(), Rgb { r: 255, g: 255, b: 255 });
}

#[test]
fn to_rgb_black() {
    let c = HexColor::new("#000000");
    assert_eq!(c.to_rgb(), Rgb { r: 0, g: 0, b: 0 });
}

#[test]
fn to_rgb_accepts_lowercase_digits() {
    let c = HexColor::new("#ff0bb0");
    assert_eq!(c.to_rgb(), Rgb { r: 0xFF, g: 0x0B, b: 0xB0 });
}

#[test]
fn to_rgb_mixed_case() {
    let c = HexColor::new("#aAbBcC");
    assert_eq!(c.to_rgb(), Rgb { r: 0xAA, g: 0xBB, b: 0xCC });
}

#[test]
fn to_rgb_malformed_component_resolves_to_zero() {
    let c = HexColor::new("#GG12zz");
    assert_eq!(c.to_rgb(), Rgb { r: 0, g: 0x12, b: 0 });
}

#[test]
fn to_rgb_short_code_resolves_missing_components_to_zero() {
    let c = HexColor::new("#F");
    assert_eq!(c.to_rgb(), Rgb { r: 0, g: 0, b: 0 });
}

#[test]
fn to_rgb_partial_code() {
    let c = HexColor::new("#12AB");
    assert_eq!(c.to_rgb(), Rgb { r: 0x12, g: 0xAB, b: 0 });
}

#[test]
fn to_rgb_empty_code() {
    let c = HexColor::new("");
    assert_eq!(c.to_rgb(), Rgb { r: 0, g: 0, b: 0 });
}

#[test]
fn to_rgb_does_not_examine_first_character() {
    let c = HexColor::new("xFF0000");
    assert_eq!(c.to_rgb(), Rgb { r: 255, g: 0, b: 0 });
}

#[test]
fn hex_color_clone_keeps_code() {
    let c = HexColor::new("#123456");
    let d = c.clone();
    assert_eq!(d.to_rgb(), Rgb { r: 0x12, g: 0x34, b: 0x56 });
}
