use eve_l_preview::color::HexColor;
use eve_l_preview::color::Opacity;
use eve_l_preview::icon::convert_rgb_to_argb;
use eve_l_preview::icon::convert_rgba_to_argb;

#[test]
fn test_parse_eight_digit_color() {
    let c = HexColor::parse("#FF00FF00").unwrap();
    assert_eq!(c.argb32(), 0xFF00FF00);
    let c = HexColor::parse("7Fff0000").unwrap();
    assert_eq!(c.argb32(), 0x7FFF0000);
}

#[test]
fn test_parse_six_digit_color_gets_full_opacity() {
    let c = HexColor::parse("#00FF00").unwrap();
    assert_eq!(c.argb32(), 0xFF00FF00);
    let c = HexColor::parse("123abc").unwrap();
    assert_eq!(c.argb32(), 0xFF123ABC);
}

#[test]
fn test_parse_rejects_invalid_colors() {
    assert!(HexColor::parse("invalid").is_none());
    assert!(HexColor::parse("").is_none());
    assert!(HexColor::parse("#").is_none());
    assert!(HexColor::parse("#FF00FF0").is_none());
    assert!(HexColor::parse("#GG00FF00").is_none());
    assert!(HexColor::parse("##FF0000").is_none());
}

#[test]
fn test_to_x11_color_widens_channels() {
    let c = HexColor::from_argb32(0xFF00FF00).to_x11_color();
    assert_eq!(c.red, 0);
    assert_eq!(c.green, 65535);
    assert_eq!(c.blue, 0);
    assert_eq!(c.alpha, 65535);

    let c = HexColor::from_argb32(0x7FFF0000).to_x11_color();
    assert_eq!(c.red, 65535);
    assert_eq!(c.blue, 0);
    assert_eq!(c.alpha, 32639); // 0x7F -> 127 * 257
}

#[test]
fn test_opacity_conversions() {
    assert_eq!(Opacity::from_percent(75).to_argb32(), 0xBF000000);
    assert_eq!(Opacity::from_percent(100).to_argb32(), 0xFF000000);
    assert_eq!(Opacity::from_percent(0).to_argb32(), 0);
    assert_eq!(Opacity::from_percent(150).percent(), 100);
    // 0xCC alpha is 80 percent.
    assert_eq!(Opacity::from_argb32(0xCC000000).percent(), 80);
}

#[test]
fn test_convert_rgba_to_argb_reorders_pixels() {
    let raw = [1u8, 2, 3, 4, 5, 6, 7, 8];
    let argb = convert_rgba_to_argb(&raw);
    assert_eq!(argb, vec![4, 1, 2, 3, 8, 5, 6, 7]);
}

#[test]
fn test_convert_rgb_to_argb_adds_full_alpha() {
    let raw = [1u8, 2, 3, 4, 5, 6];
    let argb = convert_rgb_to_argb(&raw);
    assert_eq!(argb, vec![0xFF, 1, 2, 3, 0xFF, 4, 5, 6]);
}

#[test]
fn test_convert_drops_incomplete_pixels() {
    let raw = [1u8, 2, 3, 4, 5];
    assert_eq!(convert_rgba_to_argb(&raw), vec![4, 1, 2, 3]);
    let raw = [1u8, 2, 3, 4];
    assert_eq!(convert_rgb_to_argb(&raw), vec![0xFF, 1, 2, 3]);
}
