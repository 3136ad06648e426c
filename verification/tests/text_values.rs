use office2pdf::ir::{Alignment, Color, Decimal};
use office2pdf::styles::{extract_alignment, parse_hex_color, resolve_highlight_color};
use office2pdf::text::parse_i64;

#[test]
fn integers_parse_as_str_parse_does() {
    assert_eq!(parse_i64("2886710"), Some(2886710));
    assert_eq!(parse_i64("-74295"), Some(-74295));
    assert_eq!(parse_i64("+12"), Some(12));
    assert_eq!(parse_i64("9223372036854775807"), Some(i64::MAX));
    assert_eq!(parse_i64("-9223372036854775808"), Some(i64::MIN));
    assert_eq!(parse_i64("9223372036854775808"), None);
    assert_eq!(parse_i64(""), None);
    assert_eq!(parse_i64("-"), None);
    assert_eq!(parse_i64(" 1"), None);
    assert_eq!(parse_i64("1.5"), None);
    assert_eq!(parse_i64("007"), Some(7));
}

#[test]
fn hex_colors() {
    assert_eq!(parse_hex_color("3465a4"), Some(Color { r: 0x34, g: 0x65, b: 0xa4 }));
    assert_eq!(parse_hex_color("FFFFFF"), Some(Color { r: 255, g: 255, b: 255 }));
    assert_eq!(parse_hex_color("auto"), None);
    assert_eq!(parse_hex_color("12345"), None);
    assert_eq!(parse_hex_color("12345g"), None);
    assert_eq!(parse_hex_color("#123456"), None);
}

#[test]
fn alignment_values() {
    assert_eq!(extract_alignment(Some("center")), Some(Alignment::Center));
    assert_eq!(extract_alignment(Some("end")), Some(Alignment::Right));
    assert_eq!(extract_alignment(Some("start")), Some(Alignment::Left));
    assert_eq!(extract_alignment(Some("both")), Some(Alignment::Justify));
    assert_eq!(extract_alignment(Some("distribute")), None);
    assert_eq!(extract_alignment(None), None);
}

#[test]
fn highlight_names() {
    assert_eq!(resolve_highlight_color("yellow"), Some(Color { r: 255, g: 255, b: 0 }));
    assert_eq!(resolve_highlight_color("darkGray"), Some(Color { r: 128, g: 128, b: 128 }));
    assert_eq!(resolve_highlight_color("none"), None);
}

#[test]
fn decimals_keep_their_scale() {
    let d = Decimal::new(125, 2).expect("scale in range");
    assert_eq!((d.units(), d.scale()), (125, 2));
    assert!(Decimal::new(1, 19).is_none());
    assert_eq!(Decimal::whole(-3).units(), -3);
}
