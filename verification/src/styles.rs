//! Mapping of DOCX attribute values to formatting: paragraph alignment and
//! highlight colors.

use vstd::prelude::*;
use crate::ir::{Alignment, Color};
use crate::text::{chars_of, hex_digit, hex_digit_value, str_eq};

verus! {

/// The alignment a `w:jc` value names.
pub open spec fn alignment_of(value: Option<Seq<char>>) -> Option<Alignment> {
    match value {
        Some(v) => if v == "center"@ {
            Some(Alignment::Center)
        } else if v == "right"@ || v == "end"@ {
            Some(Alignment::Right)
        } else if v == "left"@ || v == "start"@ {
            Some(Alignment::Left)
        } else if v == "both"@ || v == "justified"@ {
            Some(Alignment::Justify)
        } else {
            None
        },
        None => None,
    }
}

pub fn extract_alignment(value: Option<&str>) -> (alignment: Option<Alignment>)
    ensures
        alignment == alignment_of(match value { Some(v) => Some(v@), None => None }),
{
    match value {
        Some(v) => if str_eq(v, "center") {
            Some(Alignment::Center)
        } else if str_eq(v, "right") || str_eq(v, "end") {
            Some(Alignment::Right)
        } else if str_eq(v, "left") || str_eq(v, "start") {
            Some(Alignment::Left)
        } else if str_eq(v, "both") || str_eq(v, "justified") {
            Some(Alignment::Justify)
        } else {
            None
        },
        None => None,
    }
}

/// Each `w:jc` keyword gives its alignment and no other value gives it:
/// `center`; `right` or `end`; `left` or `start`; `both` or `justified`.
/// Any other value, or none, gives no alignment.
pub proof fn law_alignment_keywords(v: Seq<char>)
    ensures
        (alignment_of(Some(v)) == Some(Alignment::Center)) <==> v == "center"@,
        (alignment_of(Some(v)) == Some(Alignment::Right)) <==> (v == "right"@ || v == "end"@),
        (alignment_of(Some(v)) == Some(Alignment::Left)) <==> (v == "left"@ || v == "start"@),
        (alignment_of(Some(v)) == Some(Alignment::Justify)) <==> (v == "both"@ || v == "justified"@),
        alignment_of(None) is None,
{
    reveal_strlit("center");
    reveal_strlit("right");
    reveal_strlit("end");
    reveal_strlit("left");
    reveal_strlit("start");
    reveal_strlit("both");
    reveal_strlit("justified");
    assert("start"@[0] != "right"@[0]);
    assert("both"@[0] != "left"@[0]);
    assert("both"@ != "left"@);
    assert("both"@.len() != "center"@.len() && "both"@.len() != "right"@.len() && "both"@.len() != "end"@.len() && "both"@.len() != "start"@.len());
    assert("start"@ != "right"@);
    assert("center"@.len() != "right"@.len() && "center"@.len() != "end"@.len());
    assert("left"@.len() != "center"@.len() && "left"@.len() != "right"@.len() && "left"@.len() != "end"@.len());
    assert("start"@.len() != "center"@.len() && "start"@.len() != "end"@.len());
}

/// The color of a named Word highlight.
pub open spec fn highlight_color(name: Seq<char>) -> Option<Color> {
    if name == "yellow"@ {
        Some(Color { r: 255, g: 255, b: 0 })
    } else if name == "green"@ {
        Some(Color { r: 0, g: 255, b: 0 })
    } else if name == "cyan"@ {
        Some(Color { r: 0, g: 255, b: 255 })
    } else if name == "magenta"@ {
        Some(Color { r: 255, g: 0, b: 255 })
    } else if name == "blue"@ {
        Some(Color { r: 0, g: 0, b: 255 })
    } else if name == "red"@ {
        Some(Color { r: 255, g: 0, b: 0 })
    } else if name == "darkBlue"@ {
        Some(Color { r: 0, g: 0, b: 128 })
    } else if name == "darkCyan"@ {
        Some(Color { r: 0, g: 128, b: 128 })
    } else if name == "darkGreen"@ {
        Some(Color { r: 0, g: 128, b: 0 })
    } else if name == "darkMagenta"@ {
        Some(Color { r: 128, g: 0, b: 128 })
    } else if name == "darkRed"@ {
        Some(Color { r: 128, g: 0, b: 0 })
    } else if name == "darkYellow"@ {
        Some(Color { r: 128, g: 128, b: 0 })
    } else if name == "darkGray"@ {
        Some(Color { r: 128, g: 128, b: 128 })
    } else if name == "lightGray"@ {
        Some(Color { r: 192, g: 192, b: 192 })
    } else if name == "black"@ {
        Some(Color { r: 0, g: 0, b: 0 })
    } else if name == "white"@ {
        Some(Color { r: 255, g: 255, b: 255 })
    } else {
        None
    }
}

pub fn resolve_highlight_color(name: &str) -> (color: Option<Color>)
    ensures
        color == highlight_color(name@),
{
    if str_eq(name, "yellow") {
        Some(Color::new(255, 255, 0))
    } else if str_eq(name, "green") {
        Some(Color::new(0, 255, 0))
    } else if str_eq(name, "cyan") {
        Some(Color::new(0, 255, 255))
    } else if str_eq(name, "magenta") {
        Some(Color::new(255, 0, 255))
    } else if str_eq(name, "blue") {
        Some(Color::new(0, 0, 255))
    } else if str_eq(name, "red") {
        Some(Color::new(255, 0, 0))
    } else if str_eq(name, "darkBlue") {
        Some(Color::new(0, 0, 128))
    } else if str_eq(name, "darkCyan") {
        Some(Color::new(0, 128, 128))
    } else if str_eq(name, "darkGreen") {
        Some(Color::new(0, 128, 0))
    } else if str_eq(name, "darkMagenta") {
        Some(Color::new(128, 0, 128))
    } else if str_eq(name, "darkRed") {
        Some(Color::new(128, 0, 0))
    } else if str_eq(name, "darkYellow") {
        Some(Color::new(128, 128, 0))
    } else if str_eq(name, "darkGray") {
        Some(Color::new(128, 128, 128))
    } else if str_eq(name, "lightGray") {
        Some(Color::new(192, 192, 192))
    } else if str_eq(name, "black") {
        Some(Color::new(0, 0, 0))
    } else if str_eq(name, "white") {
        Some(Color::new(255, 255, 255))
    } else {
        None
    }
}

/// The byte two hexadecimal digits spell, high digit first.
pub open spec fn hex_byte(hi: char, lo: char) -> Option<u8> {
    match (hex_digit_value(hi), hex_digit_value(lo)) {
        (Some(h), Some(l)) => Some((h * 16 + l) as u8),
        _ => None,
    }
}

/// The color an `RRGGBB` hexadecimal value names (`srgbClr/@val`, `w:color/@w:val`).
pub open spec fn hex_color(s: Seq<char>) -> Option<Color> {
    if s.len() != 6 {
        None
    } else {
        match (hex_byte(s[0], s[1]), hex_byte(s[2], s[3]), hex_byte(s[4], s[5])) {
            (Some(r), Some(g), Some(b)) => Some(Color { r, g, b }),
            _ => None,
        }
    }
}

fn parse_hex_byte(hi: char, lo: char) -> (byte: Option<u8>)
    ensures
        byte == hex_byte(hi, lo),
{
    match (hex_digit(hi), hex_digit(lo)) {
        (Some(h), Some(l)) => Some(h * 16 + l),
        _ => None,
    }
}

/// Parses a six-digit hexadecimal color such as `3465a4`; anything else
/// (`auto`, a short or long value, a non-hex digit) names no color.
pub fn parse_hex_color(value: &str) -> (color: Option<Color>)
    ensures
        color == hex_color(value@),
{
    let cs = chars_of(value);
    if cs.len() != 6 {
        return None;
    }
    match (parse_hex_byte(cs[0], cs[1]), parse_hex_byte(cs[2], cs[3]), parse_hex_byte(cs[4], cs[5])) {
        (Some(r), Some(g), Some(b)) => Some(Color { r, g, b }),
        _ => None,
    }
}

} // verus!
