//! Run and paragraph properties of a word-processing document as read from
//! the document (`<w:rPr>`, `<w:pPr>`, `<w:numPr>`, hyperlinks), and the
//! text and paragraph styles, numbering references and link targets they give.

use vstd::prelude::*;
use crate::ir::{Color, Decimal, LineSpacing, ParagraphStyle, ParagraphStyleView, TextStyle, VerticalTextAlign};
use crate::lists::NumInfo;
use crate::page::twips_points;
use crate::style_map::{
    extract_tab_stops, or_else, tab_stop_overrides_of, tab_stops_after_overrides, twips_to_points, RawTab,
};
use crate::styles::{alignment_of, extract_alignment, hex_color, highlight_color, parse_hex_color, resolve_highlight_color};
use crate::text::str_eq;

verus! {

/// `<w:rPr>` as read; each field is `None` where the element is absent.
pub struct RunProperties {
    /// `<w:b>`.
    pub bold: Option<bool>,
    /// `<w:i>`.
    pub italic: Option<bool>,
    /// `<w:u w:val>`.
    pub underline: Option<String>,
    /// `<w:strike>`.
    pub strike: Option<bool>,
    /// `<w:sz>`, in half points.
    pub size_half_points: Option<u32>,
    /// `<w:color w:val>`.
    pub color: Option<String>,
    /// `<w:rFonts>`: the ASCII, high-ANSI, East Asian and complex-script fonts.
    pub font_ascii: Option<String>,
    pub font_hi_ansi: Option<String>,
    pub font_east_asia: Option<String>,
    pub font_cs: Option<String>,
    /// `<w:highlight w:val>`.
    pub highlight: Option<String>,
    /// `<w:vertAlign w:val>`.
    pub vertical_align: Option<String>,
    /// `<w:caps>`.
    pub caps: Option<bool>,
    /// `<w:spacing w:val>`, in twips.
    pub character_spacing: Option<i32>,
}

impl RunProperties {
    /// Properties with no element present.
    pub fn empty() -> (p: RunProperties)
        ensures
            p.bold is None && p.italic is None && p.underline is None && p.strike is None,
            p.size_half_points is None && p.color is None && p.highlight is None && p.vertical_align is None,
            p.font_ascii is None && p.font_hi_ansi is None && p.font_east_asia is None && p.font_cs is None,
            p.caps is None && p.character_spacing is None,
    {
        RunProperties {
            bold: None,
            italic: None,
            underline: None,
            strike: None,
            size_half_points: None,
            color: None,
            font_ascii: None,
            font_hi_ansi: None,
            font_east_asia: None,
            font_cs: None,
            highlight: None,
            vertical_align: None,
            caps: None,
            character_spacing: None,
        }
    }
}

/// An underline is on unless its value is `none`.
pub open spec fn underline_of(value: Option<String>) -> Option<bool> {
    match value {
        Some(v) => if v@ == "none"@ { None } else { Some(true) },
        None => None,
    }
}

pub open spec fn vertical_align_of(value: Option<String>) -> Option<VerticalTextAlign> {
    match value {
        Some(v) => if v@ == "superscript"@ {
            Some(VerticalTextAlign::Superscript)
        } else if v@ == "subscript"@ {
            Some(VerticalTextAlign::Subscript)
        } else {
            None
        },
        None => None,
    }
}

pub open spec fn color_of(value: Option<String>) -> Option<Color> {
    match value {
        Some(v) => hex_color(v@),
        None => None,
    }
}

pub open spec fn highlight_of(value: Option<String>) -> Option<Color> {
    match value {
        Some(v) => highlight_color(v@),
        None => None,
    }
}

/// The first font given among the ASCII, high-ANSI, East Asian and
/// complex-script slots.
pub open spec fn font_family_of(p: RunProperties) -> Option<String> {
    or_else(p.font_ascii, or_else(p.font_hi_ansi, or_else(p.font_east_asia, p.font_cs)))
}

/// Half points as points.
pub open spec fn half_points_points(half_points: u32) -> Decimal {
    Decimal::of((half_points * 5) as i64, 1)
}

/// The text style of run properties.
pub open spec fn run_style_of(p: RunProperties) -> TextStyle {
    TextStyle {
        bold: p.bold,
        italic: p.italic,
        underline: underline_of(p.underline),
        strikethrough: p.strike,
        font_size: match p.size_half_points {
            Some(hp) => Some(half_points_points(hp)),
            None => None,
        },
        color: color_of(p.color),
        font_family: font_family_of(p),
        highlight: highlight_of(p.highlight),
        vertical_align: vertical_align_of(p.vertical_align),
        all_caps: p.caps,
        small_caps: None,
        letter_spacing: match p.character_spacing {
            Some(t) => Some(twips_points(t)),
            None => None,
        },
    }
}

fn clone_opt(s: &Option<String>) -> (c: Option<String>)
    ensures
        c == *s,
{
    match s {
        Some(v) => Some(v.clone()),
        None => None,
    }
}

/// The text style that run properties give.
pub fn extract_run_style_from_properties(p: &RunProperties) -> (style: TextStyle)
    ensures
        style == run_style_of(*p),
{
    let underline = match &p.underline {
        Some(v) => if str_eq(v.as_str(), "none") { None } else { Some(true) },
        None => None,
    };
    let vertical_align = match &p.vertical_align {
        Some(v) => if str_eq(v.as_str(), "superscript") {
            Some(VerticalTextAlign::Superscript)
        } else if str_eq(v.as_str(), "subscript") {
            Some(VerticalTextAlign::Subscript)
        } else {
            None
        },
        None => None,
    };
    let font_size = match p.size_half_points {
        Some(hp) => Some(Decimal::from_parts(hp as i64 * 5, 1)),
        None => None,
    };
    let color = match &p.color {
        Some(v) => parse_hex_color(v.as_str()),
        None => None,
    };
    let font_family = if p.font_ascii.is_some() {
        clone_opt(&p.font_ascii)
    } else if p.font_hi_ansi.is_some() {
        clone_opt(&p.font_hi_ansi)
    } else if p.font_east_asia.is_some() {
        clone_opt(&p.font_east_asia)
    } else {
        clone_opt(&p.font_cs)
    };
    let highlight = match &p.highlight {
        Some(v) => resolve_highlight_color(v.as_str()),
        None => None,
    };
    let letter_spacing = match p.character_spacing {
        Some(t) => Some(Decimal::from_parts(t as i64 * 5, 2)),
        None => None,
    };
    TextStyle {
        bold: p.bold,
        italic: p.italic,
        underline,
        strikethrough: p.strike,
        font_size,
        color,
        font_family,
        highlight,
        vertical_align,
        all_caps: p.caps,
        small_caps: None,
        letter_spacing,
    }
}

/// `<w:ind w:firstLine>` or `<w:ind w:hanging>`, in twips.
#[derive(Clone, Copy, Debug, PartialEq, Eq)]
pub enum SpecialIndent {
    FirstLine(i32),
    Hanging(i32),
}

/// `<w:ind>` as read, in twips.
#[derive(Clone, Copy, Debug, PartialEq, Eq)]
pub struct IndentProperties {
    pub start: Option<i32>,
    pub end: Option<i32>,
    pub special: Option<SpecialIndent>,
}

/// `<w:spacing w:lineRule>`.
#[derive(Clone, Copy, Debug, PartialEq, Eq)]
pub enum LineRule {
    Auto,
    AtLeast,
    Exact,
}

/// `<w:spacing>` as read.
#[derive(Clone, Copy, Debug, PartialEq, Eq)]
pub struct LineSpacingProperties {
    pub rule: Option<LineRule>,
    /// `w:line`: twips under an exact or at-least rule, 240ths of a line otherwise.
    pub line: Option<i32>,
    /// `w:line / 240` in lines, as the floating-point quotient prints, where
    /// it fits a `Decimal`.
    pub line_count: Option<Decimal>,
    /// `w:before` and `w:after`, in twips.
    pub before: Option<u32>,
    pub after: Option<u32>,
}

/// `<w:pPr>` as read.
pub struct ParagraphProperties {
    /// `<w:jc w:val>`.
    pub alignment: Option<String>,
    pub indent: Option<IndentProperties>,
    pub spacing: Option<LineSpacingProperties>,
    /// The run properties of the paragraph mark.
    pub run: RunProperties,
    /// `<w:tabs>`.
    pub tabs: Vec<RawTab>,
}

/// A first-line indent in points; a hanging indent is negative.
pub open spec fn special_indent_points(s: SpecialIndent) -> Decimal {
    match s {
        SpecialIndent::FirstLine(v) => twips_points(v),
        SpecialIndent::Hanging(v) => Decimal::of((-(v * 5)) as i64, 2),
    }
}

pub open spec fn opt_twips_points(v: Option<i32>) -> Option<Decimal> {
    match v {
        Some(t) => Some(twips_points(t)),
        None => None,
    }
}

pub open spec fn opt_twips_to_points(v: Option<u32>) -> Option<Decimal> {
    match v {
        Some(t) => Some(twips_to_points(t)),
        None => None,
    }
}

/// Left, right and first-line indents in points.
pub open spec fn indents_of(indent: Option<IndentProperties>) -> (Option<Decimal>, Option<Decimal>, Option<Decimal>) {
    match indent {
        Some(i) => (
            opt_twips_points(i.start),
            opt_twips_points(i.end),
            match i.special {
                Some(s) => Some(special_indent_points(s)),
                None => None,
            },
        ),
        None => (None, None, None),
    }
}

/// An exact or at-least rule gives an exact line height in points; any other
/// rule a proportional spacing in lines.
pub open spec fn line_spacing_of(s: LineSpacingProperties) -> Option<LineSpacing> {
    match s.line {
        None => None,
        Some(l) => match s.rule {
            Some(LineRule::Exact) => Some(LineSpacing::Exact(twips_points(l))),
            Some(LineRule::AtLeast) => Some(LineSpacing::Exact(twips_points(l))),
            _ => match s.line_count {
                Some(c) => Some(LineSpacing::Proportional(c)),
                None => None,
            },
        },
    }
}

/// Line spacing, space before and space after.
pub open spec fn spacing_of(spacing: Option<LineSpacingProperties>) -> (Option<LineSpacing>, Option<Decimal>, Option<Decimal>) {
    match spacing {
        Some(s) => (line_spacing_of(s), opt_twips_to_points(s.before), opt_twips_to_points(s.after)),
        None => (None, None, None),
    }
}

/// The paragraph style of paragraph properties.
pub open spec fn paragraph_style_of(p: ParagraphProperties) -> ParagraphStyleView {
    let (left, right, first_line) = indents_of(p.indent);
    let (line_spacing, before, after) = spacing_of(p.spacing);
    ParagraphStyleView {
        alignment: alignment_of(match p.alignment {
            Some(a) => Some(a@),
            None => None,
        }),
        indent_left: left,
        indent_right: right,
        indent_first_line: first_line,
        font_size: run_style_of(p.run).font_size,
        line_spacing,
        space_before: before,
        space_after: after,
        heading_level: None,
        heading_number: None,
        direction: None,
        tab_stops: match tab_stop_overrides_of(p.tabs@) {
            Some(o) => Some(tab_stops_after_overrides(Seq::empty(), o)),
            None => None,
        },
    }
}

fn opt_points(v: Option<i32>) -> (d: Option<Decimal>)
    ensures
        d == opt_twips_points(v),
{
    match v {
        Some(t) => Some(Decimal::from_parts(t as i64 * 5, 2)),
        None => None,
    }
}

fn opt_unsigned_points(v: Option<u32>) -> (d: Option<Decimal>)
    ensures
        d == opt_twips_to_points(v),
{
    match v {
        Some(t) => Some(Decimal::from_parts(t as i64 * 5, 2)),
        None => None,
    }
}

/// The left, right and first-line indents of `<w:ind>`, in points.
pub fn extract_indent(indent: &Option<IndentProperties>) -> (indents: (Option<Decimal>, Option<Decimal>, Option<Decimal>))
    ensures
        indents == indents_of(*indent),
{
    match indent {
        Some(i) => {
            let first_line = match i.special {
                Some(SpecialIndent::FirstLine(v)) => Some(Decimal::from_parts(v as i64 * 5, 2)),
                Some(SpecialIndent::Hanging(v)) => Some(Decimal::from_parts(-(v as i64 * 5), 2)),
                None => None,
            };
            (opt_points(i.start), opt_points(i.end), first_line)
        },
        None => (None, None, None),
    }
}

/// The line spacing, space before and space after of `<w:spacing>`.
pub fn extract_line_spacing(spacing: &Option<LineSpacingProperties>) -> (result: (Option<LineSpacing>, Option<Decimal>, Option<Decimal>))
    ensures
        result == spacing_of(*spacing),
{
    match spacing {
        Some(s) => {
            let line_spacing = match s.line {
                None => None,
                Some(l) => match s.rule {
                    Some(LineRule::Exact) | Some(LineRule::AtLeast) => Some(
                        LineSpacing::Exact(Decimal::from_parts(l as i64 * 5, 2)),
                    ),
                    _ => match s.line_count {
                        Some(c) => Some(LineSpacing::Proportional(c)),
                        None => None,
                    },
                },
            };
            (line_spacing, opt_unsigned_points(s.before), opt_unsigned_points(s.after))
        },
        None => (None, None, None),
    }
}

/// The paragraph style that paragraph properties give.
pub fn extract_paragraph_style_from_properties(p: &ParagraphProperties) -> (style: ParagraphStyle)
    ensures
        style@ == paragraph_style_of(*p),
{
    let alignment = match &p.alignment {
        Some(a) => extract_alignment(Some(a.as_str())),
        None => extract_alignment(None),
    };
    let (indent_left, indent_right, indent_first_line) = extract_indent(&p.indent);
    let (line_spacing, space_before, space_after) = extract_line_spacing(&p.spacing);
    let font_size = extract_run_style_from_properties(&p.run).font_size;
    let tab_stops = extract_tab_stops(p.tabs.as_slice());
    ParagraphStyle {
        alignment,
        indent_left,
        indent_right,
        indent_first_line,
        font_size,
        line_spacing,
        space_before,
        space_after,
        heading_level: None,
        heading_number: None,
        direction: None,
        tab_stops,
    }
}

/// The numbering reference of `<w:numPr>`: none without a `w:numId` or with
/// `w:numId` 0 (numbering removed); level 0 where `w:ilvl` is absent.
pub open spec fn numbering_reference(num_id: Option<usize>, level: Option<u32>) -> Option<NumInfo> {
    match num_id {
        Some(id) => if id == 0 {
            None
        } else {
            Some(NumInfo {
                num_id: id,
                level: match level {
                    Some(l) => l,
                    None => 0,
                },
            })
        },
        None => None,
    }
}

/// The numbering reference a style's `<w:numPr>` gives.
pub fn extract_style_num_info(num_id: Option<usize>, level: Option<u32>) -> (info: Option<NumInfo>)
    ensures
        info == numbering_reference(num_id, level),
{
    match num_id {
        Some(id) => if id == 0 {
            None
        } else {
            Some(NumInfo {
                num_id: id,
                level: match level {
                    Some(l) => l,
                    None => 0,
                },
            })
        },
        None => None,
    }
}

/// The numbering reference of a paragraph: none unless the paragraph is
/// marked as numbered.
pub fn extract_num_info(has_numbering: bool, num_id: Option<usize>, level: Option<u32>) -> (info: Option<NumInfo>)
    ensures
        info == (if has_numbering { numbering_reference(num_id, level) } else { None }),
{
    if !has_numbering {
        return None;
    }
    extract_style_num_info(num_id, level)
}

/// Where a hyperlink points: an external target (a path, or a relationship
/// to look up) or an anchor within the document.
pub enum HyperlinkTarget {
    External { rid: String, path: String },
    Anchor { anchor: String },
}

/// The target of the first relationship with id `rid`.
pub open spec fn relationship_target(links: Seq<(String, String)>, rid: Seq<char>, i: int) -> Option<Seq<char>>
    decreases links.len() - i,
{
    if i < 0 || i >= links.len() {
        None
    } else if links[i].0@ == rid {
        Some(links[i].1@)
    } else {
        relationship_target(links, rid, i + 1)
    }
}

/// The URL of a hyperlink: its own path where it has one, else the target of
/// its relationship; none for an anchor.
pub open spec fn hyperlink_url(link: HyperlinkTarget, links: Seq<(String, String)>) -> Option<Seq<char>> {
    match link {
        HyperlinkTarget::External { rid, path } => if path@.len() > 0 {
            Some(path@)
        } else {
            relationship_target(links, rid@, 0)
        },
        HyperlinkTarget::Anchor { .. } => None,
    }
}

/// The URL a hyperlink resolves to; `hyperlinks` holds the document's
/// hyperlink relationships as (id, target).
pub fn resolve_hyperlink_url(link: &HyperlinkTarget, hyperlinks: &[(String, String)]) -> (url: Option<String>)
    ensures
        match url {
            Some(u) => hyperlink_url(*link, hyperlinks@) == Some(u@),
            None => hyperlink_url(*link, hyperlinks@) is None,
        },
{
    match link {
        HyperlinkTarget::External { rid, path } => {
            if !path.as_str().is_empty() {
                return Some(path.clone());
            }
            let mut i: usize = 0;
            assert(hyperlink_url(*link, hyperlinks@) == relationship_target(hyperlinks@, rid@, 0));
            while i < hyperlinks.len()
                invariant
                    i <= hyperlinks@.len(),
                    hyperlink_url(*link, hyperlinks@) == relationship_target(hyperlinks@, rid@, 0),
                    relationship_target(hyperlinks@, rid@, 0) == relationship_target(hyperlinks@, rid@, i as int),
                decreases hyperlinks@.len() - i,
            {
                if str_eq(hyperlinks[i].0.as_str(), rid.as_str()) {
                    let target = hyperlinks[i].1.clone();
                    assert(relationship_target(hyperlinks@, rid@, i as int) == Some(hyperlinks@[i as int].1@));
                    return Some(target);
                }
                i = i + 1;
            }
            None
        },
        HyperlinkTarget::Anchor { .. } => None,
    }
}

} // verus!
