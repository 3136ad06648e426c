//! Typst markup for a whole paragraph: headings, the `#block` wrapper that
//! carries spacing, indentation, justification and direction, empty
//! paragraphs, and alignment.

use vstd::prelude::*;
use crate::ir::{pow10, Alignment, Decimal, LineSpacing, Paragraph, ParagraphStyle, TabStop, TextDirection};
use crate::tabs::{after_runs_with_tabs, generate_runs_with_tabs};
use crate::text::push_str;
use crate::typst_text::{
    covers_runs, decimal_text, format_decimal, join_params, nat_digits, param_text, pow10_u64, push_u64,
    run_views, write_param, FontTable,
};

verus! {

/// Measurements of a paragraph that the renderer derives from its style with
/// floating-point line-height formulas, as they are printed.
#[derive(Clone, Copy, Debug, PartialEq, Eq)]
pub struct ParagraphMetrics {
    /// Height of an empty paragraph's `#v(..)` filler, in points.
    pub empty_height: Decimal,
    /// The `below:` gap of the paragraph's block, in points.
    pub block_below: Decimal,
    /// The `leading:` of proportional line spacing, in em.
    pub proportional_leading: Decimal,
}

/// An indent larger than 0.0001 pt in magnitude.
pub open spec fn noticeable(d: Decimal) -> bool {
    let units = d.units_spec();
    let magnitude: int = if units < 0 { -units } else { units as int };
    magnitude * 10000 > pow10(d.scale_spec() as nat)
}

fn noticeable_indent(d: Decimal) -> (b: bool)
    ensures
        b == noticeable(d),
{
    let units = d.units();
    let scale = d.scale();
    let magnitude: u128 = if units < 0 { (-(units as i128)) as u128 } else { units as u128 };
    magnitude * 10000 > pow10_u64(scale) as u128
}

/// Whether the paragraph needs a `#block` wrapper for its spacing, line
/// spacing, justification, right-to-left direction or indentation.
pub open spec fn needs_block_wrapper_spec(style: ParagraphStyle) -> bool {
    ||| style.space_before is Some
    ||| style.space_after is Some
    ||| style.line_spacing is Some
    ||| style.alignment == Some(Alignment::Justify)
    ||| style.direction == Some(TextDirection::Rtl)
    ||| (style.indent_left matches Some(i) && noticeable(i))
    ||| (style.indent_right matches Some(i) && noticeable(i))
}

pub fn needs_block_wrapper(style: &ParagraphStyle) -> (b: bool)
    ensures
        b == needs_block_wrapper_spec(*style),
{
    let justify = match style.alignment {
        Some(Alignment::Justify) => true,
        _ => false,
    };
    let rtl = match style.direction {
        Some(TextDirection::Rtl) => true,
        _ => false,
    };
    let left = match style.indent_left {
        Some(i) => noticeable_indent(i),
        None => false,
    };
    let right = match style.indent_right {
        Some(i) => noticeable_indent(i),
        None => false,
    };
    style.space_before.is_some() || style.space_after.is_some() || style.line_spacing.is_some() || justify || rtl
        || left || right
}

/// `name: <value>pt`.
pub open spec fn length_param(name: Seq<char>, d: Decimal) -> Seq<char> {
    name + decimal_text(d) + "pt"@
}

/// The `inset:` entries for the noticeable left and right indents.
pub open spec fn inset_parts(style: ParagraphStyle) -> Seq<Seq<char>> {
    let left: Seq<Seq<char>> = match style.indent_left {
        Some(i) => if noticeable(i) { seq![length_param("left: "@, i)] } else { Seq::empty() },
        None => Seq::empty(),
    };
    let right: Seq<Seq<char>> = match style.indent_right {
        Some(i) => if noticeable(i) { seq![length_param("right: "@, i)] } else { Seq::empty() },
        None => Seq::empty(),
    };
    left + right
}

/// The `inset: (..)` parameter, when there is an inset.
pub open spec fn inset_param(style: ParagraphStyle) -> Seq<Seq<char>> {
    let parts = inset_parts(style);
    if parts.len() == 0 { Seq::empty() } else { seq!["inset: ("@ + join_params(parts, true) + ")"@] }
}

/// Block parameters of an empty paragraph: `above:` pinned to its spacing
/// before (0 without one), `below:` pinned to 0, and the inset.
pub open spec fn empty_block_params(style: ParagraphStyle) -> Seq<Seq<char>> {
    let above = match style.space_before {
        Some(d) => d,
        None => Decimal::whole_spec(0),
    };
    seq!["width: 100%"@, length_param("above: "@, above), "below: 0pt"@] + inset_param(style)
}

/// Block parameters of a paragraph with content.
pub open spec fn block_params(style: ParagraphStyle, metrics: ParagraphMetrics) -> Seq<Seq<char>> {
    let above: Seq<Seq<char>> = match style.space_before {
        Some(d) => seq![length_param("above: "@, d)],
        None => Seq::empty(),
    };
    let below: Seq<Seq<char>> = if style.space_after is Some || style.line_spacing is Some {
        seq![length_param("below: "@, metrics.block_below)]
    } else {
        Seq::empty()
    };
    seq!["width: 100%"@] + above + below + inset_param(style)
}

/// The `#set` rules opening a wrapped paragraph: leading, justification,
/// right-to-left direction.
pub open spec fn par_settings(style: ParagraphStyle, metrics: ParagraphMetrics) -> Seq<char> {
    let leading = match style.line_spacing {
        Some(LineSpacing::Proportional(_)) => "  #set par(leading: "@ + decimal_text(metrics.proportional_leading) + "em)\n"@,
        Some(LineSpacing::Exact(points)) => "  #set par(leading: "@ + decimal_text(points) + "pt)\n"@,
        None => Seq::empty(),
    };
    let justify = if style.alignment == Some(Alignment::Justify) { "  #set par(justify: true)\n"@ } else { Seq::empty() };
    let rtl = if style.direction == Some(TextDirection::Rtl) { "  #set text(dir: rtl)\n"@ } else { Seq::empty() };
    leading + justify + rtl
}

fn push_length_param(out: &mut String, first: &mut bool, name: &str, d: Decimal)
    ensures
        final(out)@ == old(out)@ + param_text(*old(first), length_param(name@, d)),
        *final(first) == false,
{
    let mut param = String::new();
    push_str(&mut param, name);
    format_decimal(&mut param, d);
    push_str(&mut param, "pt");
    write_param(out, first, param.as_str());
}

fn write_inset(out: &mut String, first: &mut bool, style: &ParagraphStyle)
    ensures
        final(out)@ == old(out)@ + join_params(inset_param(*style), *old(first)),
        inset_param(*style).len() > 0 ==> *final(first) == false,
        inset_param(*style).len() == 0 ==> *final(first) == *old(first),
{
    let mut inset = String::new();
    let mut first_part = true;
    let ghost mut parts: Seq<Seq<char>> = Seq::empty();
    if let Some(left) = style.indent_left {
        if noticeable_indent(left) {
            push_length_param(&mut inset, &mut first_part, "left: ", left);
            proof {
                parts = parts.push(length_param("left: "@, left));
            }
        }
    }
    if let Some(right) = style.indent_right {
        if noticeable_indent(right) {
            let ghost before = parts;
            push_length_param(&mut inset, &mut first_part, "right: ", right);
            proof {
                parts = parts.push(length_param("right: "@, right));
                assert(parts.drop_first() =~= seq![length_param("right: "@, right)] || before.len() == 0);
            }
        }
    }
    assert(parts =~= inset_parts(*style));
    proof {
        reveal_with_fuel(join_params, 3);
    }
    assert(inset@ == join_params(parts, true));
    if !first_part {
        let mut param = String::new();
        push_str(&mut param, "inset: (");
        push_str(&mut param, inset.as_str());
        push_str(&mut param, ")");
        write_param(out, first, param.as_str());
        proof {
            reveal_with_fuel(join_params, 2);
        }
    } else {
        proof {
            reveal_with_fuel(join_params, 1);
        }
    }
}

/// Writes the block parameters of an empty paragraph.
pub fn write_block_params_empty_paragraph(out: &mut String, style: &ParagraphStyle)
    ensures
        final(out)@ == old(out)@ + join_params(empty_block_params(*style), true),
{
    let mut first = true;
    write_param(out, &mut first, "width: 100%");
    let above = match style.space_before {
        Some(d) => d,
        None => Decimal::whole(0),
    };
    push_length_param(out, &mut first, "above: ", above);
    write_param(out, &mut first, "below: 0pt");
    write_inset(out, &mut first, style);
    proof {
        let head = seq!["width: 100%"@, length_param("above: "@, above), "below: 0pt"@];
        lemma_join_params_append(head, inset_param(*style), true);
        reveal_with_fuel(join_params, 4);
    }
}

/// Writes the block parameters of a paragraph with content.
pub fn write_block_params(out: &mut String, style: &ParagraphStyle, metrics: &ParagraphMetrics)
    ensures
        final(out)@ == old(out)@ + join_params(block_params(*style, *metrics), true),
{
    let mut first = true;
    let ghost mut params: Seq<Seq<char>> = seq!["width: 100%"@];
    let ghost start = out@;
    write_param(out, &mut first, "width: 100%");
    proof {
        reveal_with_fuel(join_params, 2);
    }
    if let Some(above) = style.space_before {
        push_length_param(out, &mut first, "above: ", above);
        proof {
            lemma_join_params_append(params, seq![length_param("above: "@, above)], true);
            reveal_with_fuel(join_params, 2);
            params = params + seq![length_param("above: "@, above)];
        }
    }
    if style.space_after.is_some() || style.line_spacing.is_some() {
        push_length_param(out, &mut first, "below: ", metrics.block_below);
        proof {
            lemma_join_params_append(params, seq![length_param("below: "@, metrics.block_below)], true);
            reveal_with_fuel(join_params, 2);
            params = params + seq![length_param("below: "@, metrics.block_below)];
        }
    }
    assert(out@ == start + join_params(params, true));
    write_inset(out, &mut first, style);
    proof {
        lemma_join_params_append(params, inset_param(*style), true);
        assert(params + inset_param(*style) =~= block_params(*style, *metrics));
    }
}

/// `join_params` of two lists is the first joined, then the second joined
/// as a continuation.
proof fn lemma_join_params_append(a: Seq<Seq<char>>, b: Seq<Seq<char>>, first: bool)
    ensures
        join_params(a + b, first) == join_params(a, first) + join_params(b, first && a.len() == 0),
    decreases a.len(),
{
    if a.len() > 0 {
        assert((a + b).drop_first() =~= a.drop_first() + b);
        lemma_join_params_append(a.drop_first(), b, false);
    } else {
        assert(a + b =~= b);
    }
}

/// Writes the `#set` rules of a wrapped paragraph.
pub fn write_par_settings(out: &mut String, style: &ParagraphStyle, metrics: &ParagraphMetrics)
    ensures
        final(out)@ == old(out)@ + par_settings(*style, *metrics),
{
    match style.line_spacing {
        Some(LineSpacing::Proportional(_)) => {
            push_str(out, "  #set par(leading: ");
            format_decimal(out, metrics.proportional_leading);
            push_str(out, "em)\n");
        },
        Some(LineSpacing::Exact(points)) => {
            push_str(out, "  #set par(leading: ");
            format_decimal(out, points);
            push_str(out, "pt)\n");
        },
        None => {},
    }
    if let Some(Alignment::Justify) = style.alignment {
        push_str(out, "  #set par(justify: true)\n");
    }
    if let Some(TextDirection::Rtl) = style.direction {
        push_str(out, "  #set text(dir: rtl)\n");
    }
}

pub open spec fn tab_stops_view(style: ParagraphStyle) -> Option<Seq<TabStop>> {
    match style.tab_stops {
        Some(v) => Some(v@),
        None => None,
    }
}

/// The alignment a paragraph is wrapped in `#align(..)` for.
pub open spec fn align_word(alignment: Option<Alignment>) -> Option<Seq<char>> {
    match alignment {
        Some(Alignment::Left) => Some("left"@),
        Some(Alignment::Center) => Some("center"@),
        Some(Alignment::Right) => Some("right"@),
        _ => None,
    }
}

/// `out` after a paragraph's markup: a heading is `#heading(level: n)[..]`;
/// otherwise the paragraph's block wrapper when it needs one, then an empty
/// paragraph's `#v(..)` filler, or the runs inside `#align(..)` for left,
/// centered and right alignment.
pub open spec fn paragraph_markup(out: Seq<char>, para: Paragraph, metrics: ParagraphMetrics, fonts: FontTable) -> Seq<char> {
    let style = para.style;
    let runs = run_views(para.runs@);
    match style.heading_level {
        Some(level) => after_runs_with_tabs(
            out + "#heading(level: "@ + nat_digits(level as nat) + ")["@,
            runs,
            tab_stops_view(style),
            fonts,
        ) + "]\n"@,
        None => {
            let wrap = needs_block_wrapper_spec(style);
            let opened = if wrap {
                let params = if runs.len() == 0 { empty_block_params(style) } else { block_params(style, metrics) };
                out + "#block("@ + join_params(params, true) + ")[\n"@ + par_settings(style, metrics)
            } else {
                out
            };
            let close: Seq<char> = if wrap { "\n]"@ } else { Seq::empty() };
            if runs.len() == 0 {
                opened + "#v("@ + decimal_text(metrics.empty_height) + "pt)"@ + close + "\n"@
            } else {
                match align_word(style.alignment) {
                    Some(word) => after_runs_with_tabs(opened + "#align("@ + word + ")["@, runs, tab_stops_view(style), fonts)
                        + "]"@ + close + "\n"@,
                    None => after_runs_with_tabs(opened, runs, tab_stops_view(style), fonts) + close + "\n"@,
                }
            }
        },
    }
}

fn runs_with_tabs(out: &mut String, para: &Paragraph, fonts: &FontTable)
    requires
        covers_runs(*fonts, run_views(para.runs@)),
    ensures
        final(out)@ == after_runs_with_tabs(old(out)@, run_views(para.runs@), tab_stops_view(para.style), *fonts),
{
    match &para.style.tab_stops {
        Some(stops) => generate_runs_with_tabs(out, para.runs.as_slice(), Some(stops.as_slice()), fonts),
        None => generate_runs_with_tabs(out, para.runs.as_slice(), None, fonts),
    }
}

/// Writes a paragraph's Typst markup.
pub fn generate_paragraph(out: &mut String, para: &Paragraph, metrics: &ParagraphMetrics, fonts: &FontTable)
    requires
        covers_runs(*fonts, run_views(para.runs@)),
    ensures
        final(out)@ == paragraph_markup(old(out)@, *para, *metrics, *fonts),
{
    let style = &para.style;
    if let Some(level) = style.heading_level {
        push_str(out, "#heading(level: ");
        push_u64(out, level as u64);
        push_str(out, ")[");
        runs_with_tabs(out, para, fonts);
        push_str(out, "]\n");
        return;
    }
    let wrap = needs_block_wrapper(style);
    let is_empty = para.runs.len() == 0;
    if wrap {
        push_str(out, "#block(");
        if is_empty {
            write_block_params_empty_paragraph(out, style);
        } else {
            write_block_params(out, style, metrics);
        }
        push_str(out, ")[\n");
        write_par_settings(out, style, metrics);
    }
    if is_empty {
        push_str(out, "#v(");
        format_decimal(out, metrics.empty_height);
        push_str(out, "pt)");
        if wrap {
            push_str(out, "\n]");
        }
        push_str(out, "\n");
        return;
    }
    let word: Option<&str> = match style.alignment {
        Some(Alignment::Left) => Some("left"),
        Some(Alignment::Center) => Some("center"),
        Some(Alignment::Right) => Some("right"),
        _ => None,
    };
    if let Some(w) = word {
        push_str(out, "#align(");
        push_str(out, w);
        push_str(out, ")[");
    }
    runs_with_tabs(out, para, fonts);
    if word.is_some() {
        push_str(out, "]");
    }
    if wrap {
        push_str(out, "\n]");
    }
    push_str(out, "\n");
}

/// A paragraph whose style sets nothing is written without a block wrapper.
pub proof fn law_plain_style_needs_no_wrapper(style: ParagraphStyle)
    requires
        style.is_plain(),
    ensures
        !needs_block_wrapper_spec(style),
{
}

} // verus!
