//! Document styles (`word/styles.xml`) resolved into run and paragraph
//! formatting, and the rules that merge a style with a paragraph's or a run's
//! own formatting, tab stops included.

use vstd::prelude::*;
use crate::ir::{
    copy_opt_string, pow10, Decimal, ParagraphStyle, ParagraphStyleView, TabAlignment, TabLeader, TabStop, TextStyle,
};
use crate::lists::NumInfo;
use crate::text::{push_str, str_eq};
use crate::typst_text::{lemma_pow10_monotonic, lemma_pow10_positive, pow10_u64};

verus! {

/// `a < b` as numbers.
pub open spec fn decimal_lt(a: Decimal, b: Decimal) -> bool {
    a.units_spec() * pow10(b.scale_spec() as nat) < b.units_spec() * pow10(a.scale_spec() as nat)
}

/// `|a - b| < 0.01`: two tab positions that name the same stop.
pub open spec fn positions_match_spec(a: Decimal, b: Decimal) -> bool {
    let d = a.units_spec() * pow10(b.scale_spec() as nat) - b.units_spec() * pow10(a.scale_spec() as nat);
    let magnitude = if d < 0 { -d } else { d };
    magnitude * 100 < pow10((a.scale_spec() + b.scale_spec()) as nat)
}

proof fn lemma_pow10_add(a: nat, b: nat)
    ensures
        pow10(a + b) == pow10(a) * pow10(b),
    decreases a,
{
    if a > 0 {
        lemma_pow10_add((a - 1) as nat, b);
        assert(pow10(a + b) == 10 * pow10((a - 1 + b) as nat));
        assert(10 * (pow10((a - 1) as nat) * pow10(b)) == (10 * pow10((a - 1) as nat)) * pow10(b)) by (nonlinear_arith);
    }
}

/// `units * 10^scale` for a scale of at most 18.
fn scaled(units: i64, scale: u32) -> (v: i128)
    requires
        scale <= 18,
    ensures
        v == units * pow10(scale as nat),
        -9_223_372_036_854_775_808_000_000_000_000_000_000int <= v <= 9_223_372_036_854_775_807_000_000_000_000_000_000int,
{
    let p = pow10_u64(scale);
    proof {
        lemma_pow10_monotonic(scale as nat, 18);
        reveal_with_fuel(pow10, 19);
        assert(p <= 1_000_000_000_000_000_000u64);
        assert(-9_223_372_036_854_775_808 <= units <= 9_223_372_036_854_775_807);
        assert(units * (p as int) <= 9_223_372_036_854_775_807 * 1_000_000_000_000_000_000) by (nonlinear_arith)
            requires units <= 9_223_372_036_854_775_807, 0 <= p <= 1_000_000_000_000_000_000u64;
        assert(units * (p as int) >= -9_223_372_036_854_775_808 * 1_000_000_000_000_000_000) by (nonlinear_arith)
            requires units >= -9_223_372_036_854_775_808, 0 <= p <= 1_000_000_000_000_000_000u64;
    }
    (units as i128) * (p as i128)
}

/// Whether `a < b`.
pub fn decimal_less(a: Decimal, b: Decimal) -> (lt: bool)
    ensures
        lt == decimal_lt(a, b),
{
    scaled(a.units(), b.scale()) < scaled(b.units(), a.scale())
}

/// Whether two tab positions are within 0.01 pt of each other.
pub fn tab_stop_positions_match(a: Decimal, b: Decimal) -> (same: bool)
    ensures
        same == positions_match_spec(a, b),
{
    let x = scaled(a.units(), b.scale());
    let y = scaled(b.units(), a.scale());
    let d: i128 = x - y;
    let magnitude: i128 = if d < 0 { -d } else { d };
    let pa = pow10_u64(a.scale());
    let pb = pow10_u64(b.scale());
    proof {
        lemma_pow10_add(a.scale_spec() as nat, b.scale_spec() as nat);
        lemma_pow10_monotonic(a.scale_spec() as nat, 18);
        lemma_pow10_monotonic(b.scale_spec() as nat, 18);
        reveal_with_fuel(pow10, 19);
        assert((pa as int) * (pb as int) <= 1_000_000_000_000_000_000int * 1_000_000_000_000_000_000int) by (nonlinear_arith)
            requires 0 <= pa <= 1_000_000_000_000_000_000u64, 0 <= pb <= 1_000_000_000_000_000_000u64;
    }
    let p: i128 = (pa as i128) * (pb as i128);
    if magnitude >= p {
        proof {
            lemma_pow10_positive((a.scale_spec() + b.scale_spec()) as nat);
        }
        false
    } else {
        magnitude * 100 < p
    }
}

/// A tab stop change that a style or a paragraph makes (`<w:tab>`): set a
/// stop (`Place`), or clear the stop at a position.
#[derive(Clone, Copy, Debug, PartialEq, Eq)]
pub enum TabStopOverride {
    Place(TabStop),
    Clear(Decimal),
}

/// `stops` without the ones at `position` (within 0.01 pt).
pub open spec fn without_stops_near(stops: Seq<TabStop>, position: Decimal) -> Seq<TabStop>
    decreases stops.len(),
{
    if stops.len() == 0 {
        stops
    } else {
        let rest = without_stops_near(stops.drop_last(), position);
        if positions_match_spec(stops.last().position, position) { rest } else { rest.push(stops.last()) }
    }
}

/// One override: a new stop replaces the stops at its position and goes last;
/// a clear removes the stops at its position.
pub open spec fn override_stops(stops: Seq<TabStop>, o: TabStopOverride) -> Seq<TabStop> {
    match o {
        TabStopOverride::Place(stop) => without_stops_near(stops, stop.position).push(stop),
        TabStopOverride::Clear(position) => without_stops_near(stops, position),
    }
}

/// The stops after the first `n` overrides.
pub open spec fn overrides_applied(stops: Seq<TabStop>, overrides: Seq<TabStopOverride>, n: int) -> Seq<TabStop>
    decreases n,
{
    if n <= 0 || n > overrides.len() {
        stops
    } else {
        override_stops(overrides_applied(stops, overrides, n - 1), overrides[n - 1])
    }
}

/// The first position at or after `i` whose stop lies after `stop`.
pub open spec fn first_after(sorted: Seq<TabStop>, stop: TabStop, i: int) -> int
    decreases sorted.len() - i,
{
    if i < 0 || i >= sorted.len() {
        sorted.len() as int
    } else if decimal_lt(stop.position, sorted[i].position) {
        i
    } else {
        first_after(sorted, stop, i + 1)
    }
}

/// `stop` placed after every stop at or before its position.
pub open spec fn insert_by_position(sorted: Seq<TabStop>, stop: TabStop) -> Seq<TabStop> {
    sorted.insert(first_after(sorted, stop, 0), stop)
}

/// The stops in increasing position, stops at equal positions in their
/// original order (a stable sort).
pub open spec fn sorted_by_position(stops: Seq<TabStop>) -> Seq<TabStop>
    decreases stops.len(),
{
    if stops.len() == 0 {
        stops
    } else {
        insert_by_position(sorted_by_position(stops.drop_last()), stops.last())
    }
}

/// The stops after all the overrides, sorted by position.
pub open spec fn tab_stops_after_overrides(stops: Seq<TabStop>, overrides: Seq<TabStopOverride>) -> Seq<TabStop> {
    sorted_by_position(overrides_applied(stops, overrides, overrides.len() as int))
}

fn remove_stops_near(stops: &mut Vec<TabStop>, position: Decimal)
    ensures
        final(stops)@ == without_stops_near(old(stops)@, position),
{
    let mut kept: Vec<TabStop> = Vec::new();
    let mut i: usize = 0;
    assert(stops@.take(0) =~= Seq::<TabStop>::empty());
    while i < stops.len()
        invariant
            i <= stops@.len(),
            stops@ == old(stops)@,
            kept@ == without_stops_near(stops@.take(i as int), position),
        decreases stops@.len() - i,
    {
        let stop = stops[i];
        assert(stops@.take(i + 1).drop_last() =~= stops@.take(i as int));
        if !tab_stop_positions_match(stop.position, position) {
            kept.push(stop);
        }
        i = i + 1;
    }
    assert(stops@.take(stops@.len() as int) =~= stops@);
    *stops = kept;
}

fn sort_by_position(stops: &Vec<TabStop>) -> (sorted: Vec<TabStop>)
    ensures
        sorted@ == sorted_by_position(stops@),
{
    let mut sorted: Vec<TabStop> = Vec::new();
    let mut i: usize = 0;
    assert(stops@.take(0) =~= Seq::<TabStop>::empty());
    while i < stops.len()
        invariant
            i <= stops@.len(),
            sorted@ == sorted_by_position(stops@.take(i as int)),
        decreases stops@.len() - i,
    {
        let stop = stops[i];
        let mut k: usize = 0;
        while k < sorted.len() && !decimal_less(stop.position, sorted[k].position)
            invariant
                k <= sorted@.len(),
                first_after(sorted@, stop, 0) == first_after(sorted@, stop, k as int),
            decreases sorted@.len() - k,
        {
            k = k + 1;
        }
        sorted.insert(k, stop);
        assert(stops@.take(i + 1).drop_last() =~= stops@.take(i as int));
        i = i + 1;
    }
    assert(stops@.take(stops@.len() as int) =~= stops@);
    sorted
}

/// Applies tab stop overrides in order, then sorts the stops by position.
pub fn apply_tab_stop_overrides(tab_stops: &mut Vec<TabStop>, tab_overrides: &[TabStopOverride])
    ensures
        final(tab_stops)@ == tab_stops_after_overrides(old(tab_stops)@, tab_overrides@),
{
    let mut i: usize = 0;
    while i < tab_overrides.len()
        invariant
            i <= tab_overrides@.len(),
            tab_stops@ == overrides_applied(old(tab_stops)@, tab_overrides@, i as int),
        decreases tab_overrides@.len() - i,
    {
        match tab_overrides[i] {
            TabStopOverride::Place(stop) => {
                remove_stops_near(tab_stops, stop.position);
                tab_stops.push(stop);
            },
            TabStopOverride::Clear(position) => {
                remove_stops_near(tab_stops, position);
            },
        }
        i = i + 1;
    }
    let sorted = sort_by_position(tab_stops);
    *tab_stops = sorted;
}

/// Formatting resolved from a document style.
pub struct ResolvedStyle {
    pub text: TextStyle,
    pub paragraph: ParagraphStyle,
    /// The style's own tab stop changes, when it makes any.
    pub paragraph_tab_overrides: Option<Vec<TabStopOverride>>,
    /// Heading level from the outline level (0 is Heading 1, ..., 5 is Heading 6).
    pub heading_level: Option<usize>,
    /// Numbering the style attaches to its paragraphs (`<w:numPr>`).
    pub style_num_info: Option<NumInfo>,
}

/// A resolved style as plain values.
pub struct ResolvedStyleView {
    pub text: TextStyle,
    pub paragraph: ParagraphStyleView,
    pub paragraph_tab_overrides: Option<Seq<TabStopOverride>>,
    pub heading_level: Option<usize>,
    pub style_num_info: Option<NumInfo>,
}

pub open spec fn overrides_view(overrides: Option<Vec<TabStopOverride>>) -> Option<Seq<TabStopOverride>> {
    match overrides {
        Some(o) => Some(o@),
        None => None,
    }
}

impl View for ResolvedStyle {
    type V = ResolvedStyleView;

    open spec fn view(&self) -> ResolvedStyleView {
        ResolvedStyleView {
            text: self.text,
            paragraph: self.paragraph@,
            paragraph_tab_overrides: overrides_view(self.paragraph_tab_overrides),
            heading_level: self.heading_level,
            style_num_info: self.style_num_info,
        }
    }
}

pub open spec fn or_else<T>(first: Option<T>, second: Option<T>) -> Option<T> {
    if first is Some { first } else { second }
}

/// The stops a style's paragraphs inherit: its overrides applied to no
/// stops when it has overrides, its own stops otherwise.
pub open spec fn tab_stop_source(stops: Option<Seq<TabStop>>, overrides: Option<Seq<TabStopOverride>>) -> Option<Seq<TabStop>> {
    match overrides {
        Some(o) => Some(tab_stops_after_overrides(Seq::empty(), o)),
        None => stops,
    }
}

pub open spec fn style_tab_stops(style: ResolvedStyleView) -> Option<Seq<TabStop>> {
    tab_stop_source(style.paragraph.tab_stops, style.paragraph_tab_overrides)
}

/// A paragraph's stops: its overrides applied to the inherited stops when it
/// has overrides; otherwise its own stops, or else the inherited ones.
pub open spec fn merged_tab_stops(
    explicit: Option<Seq<TabStop>>,
    explicit_overrides: Option<Seq<TabStopOverride>>,
    inherited: Option<Seq<TabStop>>,
) -> Option<Seq<TabStop>> {
    match explicit_overrides {
        Some(o) => Some(tab_stops_after_overrides(
            match inherited {
                Some(s) => s,
                None => Seq::empty(),
            },
            o,
        )),
        None => or_else(explicit, inherited),
    }
}

fn copy_stops(stops: &[TabStop]) -> (copy: Vec<TabStop>)
    ensures
        copy@ == stops@,
{
    let mut copy: Vec<TabStop> = Vec::new();
    let mut i: usize = 0;
    while i < stops.len()
        invariant
            i <= stops@.len(),
            copy@ == stops@.take(i as int),
        decreases stops@.len() - i,
    {
        copy.push(stops[i]);
        i = i + 1;
        assert(copy@ =~= stops@.take(i as int));
    }
    assert(stops@.take(stops@.len() as int) =~= stops@);
    copy
}

fn resolve_tab_stop_source(tab_stops: Option<&[TabStop]>, tab_overrides: Option<&[TabStopOverride]>) -> (stops: Option<Vec<TabStop>>)
    ensures
        stops_of(stops) == tab_stop_source(
            match tab_stops {
                Some(s) => Some(s@),
                None => None,
            },
            match tab_overrides {
                Some(o) => Some(o@),
                None => None,
            },
        ),
{
    if let Some(overrides) = tab_overrides {
        let mut resolved: Vec<TabStop> = Vec::new();
        apply_tab_stop_overrides(&mut resolved, overrides);
        return Some(resolved);
    }
    match tab_stops {
        Some(s) => Some(copy_stops(s)),
        None => None,
    }
}

pub open spec fn stops_of(stops: Option<Vec<TabStop>>) -> Option<Seq<TabStop>> {
    match stops {
        Some(s) => Some(s@),
        None => None,
    }
}

/// The tab stops a style hands down.
fn resolve_style_tab_stops(style: &ResolvedStyle) -> (stops: Option<Vec<TabStop>>)
    ensures
        stops_of(stops) == style_tab_stops(style@),
{
    let own: Option<&[TabStop]> = match &style.paragraph.tab_stops {
        Some(s) => Some(s.as_slice()),
        None => None,
    };
    let overrides: Option<&[TabStopOverride]> = match &style.paragraph_tab_overrides {
        Some(o) => Some(o.as_slice()),
        None => None,
    };
    resolve_tab_stop_source(own, overrides)
}

fn merge_tab_stops(
    explicit_tab_stops: Option<&[TabStop]>,
    explicit_tab_overrides: Option<&[TabStopOverride]>,
    inherited_tab_stops: Option<&[TabStop]>,
) -> (stops: Option<Vec<TabStop>>)
    ensures
        stops_of(stops) == merged_tab_stops(
            match explicit_tab_stops {
                Some(s) => Some(s@),
                None => None,
            },
            match explicit_tab_overrides {
                Some(o) => Some(o@),
                None => None,
            },
            match inherited_tab_stops {
                Some(s) => Some(s@),
                None => None,
            },
        ),
{
    if let Some(overrides) = explicit_tab_overrides {
        let mut resolved: Vec<TabStop> = match inherited_tab_stops {
            Some(s) => copy_stops(s),
            None => Vec::new(),
        };
        apply_tab_stop_overrides(&mut resolved, overrides);
        return Some(resolved);
    }
    match explicit_tab_stops {
        Some(s) => Some(copy_stops(s)),
        None => match inherited_tab_stops {
            Some(s) => Some(copy_stops(s)),
            None => None,
        },
    }
}

/// A paragraph's formatting over its style's: each property the paragraph
/// sets wins, the others come from the style; the heading level is the
/// style's (as 1..=6), the direction the paragraph's own.
pub open spec fn merged_paragraph(
    explicit: ParagraphStyleView,
    explicit_overrides: Option<Seq<TabStopOverride>>,
    style: Option<ResolvedStyleView>,
) -> ParagraphStyleView {
    let inherited: Option<ParagraphStyleView> = match style {
        Some(s) => Some(s.paragraph),
        None => None,
    };
    ParagraphStyleView {
        alignment: or_else(explicit.alignment, match inherited { Some(p) => p.alignment, None => None }),
        indent_left: or_else(explicit.indent_left, match inherited { Some(p) => p.indent_left, None => None }),
        indent_right: or_else(explicit.indent_right, match inherited { Some(p) => p.indent_right, None => None }),
        indent_first_line: or_else(explicit.indent_first_line, match inherited { Some(p) => p.indent_first_line, None => None }),
        font_size: or_else(explicit.font_size, match inherited { Some(p) => p.font_size, None => None }),
        line_spacing: or_else(explicit.line_spacing, match inherited { Some(p) => p.line_spacing, None => None }),
        space_before: or_else(explicit.space_before, match inherited { Some(p) => p.space_before, None => None }),
        space_after: or_else(explicit.space_after, match inherited { Some(p) => p.space_after, None => None }),
        heading_level: match style {
            Some(s) => match s.heading_level {
                Some(level) => Some((level + 1) as u8),
                None => None,
            },
            None => None,
        },
        heading_number: None,
        direction: explicit.direction,
        tab_stops: merged_tab_stops(
            explicit.tab_stops,
            explicit_overrides,
            match style {
                Some(s) => style_tab_stops(s),
                None => None,
            },
        ),
    }
}

pub open spec fn opt_style_view(style: Option<&ResolvedStyle>) -> Option<ResolvedStyleView> {
    match style {
        Some(s) => Some(s@),
        None => None,
    }
}

/// Merges a paragraph's own formatting with its style's; the paragraph's
/// own settings win.
pub fn merge_paragraph_style(
    explicit: &ParagraphStyle,
    explicit_tab_overrides: Option<&[TabStopOverride]>,
    style: Option<&ResolvedStyle>,
) -> (merged: ParagraphStyle)
    requires
        style matches Some(s) ==> (s.heading_level matches Some(level) ==> level < usize::MAX),
    ensures
        merged@ == merged_paragraph(
            explicit@,
            match explicit_tab_overrides {
                Some(o) => Some(o@),
                None => None,
            },
            opt_style_view(style),
        ),
{
    let inherited_tab_stops: Option<Vec<TabStop>> = match style {
        Some(s) => resolve_style_tab_stops(s),
        None => None,
    };
    let inherited: Option<&[TabStop]> = match &inherited_tab_stops {
        Some(s) => Some(s.as_slice()),
        None => None,
    };
    let own: Option<&[TabStop]> = match &explicit.tab_stops {
        Some(s) => Some(s.as_slice()),
        None => None,
    };
    let tab_stops = merge_tab_stops(own, explicit_tab_overrides, inherited);
    let heading_level: Option<u8> = match style {
        Some(s) => match s.heading_level {
            Some(level) => Some((level + 1) as u8),
            None => None,
        },
        None => None,
    };
    match style {
        Some(s) => {
            let p = &s.paragraph;
            ParagraphStyle {
                alignment: if explicit.alignment.is_some() { explicit.alignment } else { p.alignment },
                indent_left: if explicit.indent_left.is_some() { explicit.indent_left } else { p.indent_left },
                indent_right: if explicit.indent_right.is_some() { explicit.indent_right } else { p.indent_right },
                indent_first_line: if explicit.indent_first_line.is_some() {
                    explicit.indent_first_line
                } else {
                    p.indent_first_line
                },
                font_size: if explicit.font_size.is_some() { explicit.font_size } else { p.font_size },
                line_spacing: if explicit.line_spacing.is_some() { explicit.line_spacing } else { p.line_spacing },
                space_before: if explicit.space_before.is_some() { explicit.space_before } else { p.space_before },
                space_after: if explicit.space_after.is_some() { explicit.space_after } else { p.space_after },
                heading_level,
                heading_number: None,
                direction: explicit.direction,
                tab_stops,
            }
        },
        None => ParagraphStyle {
            alignment: explicit.alignment,
            indent_left: explicit.indent_left,
            indent_right: explicit.indent_right,
            indent_first_line: explicit.indent_first_line,
            font_size: explicit.font_size,
            line_spacing: explicit.line_spacing,
            space_before: explicit.space_before,
            space_after: explicit.space_after,
            heading_level,
            heading_number: None,
            direction: explicit.direction,
            tab_stops,
        },
    }
}

/// `base` with every property that `top` sets taken from `top`.
pub open spec fn text_overlay(base: TextStyle, top: TextStyle) -> TextStyle {
    TextStyle {
        bold: or_else(top.bold, base.bold),
        italic: or_else(top.italic, base.italic),
        underline: or_else(top.underline, base.underline),
        strikethrough: or_else(top.strikethrough, base.strikethrough),
        font_size: or_else(top.font_size, base.font_size),
        color: or_else(top.color, base.color),
        font_family: or_else(top.font_family, base.font_family),
        highlight: or_else(top.highlight, base.highlight),
        vertical_align: or_else(top.vertical_align, base.vertical_align),
        all_caps: or_else(top.all_caps, base.all_caps),
        small_caps: or_else(top.small_caps, base.small_caps),
        letter_spacing: or_else(top.letter_spacing, base.letter_spacing),
    }
}

impl TextStyle {
    /// Takes every property that `explicit` sets.
    pub fn merge_from(&mut self, explicit: &TextStyle)
        ensures
            *final(self) == text_overlay(*old(self), *explicit),
    {
        if explicit.bold.is_some() {
            self.bold = explicit.bold;
        }
        if explicit.italic.is_some() {
            self.italic = explicit.italic;
        }
        if explicit.underline.is_some() {
            self.underline = explicit.underline;
        }
        if explicit.strikethrough.is_some() {
            self.strikethrough = explicit.strikethrough;
        }
        if explicit.font_size.is_some() {
            self.font_size = explicit.font_size;
        }
        if explicit.color.is_some() {
            self.color = explicit.color;
        }
        if explicit.font_family.is_some() {
            self.font_family = copy_opt_string(&explicit.font_family);
        }
        if explicit.highlight.is_some() {
            self.highlight = explicit.highlight;
        }
        if explicit.vertical_align.is_some() {
            self.vertical_align = explicit.vertical_align;
        }
        if explicit.all_caps.is_some() {
            self.all_caps = explicit.all_caps;
        }
        if explicit.small_caps.is_some() {
            self.small_caps = explicit.small_caps;
        }
        if explicit.letter_spacing.is_some() {
            self.letter_spacing = explicit.letter_spacing;
        }
    }
}

/// A run's formatting over its style's: the style's text formatting, with a
/// heading style's default size and bold filled in where the style sets
/// none, then every property the run sets.
pub open spec fn merged_text(explicit: TextStyle, style: Option<ResolvedStyleView>, heading_font_sizes: Seq<Decimal>) -> TextStyle {
    match style {
        None => explicit,
        Some(s) => {
            let base = match s.heading_level {
                Some(level) => TextStyle {
                    font_size: or_else(s.text.font_size, Some(heading_font_sizes[level as int])),
                    bold: or_else(s.text.bold, Some(true)),
                    ..s.text
                },
                None => s.text,
            };
            text_overlay(base, explicit)
        },
    }
}

/// Merges a run's own formatting with its style's; the run's own settings
/// win. `heading_font_sizes` gives the default size of Heading 1 to 6.
pub fn merge_text_style(explicit: &TextStyle, style: Option<&ResolvedStyle>, heading_font_sizes: &[Decimal; 6]) -> (merged: TextStyle)
    requires
        style matches Some(s) ==> (s.heading_level matches Some(level) ==> level < 6),
    ensures
        merged == merged_text(*explicit, opt_style_view(style), heading_font_sizes@),
{
    match style {
        None => explicit.duplicate(),
        Some(s) => {
            let mut merged = s.text.duplicate();
            if let Some(level) = s.heading_level {
                if merged.font_size.is_none() {
                    merged.font_size = Some(heading_font_sizes[level]);
                }
                if merged.bold.is_none() {
                    merged.bold = Some(true);
                }
            }
            merged.merge_from(explicit);
            merged
        },
    }
}

/// The id under which the document defaults are kept in a `StyleMap`.
pub open spec fn default_style_id() -> Seq<char> {
    "__office2pdf_doc_defaults"@
}

/// The built-in link character styles, whose on-screen blue underline Word
/// drops when it exports to PDF.
pub open spec fn is_link_style(id: Seq<char>) -> bool {
    id == "Hyperlink"@ || id == "FollowedHyperlink"@ || id == "InternetLink"@
}

/// What a style defines.
#[derive(Clone, Copy, Debug, PartialEq, Eq)]
pub enum StyleKind {
    Paragraph,
    Character,
    /// Table and numbering styles, which carry no run or paragraph formatting here.
    Other,
}

/// One style of `word/styles.xml`, with its run and paragraph properties read.
pub struct StyleDefinition {
    pub style_id: String,
    pub kind: StyleKind,
    pub run_style: TextStyle,
    pub paragraph_style: ParagraphStyle,
    pub tab_overrides: Option<Vec<TabStopOverride>>,
    /// `<w:outlineLvl>`.
    pub outline_level: Option<usize>,
    pub num_info: Option<NumInfo>,
}

/// The styles part: document defaults and the style definitions in order.
pub struct StyleSheet {
    pub default_text: TextStyle,
    pub default_paragraph: ParagraphStyle,
    pub styles: Vec<StyleDefinition>,
}

/// Resolved styles by style id.
pub struct StyleMap {
    pub entries: Vec<(String, ResolvedStyle)>,
}

pub open spec fn entries_view(entries: Seq<(String, ResolvedStyle)>) -> Seq<(Seq<char>, ResolvedStyleView)> {
    Seq::new(entries.len(), |k: int| (entries[k].0@, entries[k].1@))
}

impl View for StyleMap {
    type V = Seq<(Seq<char>, ResolvedStyleView)>;

    open spec fn view(&self) -> Seq<(Seq<char>, ResolvedStyleView)> {
        entries_view(self.entries@)
    }
}

/// The position of `id` at or after `i`, or the length.
pub open spec fn style_index(styles: Seq<(Seq<char>, ResolvedStyleView)>, id: Seq<char>, i: int) -> int
    decreases styles.len() - i,
{
    if i < 0 || i >= styles.len() {
        styles.len() as int
    } else if styles[i].0 == id {
        i
    } else {
        style_index(styles, id, i + 1)
    }
}

pub open spec fn style_lookup(styles: Seq<(Seq<char>, ResolvedStyleView)>, id: Seq<char>) -> Option<ResolvedStyleView> {
    let k = style_index(styles, id, 0);
    if k < styles.len() { Some(styles[k].1) } else { None }
}

/// Map-style insertion: a known id gets the new style in place, a new id is appended.
pub open spec fn style_insert(
    styles: Seq<(Seq<char>, ResolvedStyleView)>,
    id: Seq<char>,
    style: ResolvedStyleView,
) -> Seq<(Seq<char>, ResolvedStyleView)> {
    let k = style_index(styles, id, 0);
    if k < styles.len() { styles.update(k, (id, style)) } else { styles.push((id, style)) }
}

impl StyleMap {
    pub fn new() -> (map: StyleMap)
        ensures
            map@ == Seq::<(Seq<char>, ResolvedStyleView)>::empty(),
    {
        let map = StyleMap { entries: Vec::new() };
        assert(map@ =~= Seq::<(Seq<char>, ResolvedStyleView)>::empty());
        map
    }

    /// The style with id `id`.
    pub fn get(&self, id: &str) -> (style: Option<&ResolvedStyle>)
        ensures
            opt_style_view(style) == style_lookup(self@, id@),
    {
        let mut i: usize = 0;
        while i < self.entries.len()
            invariant
                i <= self.entries@.len(),
                style_index(self@, id@, i as int) == style_index(self@, id@, 0),
            decreases self.entries@.len() - i,
        {
            if str_eq(self.entries[i].0.as_str(), id) {
                return Some(&self.entries[i].1);
            }
            i = i + 1;
        }
        None
    }

    /// Records `style` under `id`, replacing a style recorded under it before.
    pub fn insert(&mut self, id: String, style: ResolvedStyle)
        ensures
            final(self)@ == style_insert(old(self)@, id@, style@),
    {
        let ghost before = self@;
        let mut i: usize = 0;
        while i < self.entries.len()
            invariant
                i <= self.entries@.len(),
                self.entries@ == old(self).entries@,
                before == self@,
                style_index(before, id@, 0) == style_index(before, id@, i as int),
            decreases self.entries@.len() - i,
        {
            if str_eq(self.entries[i].0.as_str(), id.as_str()) {
                let ghost view = style@;
                self.entries.set(i, (id, style));
                assert(self@ =~= before.update(i as int, (id@, view)));
                return;
            }
            i = i + 1;
        }
        let ghost view = style@;
        let ghost key = id@;
        self.entries.push((id, style));
        assert(self@ =~= before.push((key, view)));
    }
}

/// The heading level an outline level gives: outline levels 0 to 5 are
/// Headings 1 to 6.
pub open spec fn heading_of_outline(outline_level: Option<usize>) -> Option<usize> {
    match outline_level {
        Some(v) => if v < 6 { Some(v) } else { None },
        None => None,
    }
}

pub open spec fn plain_paragraph_view() -> ParagraphStyleView {
    ParagraphStyleView {
        alignment: None,
        indent_left: None,
        indent_right: None,
        indent_first_line: None,
        font_size: None,
        line_spacing: None,
        space_before: None,
        space_after: None,
        heading_level: None,
        heading_number: None,
        direction: None,
        tab_stops: None,
    }
}

/// How one definition resolves, given the document defaults as the map holds
/// them: a paragraph style merges over the defaults; a character style keeps
/// only what it sets (a link style losing its color and underline); other
/// styles are not recorded.
pub open spec fn resolve_definition(
    def: StyleDefinition,
    defaults: Option<ResolvedStyleView>,
    heading_font_sizes: Seq<Decimal>,
) -> Option<ResolvedStyleView> {
    match def.kind {
        StyleKind::Paragraph => Some(ResolvedStyleView {
            text: merged_text(def.run_style, defaults, heading_font_sizes),
            paragraph: merged_paragraph(def.paragraph_style@, overrides_view(def.tab_overrides), defaults),
            paragraph_tab_overrides: overrides_view(def.tab_overrides),
            heading_level: heading_of_outline(def.outline_level),
            style_num_info: def.num_info,
        }),
        StyleKind::Character => Some(ResolvedStyleView {
            text: if is_link_style(def.style_id@) {
                TextStyle { color: None, underline: None, ..def.run_style }
            } else {
                def.run_style
            },
            paragraph: plain_paragraph_view(),
            paragraph_tab_overrides: None,
            heading_level: None,
            style_num_info: None,
        }),
        StyleKind::Other => None,
    }
}

/// The map after the definitions `defs[i..]`.
pub open spec fn styles_from(
    defs: Seq<StyleDefinition>,
    i: int,
    styles: Seq<(Seq<char>, ResolvedStyleView)>,
    heading_font_sizes: Seq<Decimal>,
) -> Seq<(Seq<char>, ResolvedStyleView)>
    decreases defs.len() - i,
{
    if i < 0 || i >= defs.len() {
        styles
    } else {
        match resolve_definition(defs[i], style_lookup(styles, default_style_id()), heading_font_sizes) {
            Some(resolved) => styles_from(defs, i + 1, style_insert(styles, defs[i].style_id@, resolved), heading_font_sizes),
            None => styles_from(defs, i + 1, styles, heading_font_sizes),
        }
    }
}

pub open spec fn defaults_view(sheet: StyleSheet) -> ResolvedStyleView {
    ResolvedStyleView {
        text: sheet.default_text,
        paragraph: sheet.default_paragraph@,
        paragraph_tab_overrides: None,
        heading_level: None,
        style_num_info: None,
    }
}

/// The resolved styles of a style sheet: the document defaults under
/// `default_style_id()`, then every paragraph and character style by id, a
/// later definition of an id replacing an earlier one.
pub open spec fn style_map_of(sheet: StyleSheet, heading_font_sizes: Seq<Decimal>) -> Seq<(Seq<char>, ResolvedStyleView)> {
    styles_from(sheet.styles@, 0, seq![(default_style_id(), defaults_view(sheet))], heading_font_sizes)
}

/// Every heading level the map records names Heading 1 to 6.
pub open spec fn headings_in_range(styles: Seq<(Seq<char>, ResolvedStyleView)>) -> bool {
    forall|k: int| 0 <= k < styles.len() ==> ((#[trigger] styles[k]).1.heading_level matches Some(l) ==> l < 6)
}

proof fn lemma_lookup_in_range(styles: Seq<(Seq<char>, ResolvedStyleView)>, id: Seq<char>, i: int)
    requires
        0 <= i <= styles.len(),
    ensures
        i <= style_index(styles, id, i) <= styles.len(),
        style_index(styles, id, i) < styles.len() ==> styles[style_index(styles, id, i)].0 == id,
    decreases styles.len() - i,
{
    if i < styles.len() && styles[i].0 != id {
        lemma_lookup_in_range(styles, id, i + 1);
    }
}

proof fn lemma_insert_keeps_headings(styles: Seq<(Seq<char>, ResolvedStyleView)>, id: Seq<char>, style: ResolvedStyleView)
    requires
        headings_in_range(styles),
        style.heading_level matches Some(l) ==> l < 6,
    ensures
        headings_in_range(style_insert(styles, id, style)),
{
    let after = style_insert(styles, id, style);
    lemma_lookup_in_range(styles, id, 0);
    assert forall|k: int| 0 <= k < after.len() implies ((#[trigger] after[k]).1.heading_level matches Some(l) ==> l < 6) by {
        if k < styles.len() && k != style_index(styles, id, 0) {
            assert(after[k] == styles[k]);
        }
    }
}

fn copy_overrides(overrides: &Option<Vec<TabStopOverride>>) -> (copy: Option<Vec<TabStopOverride>>)
    ensures
        overrides_view(copy) == overrides_view(*overrides),
{
    match overrides {
        Some(o) => {
            let mut copy: Vec<TabStopOverride> = Vec::new();
            let mut i: usize = 0;
            while i < o.len()
                invariant
                    i <= o@.len(),
                    copy@ == o@.take(i as int),
                decreases o@.len() - i,
            {
                copy.push(o[i]);
                i = i + 1;
                assert(copy@ =~= o@.take(i as int));
            }
            assert(o@.take(o@.len() as int) =~= o@);
            Some(copy)
        },
        None => None,
    }
}

fn default_id() -> (id: String)
    ensures
        id@ == default_style_id(),
{
    let mut id = String::new();
    push_str(&mut id, "__office2pdf_doc_defaults");
    id
}

fn link_style(id: &str) -> (link: bool)
    ensures
        link == is_link_style(id@),
{
    str_eq(id, "Hyperlink") || str_eq(id, "FollowedHyperlink") || str_eq(id, "InternetLink")
}

/// Resolves every paragraph and character style of the sheet.
/// `heading_font_sizes` gives the default size of Heading 1 to 6.
pub fn build_style_map(sheet: &StyleSheet, heading_font_sizes: &[Decimal; 6]) -> (map: StyleMap)
    ensures
        map@ == style_map_of(*sheet, heading_font_sizes@),
{
    let mut map = StyleMap::new();
    map.insert(
        default_id(),
        ResolvedStyle {
            text: sheet.default_text.duplicate(),
            paragraph: sheet.default_paragraph.duplicate(),
            paragraph_tab_overrides: None,
            heading_level: None,
            style_num_info: None,
        },
    );
    assert(map@ =~= seq![(default_style_id(), defaults_view(*sheet))]);
    let defs = &sheet.styles;
    let mut i: usize = 0;
    while i < defs.len()
        invariant
            i <= defs@.len(),
            defs@ == sheet.styles@,
            headings_in_range(map@),
            styles_from(defs@, i as int, map@, heading_font_sizes@) == style_map_of(*sheet, heading_font_sizes@),
        decreases defs@.len() - i,
    {
        let def = &defs[i];
        let ghost before = map@;
        proof {
            lemma_lookup_in_range(before, default_style_id(), 0);
        }
        match def.kind {
            StyleKind::Paragraph => {
                let resolved = {
                    let defaults = map.get("__office2pdf_doc_defaults");
                    proof {
                        reveal_strlit("__office2pdf_doc_defaults");
                    }
                    let text = merge_text_style(&def.run_style, defaults, heading_font_sizes);
                    let overrides = copy_overrides(&def.tab_overrides);
                    let paragraph = {
                        let slice: Option<&[TabStopOverride]> = match &overrides {
                            Some(o) => Some(o.as_slice()),
                            None => None,
                        };
                        merge_paragraph_style(&def.paragraph_style, slice, defaults)
                    };
                    let heading_level = match def.outline_level {
                        Some(v) => if v < 6 { Some(v) } else { None },
                        None => None,
                    };
                    ResolvedStyle { text, paragraph, paragraph_tab_overrides: overrides, heading_level, style_num_info: def.num_info }
                };
                let ghost view = resolved@;
                map.insert(def.style_id.clone(), resolved);
                proof {
                    lemma_insert_keeps_headings(before, def.style_id@, view);
                }
            },
            StyleKind::Character => {
                let mut text = def.run_style.duplicate();
                if link_style(def.style_id.as_str()) {
                    text.color = None;
                    text.underline = None;
                }
                let resolved = ResolvedStyle {
                    text,
                    paragraph: ParagraphStyle::default(),
                    paragraph_tab_overrides: None,
                    heading_level: None,
                    style_num_info: None,
                };
                assert(resolved.paragraph@ == plain_paragraph_view());
                let ghost view = resolved@;
                map.insert(def.style_id.clone(), resolved);
                proof {
                    lemma_insert_keeps_headings(before, def.style_id@, view);
                }
            },
            StyleKind::Other => {},
        }
        i = i + 1;
    }
    map
}

/// The kind of a `<w:tab>` (`w:val`).
#[derive(Clone, Copy, Debug, PartialEq, Eq)]
pub enum TabKind {
    Bar,
    Center,
    Clear,
    Decimal,
    End,
    Right,
    Num,
    Start,
    Left,
}

/// The leader of a `<w:tab>` (`w:leader`).
#[derive(Clone, Copy, Debug, PartialEq, Eq)]
pub enum TabLeaderKind {
    Dot,
    Heavy,
    Hyphen,
    MiddleDot,
    /// `none`.
    Blank,
    Underscore,
}

/// A `<w:tab>` as read: kind, leader and position in twips.
#[derive(Clone, Copy, Debug, PartialEq, Eq)]
pub struct RawTab {
    pub val: Option<TabKind>,
    pub leader: Option<TabLeaderKind>,
    pub pos: Option<u32>,
}

/// Twips (1/20 pt) as points.
pub open spec fn twips_to_points(twips: u32) -> Decimal {
    Decimal::of((twips * 5) as i64, 2)
}

pub open spec fn tab_alignment_of(val: Option<TabKind>) -> TabAlignment {
    match val {
        Some(TabKind::Center) => TabAlignment::Center,
        Some(TabKind::Right) => TabAlignment::Right,
        Some(TabKind::End) => TabAlignment::Right,
        Some(TabKind::Decimal) => TabAlignment::Decimal,
        _ => TabAlignment::Left,
    }
}

pub open spec fn tab_leader_of(leader: Option<TabLeaderKind>) -> TabLeader {
    match leader {
        Some(TabLeaderKind::Dot) => TabLeader::Dot,
        Some(TabLeaderKind::MiddleDot) => TabLeader::Dot,
        Some(TabLeaderKind::Hyphen) => TabLeader::Hyphen,
        Some(TabLeaderKind::Heavy) => TabLeader::Hyphen,
        Some(TabLeaderKind::Underscore) => TabLeader::Underscore,
        _ => TabLeader::Blank,
    }
}

/// The change a `<w:tab>` makes: none without a position; a clear, or a stop
/// with its alignment and leader.
pub open spec fn tab_override(tab: RawTab) -> Option<TabStopOverride> {
    match tab.pos {
        None => None,
        Some(p) => if tab.val == Some(TabKind::Clear) {
            Some(TabStopOverride::Clear(twips_to_points(p)))
        } else {
            Some(TabStopOverride::Place(TabStop {
                position: twips_to_points(p),
                alignment: tab_alignment_of(tab.val),
                leader: tab_leader_of(tab.leader),
            }))
        },
    }
}

/// The changes of the first `n` tabs.
pub open spec fn tab_overrides_upto(tabs: Seq<RawTab>, n: int) -> Seq<TabStopOverride>
    decreases n,
{
    if n <= 0 || n > tabs.len() {
        Seq::empty()
    } else {
        match tab_override(tabs[n - 1]) {
            Some(o) => tab_overrides_upto(tabs, n - 1).push(o),
            None => tab_overrides_upto(tabs, n - 1),
        }
    }
}

/// The tab stop changes of a `<w:tabs>` list; none for an empty list.
pub open spec fn tab_stop_overrides_of(tabs: Seq<RawTab>) -> Option<Seq<TabStopOverride>> {
    if tabs.len() == 0 { None } else { Some(tab_overrides_upto(tabs, tabs.len() as int)) }
}

fn tab_position(twips: u32) -> (position: Decimal)
    ensures
        position == twips_to_points(twips),
{
    Decimal::from_parts(twips as i64 * 5, 2)
}

/// The tab stop changes of a `<w:tabs>` list, in order.
pub fn extract_tab_stop_overrides(tabs: &[RawTab]) -> (overrides: Option<Vec<TabStopOverride>>)
    ensures
        overrides_view(overrides) == tab_stop_overrides_of(tabs@),
{
    if tabs.len() == 0 {
        return None;
    }
    let mut overrides: Vec<TabStopOverride> = Vec::new();
    let mut i: usize = 0;
    while i < tabs.len()
        invariant
            i <= tabs@.len(),
            overrides@ == tab_overrides_upto(tabs@, i as int),
        decreases tabs@.len() - i,
    {
        let tab = tabs[i];
        if let Some(p) = tab.pos {
            let position = tab_position(p);
            let is_clear = match tab.val {
                Some(TabKind::Clear) => true,
                _ => false,
            };
            if is_clear {
                overrides.push(TabStopOverride::Clear(position));
            } else {
                let alignment = match tab.val {
                    Some(TabKind::Center) => TabAlignment::Center,
                    Some(TabKind::Right) | Some(TabKind::End) => TabAlignment::Right,
                    Some(TabKind::Decimal) => TabAlignment::Decimal,
                    _ => TabAlignment::Left,
                };
                let leader = match tab.leader {
                    Some(TabLeaderKind::Dot) | Some(TabLeaderKind::MiddleDot) => TabLeader::Dot,
                    Some(TabLeaderKind::Hyphen) | Some(TabLeaderKind::Heavy) => TabLeader::Hyphen,
                    Some(TabLeaderKind::Underscore) => TabLeader::Underscore,
                    _ => TabLeader::Blank,
                };
                overrides.push(TabStopOverride::Place(TabStop { position, alignment, leader }));
            }
        }
        i = i + 1;
    }
    Some(overrides)
}

/// The tab stops a `<w:tabs>` list defines on its own: its changes applied to
/// no stops, sorted by position.
pub fn extract_tab_stops(tabs: &[RawTab]) -> (stops: Option<Vec<TabStop>>)
    ensures
        stops_of(stops) == match tab_stop_overrides_of(tabs@) {
            Some(o) => Some(tab_stops_after_overrides(Seq::empty(), o)),
            None => None,
        },
{
    let overrides = match extract_tab_stop_overrides(tabs) {
        Some(o) => o,
        None => {
            return None;
        },
    };
    let mut stops: Vec<TabStop> = Vec::new();
    apply_tab_stop_overrides(&mut stops, overrides.as_slice());
    Some(stops)
}

/// Stops in non-decreasing position.
pub open spec fn sorted_positions(stops: Seq<TabStop>) -> bool {
    forall|i: int, j: int| 0 <= i < j < stops.len() ==> !decimal_lt(#[trigger] stops[j].position, #[trigger] stops[i].position)
}

proof fn lemma_lt_then_le(a: Decimal, b: Decimal, c: Decimal)
    requires
        decimal_lt(a, b),
        !decimal_lt(c, b),
    ensures
        decimal_lt(a, c),
{
    let ua = a.units_spec() as int;
    let ub = b.units_spec() as int;
    let uc = c.units_spec() as int;
    let pa = pow10(a.scale_spec() as nat);
    let pb = pow10(b.scale_spec() as nat);
    let pc = pow10(c.scale_spec() as nat);
    lemma_pow10_positive(a.scale_spec() as nat);
    lemma_pow10_positive(b.scale_spec() as nat);
    lemma_pow10_positive(c.scale_spec() as nat);
    assert(ua * pb * pc < ub * pa * pc) by (nonlinear_arith)
        requires ua * pb < ub * pa, pc > 0;
    assert(ub * pc * pa <= uc * pb * pa) by (nonlinear_arith)
        requires ub * pc <= uc * pb, pa > 0;
    assert(ua * pc * pb < uc * pa * pb) by (nonlinear_arith)
        requires ua * pb * pc < ub * pa * pc, ub * pc * pa <= uc * pb * pa;
    assert(ua * pc < uc * pa) by (nonlinear_arith)
        requires ua * pc * pb < uc * pa * pb, pb > 0;
}

proof fn lemma_first_after(sorted: Seq<TabStop>, stop: TabStop, i: int)
    requires
        0 <= i <= sorted.len(),
    ensures
        i <= first_after(sorted, stop, i) <= sorted.len(),
        forall|j: int| i <= j < first_after(sorted, stop, i) ==> !decimal_lt(stop.position, #[trigger] sorted[j].position),
        first_after(sorted, stop, i) < sorted.len() ==> decimal_lt(stop.position, sorted[first_after(sorted, stop, i)].position),
    decreases sorted.len() - i,
{
    if i < sorted.len() && !decimal_lt(stop.position, sorted[i].position) {
        lemma_first_after(sorted, stop, i + 1);
    }
}

proof fn lemma_insert_keeps_sorted(sorted: Seq<TabStop>, stop: TabStop)
    requires
        sorted_positions(sorted),
    ensures
        sorted_positions(insert_by_position(sorted, stop)),
{
    let k = first_after(sorted, stop, 0);
    lemma_first_after(sorted, stop, 0);
    sorted.insert_ensures(k, stop);
    let r = insert_by_position(sorted, stop);
    assert forall|i: int, j: int| 0 <= i < j < r.len() implies !decimal_lt(#[trigger] r[j].position, #[trigger] r[i].position) by {
        if j < k {
            assert(r[i] == sorted[i] && r[j] == sorted[j]);
        } else if j == k {
            assert(r[i] == sorted[i]);
        } else if i < k {
            assert(r[i] == sorted[i] && r[j] == sorted[j - 1]);
        } else if i == k {
            assert(r[j] == sorted[j - 1]);
            if k < j - 1 {
                assert(!decimal_lt(sorted[j - 1].position, sorted[k].position));
            }
            lemma_lt_then_le(stop.position, sorted[k].position, sorted[j - 1].position);
        } else {
            assert(r[i] == sorted[i - 1] && r[j] == sorted[j - 1]);
        }
    }
}

proof fn lemma_sorted_by_position(stops: Seq<TabStop>)
    ensures
        sorted_positions(sorted_by_position(stops)),
        sorted_by_position(stops).len() == stops.len(),
        forall|x: TabStop| sorted_by_position(stops).contains(x) <==> stops.contains(x),
    decreases stops.len(),
{
    if stops.len() > 0 {
        let rest = stops.drop_last();
        lemma_sorted_by_position(rest);
        let sorted = sorted_by_position(rest);
        lemma_insert_keeps_sorted(sorted, stops.last());
        let k = first_after(sorted, stops.last(), 0);
        lemma_first_after(sorted, stops.last(), 0);
        sorted.insert_ensures(k, stops.last());
        let r = sorted.insert(k, stops.last());
        assert forall|x: TabStop| r.contains(x) <==> stops.contains(x) by {
            if r.contains(x) {
                let w = choose|w: int| 0 <= w < r.len() && r[w] == x;
                if w < k {
                    assert(sorted[w] == x);
                    assert(sorted.contains(x));
                } else if w > k {
                    assert(sorted[w - 1] == x);
                    assert(sorted.contains(x));
                }
                if sorted.contains(x) {
                    assert(rest.contains(x));
                    let v = choose|v: int| 0 <= v < rest.len() && rest[v] == x;
                    assert(stops[v] == x);
                } else {
                    assert(stops[stops.len() - 1] == x);
                }
            }
            if stops.contains(x) {
                let v = choose|v: int| 0 <= v < stops.len() && stops[v] == x;
                if v < stops.len() - 1 {
                    assert(rest[v] == x);
                    assert(rest.contains(x));
                    assert(sorted.contains(x));
                    let w = choose|w: int| 0 <= w < sorted.len() && sorted[w] == x;
                    if w < k {
                        assert(r[w] == x);
                    } else {
                        assert(r[w + 1] == x);
                    }
                } else {
                    assert(r[k] == x);
                }
            }
        }
    }
}

/// After any tab stop changes, the stops come in non-decreasing position.
pub proof fn law_tab_stops_sorted(stops: Seq<TabStop>, overrides: Seq<TabStopOverride>)
    ensures
        sorted_positions(tab_stops_after_overrides(stops, overrides)),
{
    lemma_sorted_by_position(overrides_applied(stops, overrides, overrides.len() as int));
}

proof fn lemma_without_stops_near(stops: Seq<TabStop>, position: Decimal)
    ensures
        forall|x: TabStop| #[trigger] without_stops_near(stops, position).contains(x)
            <==> (stops.contains(x) && !positions_match_spec(x.position, position)),
    decreases stops.len(),
{
    if stops.len() > 0 {
        let rest = stops.drop_last();
        lemma_without_stops_near(rest, position);
        let w = without_stops_near(stops, position);
        let wr = without_stops_near(rest, position);
        assert forall|x: TabStop| w.contains(x) <==> (stops.contains(x) && !positions_match_spec(x.position, position)) by {
            if stops.contains(x) {
                let v = choose|v: int| 0 <= v < stops.len() && stops[v] == x;
                if v < stops.len() - 1 {
                    assert(rest[v] == x);
                }
            }
            if rest.contains(x) {
                let v = choose|v: int| 0 <= v < rest.len() && rest[v] == x;
                assert(stops[v] == x);
            }
            if !positions_match_spec(stops.last().position, position) {
                assert(w == wr.push(stops.last()));
                if w.contains(x) {
                    let v = choose|v: int| 0 <= v < w.len() && w[v] == x;
                    if v < wr.len() {
                        assert(wr[v] == x);
                    }
                }
                if wr.contains(x) {
                    let v = choose|v: int| 0 <= v < wr.len() && wr[v] == x;
                    assert(w[v] == x);
                }
                assert(w[wr.len() as int] == stops.last());
            }
        }
    }
}

/// Clearing a position leaves no stop within 0.01 pt of it, and keeps every
/// other stop.
pub proof fn law_clear_removes_stops_at_position(stops: Seq<TabStop>, position: Decimal)
    ensures
        forall|x: TabStop| #[trigger] tab_stops_after_overrides(stops, seq![TabStopOverride::Clear(position)]).contains(x)
            <==> (stops.contains(x) && !positions_match_spec(x.position, position)),
{
    let overrides = seq![TabStopOverride::Clear(position)];
    reveal_with_fuel(overrides_applied, 2);
    assert(overrides_applied(stops, overrides, 0) == stops);
    let kept = without_stops_near(stops, position);
    assert(overrides_applied(stops, overrides, 1) == kept);
    lemma_without_stops_near(stops, position);
    lemma_sorted_by_position(kept);
    assert(tab_stops_after_overrides(stops, overrides) == sorted_by_position(kept));
    assert forall|x: TabStop| #[trigger] tab_stops_after_overrides(stops, overrides).contains(x)
        <==> (stops.contains(x) && !positions_match_spec(x.position, position)) by {
        assert(sorted_by_position(kept).contains(x) <==> kept.contains(x));
    }
}

/// A placed stop is among the stops afterwards, and no other stop within
/// 0.01 pt of its position remains.
pub proof fn law_placed_stop_is_present(stops: Seq<TabStop>, stop: TabStop)
    ensures
        tab_stops_after_overrides(stops, seq![TabStopOverride::Place(stop)]).contains(stop),
        forall|x: TabStop| #[trigger] tab_stops_after_overrides(stops, seq![TabStopOverride::Place(stop)]).contains(x)
            && x != stop ==> !positions_match_spec(x.position, stop.position),
{
    let overrides = seq![TabStopOverride::Place(stop)];
    let applied = without_stops_near(stops, stop.position).push(stop);
    reveal_with_fuel(overrides_applied, 2);
    assert(overrides_applied(stops, overrides, 0) == stops);
    assert(overrides_applied(stops, overrides, 1) == applied);
    lemma_without_stops_near(stops, stop.position);
    lemma_sorted_by_position(applied);
    assert(applied[applied.len() - 1] == stop);
    assert(applied.contains(stop));
    assert(tab_stops_after_overrides(stops, overrides) == sorted_by_position(applied));
    assert forall|x: TabStop| #[trigger] tab_stops_after_overrides(stops, overrides).contains(x) && x != stop
        implies !positions_match_spec(x.position, stop.position) by {
        assert(sorted_by_position(applied).contains(x));
        assert(applied.contains(x));
        let v = choose|v: int| 0 <= v < applied.len() && applied[v] == x;
        if v < applied.len() - 1 {
            assert(without_stops_near(stops, stop.position)[v] == x);
            assert(without_stops_near(stops, stop.position).contains(x));
        }
    }
}

/// Settings a paragraph makes itself override its style's.
pub proof fn law_explicit_paragraph_settings_win(
    explicit: ParagraphStyleView,
    overrides: Option<Seq<TabStopOverride>>,
    style: Option<ResolvedStyleView>,
)
    ensures
        explicit.alignment is Some ==> merged_paragraph(explicit, overrides, style).alignment == explicit.alignment,
        explicit.indent_left is Some ==> merged_paragraph(explicit, overrides, style).indent_left == explicit.indent_left,
        explicit.indent_right is Some ==> merged_paragraph(explicit, overrides, style).indent_right == explicit.indent_right,
        explicit.indent_first_line is Some ==> merged_paragraph(explicit, overrides, style).indent_first_line == explicit.indent_first_line,
        explicit.font_size is Some ==> merged_paragraph(explicit, overrides, style).font_size == explicit.font_size,
        explicit.line_spacing is Some ==> merged_paragraph(explicit, overrides, style).line_spacing == explicit.line_spacing,
        explicit.space_before is Some ==> merged_paragraph(explicit, overrides, style).space_before == explicit.space_before,
        explicit.space_after is Some ==> merged_paragraph(explicit, overrides, style).space_after == explicit.space_after,
        overrides is None && explicit.tab_stops is Some ==> merged_paragraph(explicit, overrides, style).tab_stops == explicit.tab_stops,
{
}

/// Properties a run sets itself override its style's, heading defaults included.
pub proof fn law_explicit_run_settings_win(explicit: TextStyle, style: Option<ResolvedStyleView>, heading_font_sizes: Seq<Decimal>)
    ensures
        explicit.bold is Some ==> merged_text(explicit, style, heading_font_sizes).bold == explicit.bold,
        explicit.italic is Some ==> merged_text(explicit, style, heading_font_sizes).italic == explicit.italic,
        explicit.underline is Some ==> merged_text(explicit, style, heading_font_sizes).underline == explicit.underline,
        explicit.font_size is Some ==> merged_text(explicit, style, heading_font_sizes).font_size == explicit.font_size,
        explicit.color is Some ==> merged_text(explicit, style, heading_font_sizes).color == explicit.color,
        explicit.font_family is Some ==> merged_text(explicit, style, heading_font_sizes).font_family == explicit.font_family,
{
}

proof fn lemma_style_index(styles: Seq<(Seq<char>, ResolvedStyleView)>, id: Seq<char>, i: int)
    requires
        0 <= i <= styles.len(),
    ensures
        i <= style_index(styles, id, i) <= styles.len(),
        style_index(styles, id, i) < styles.len() ==> styles[style_index(styles, id, i)].0 == id,
        forall|j: int| i <= j < style_index(styles, id, i) ==> styles[j].0 != id,
    decreases styles.len() - i,
{
    if i < styles.len() && styles[i].0 != id {
        lemma_style_index(styles, id, i + 1);
    }
}

/// After recording a style under `id`, `id` looks that style up, and every
/// other id looks up what it did before.
pub proof fn law_style_lookup_after_insert(
    styles: Seq<(Seq<char>, ResolvedStyleView)>,
    id: Seq<char>,
    style: ResolvedStyleView,
    other: Seq<char>,
)
    ensures
        style_lookup(style_insert(styles, id, style), id) == Some(style),
        other != id ==> style_lookup(style_insert(styles, id, style), other) == style_lookup(styles, other),
{
    let after = style_insert(styles, id, style);
    let k = style_index(styles, id, 0);
    lemma_style_index(styles, id, 0);
    lemma_style_index(after, id, 0);
    lemma_style_index(styles, other, 0);
    lemma_style_index(after, other, 0);
    let ka = style_index(after, id, 0);
    if k < styles.len() {
        assert(after[k].0 == id);
        if ka < k {
            assert(after[ka] == styles[ka]);
        }
    } else {
        assert(after[styles.len() as int].0 == id);
        if ka < styles.len() {
            assert(after[ka] == styles[ka]);
        }
    }
    if other != id {
        let o = style_index(styles, other, 0);
        let oa = style_index(after, other, 0);
        assert forall|j: int| 0 <= j < styles.len() implies (#[trigger] after[j].0 == other) == (styles[j].0 == other) by {
            if j != k {
                assert(after[j] == styles[j]);
            }
        }
        if k >= styles.len() {
            assert(after[styles.len() as int].0 != other);
        }
        if o < styles.len() {
            assert(after[o].0 == other);
            if oa < o {
                assert(styles[oa].0 == other);
            }
            assert(oa == o);
            assert(after[o] == styles[o]);
        } else if oa < after.len() {
            assert(after[oa].0 == other);
            if oa < styles.len() {
                assert(styles[oa].0 == other);
            }
        }
    }
}

} // verus!
