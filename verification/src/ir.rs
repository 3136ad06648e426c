//! Format-neutral document intermediate representation.
//!
//! Lengths that the parsers read from the source formats are carried as exact
//! decimals (`Decimal`), or as EMU integers for drawing geometry, so that every
//! value the renderer prints is known exactly.

use std::collections::BTreeMap;
use vstd::prelude::*;

verus! {

/// Largest number of fractional digits a `Decimal` may carry.
pub const MAX_DECIMAL_SCALE: u32 = 18;

/// An exact decimal number `units / 10^scale`, with at most
/// `MAX_DECIMAL_SCALE` fractional digits.
#[derive(Clone, Copy, Debug, PartialEq, Eq)]
pub struct Decimal {
    pub(crate) units: i64,
    pub(crate) scale: u32,
}

/// `10^n` as a mathematical integer.
pub open spec fn pow10(n: nat) -> int
    decreases n,
{
    if n == 0 { 1 } else { 10 * pow10((n - 1) as nat) }
}

impl Decimal {
    #[verifier::type_invariant]
    pub(crate) closed spec fn wf(self) -> bool {
        self.scale <= MAX_DECIMAL_SCALE
    }

    pub closed spec fn units_spec(self) -> i64 {
        self.units
    }

    pub closed spec fn scale_spec(self) -> u32 {
        self.scale
    }

    /// The decimal `units / 10^scale`.
    pub closed spec fn of(units: i64, scale: u32) -> Decimal {
        Decimal { units, scale }
    }

    /// The parts of `Decimal::of(units, scale)`.
    pub proof fn lemma_of_parts(units: i64, scale: u32)
        ensures
            Decimal::of(units, scale).units_spec() == units,
            Decimal::of(units, scale).scale_spec() == scale,
    {
    }

    /// `units / 10^scale`, for a scale within `MAX_DECIMAL_SCALE`.
    pub fn from_parts(units: i64, scale: u32) -> (d: Decimal)
        requires
            scale <= MAX_DECIMAL_SCALE,
        ensures
            d == Decimal::of(units, scale),
            d.units_spec() == units,
            d.scale_spec() == scale,
    {
        Decimal { units, scale }
    }

    /// `units / 10^scale`, when `scale` is at most `MAX_DECIMAL_SCALE`.
    pub fn new(units: i64, scale: u32) -> (d: Option<Decimal>)
        ensures
            match d {
                Some(d) => d == Decimal::of(units, scale) && d.units_spec() == units && d.scale_spec() == scale,
                None => scale > MAX_DECIMAL_SCALE,
            },
    {
        if scale <= MAX_DECIMAL_SCALE { Some(Decimal { units, scale }) } else { None }
    }

    /// The whole number `units`.
    pub closed spec fn whole_spec(units: i64) -> Decimal {
        Decimal { units, scale: 0 }
    }

    /// A whole number.
    pub fn whole(units: i64) -> (d: Decimal)
        ensures
            d == Decimal::whole_spec(units),
            d.units_spec() == units,
            d.scale_spec() == 0,
    {
        Decimal { units, scale: 0 }
    }

    pub fn units(&self) -> (u: i64)
        ensures
            u == self.units_spec(),
    {
        self.units
    }

    pub fn scale(&self) -> (s: u32)
        ensures
            s == self.scale_spec(),
            s <= MAX_DECIMAL_SCALE,
    {
        proof {
            use_type_invariant(self);
        }
        self.scale
    }
}

/// An RGB color.
#[derive(Clone, Copy, Debug, PartialEq, Eq)]
pub struct Color {
    pub r: u8,
    pub g: u8,
    pub b: u8,
}

impl Color {
    pub fn new(r: u8, g: u8, b: u8) -> (c: Color)
        ensures
            c == (Color { r, g, b }),
    {
        Color { r, g, b }
    }
}

#[derive(Clone, Copy, Debug, PartialEq, Eq)]
pub enum Alignment {
    Left,
    Center,
    Right,
    Justify,
}

#[derive(Clone, Copy, Debug, PartialEq, Eq)]
pub enum TextDirection {
    Ltr,
    Rtl,
}

#[derive(Clone, Copy, Debug, PartialEq, Eq)]
pub enum VerticalTextAlign {
    Baseline,
    Superscript,
    Subscript,
}

/// Paragraph line spacing: a multiple of single spacing, or an exact height in points.
#[derive(Clone, Copy, Debug, PartialEq, Eq)]
pub enum LineSpacing {
    Proportional(Decimal),
    Exact(Decimal),
}

#[derive(Clone, Copy, Debug, PartialEq, Eq)]
pub enum TabAlignment {
    Left,
    Center,
    Right,
    Decimal,
}

#[derive(Clone, Copy, Debug, PartialEq, Eq)]
pub enum TabLeader {
    /// No leader: the tab advance is empty space.
    Blank,
    Dot,
    Hyphen,
    Underscore,
}

/// A tab stop at `position` points from the paragraph start.
#[derive(Clone, Copy, Debug, PartialEq, Eq)]
pub struct TabStop {
    pub position: Decimal,
    pub alignment: TabAlignment,
    pub leader: TabLeader,
}

/// Character formatting of a run. `None` means "inherit".
#[derive(Clone, Debug, PartialEq)]
pub struct TextStyle {
    pub bold: Option<bool>,
    pub italic: Option<bool>,
    pub underline: Option<bool>,
    pub strikethrough: Option<bool>,
    /// Font size in points.
    pub font_size: Option<Decimal>,
    pub color: Option<Color>,
    pub font_family: Option<String>,
    pub highlight: Option<Color>,
    pub vertical_align: Option<VerticalTextAlign>,
    pub all_caps: Option<bool>,
    pub small_caps: Option<bool>,
    /// Extra letter spacing in points.
    pub letter_spacing: Option<Decimal>,
}

impl Default for TextStyle {
    fn default() -> (style: Self)
        ensures
            style.is_plain(),
    {
        TextStyle {
            bold: None,
            italic: None,
            underline: None,
            strikethrough: None,
            font_size: None,
            color: None,
            font_family: None,
            highlight: None,
            vertical_align: None,
            all_caps: None,
            small_caps: None,
            letter_spacing: None,
        }
    }
}

impl TextStyle {
    /// Every property is inherited.
    pub open spec fn is_plain(&self) -> bool {
        &&& self.bold is None
        &&& self.italic is None
        &&& self.underline is None
        &&& self.strikethrough is None
        &&& self.font_size is None
        &&& self.color is None
        &&& self.font_family is None
        &&& self.highlight is None
        &&& self.vertical_align is None
        &&& self.all_caps is None
        &&& self.small_caps is None
        &&& self.letter_spacing is None
    }

    /// A copy of this style.
    pub fn duplicate(&self) -> (copy: TextStyle)
        ensures
            copy == *self,
    {
        let font_family = match &self.font_family {
            Some(family) => Some(family.clone()),
            None => None,
        };
        TextStyle {
            bold: self.bold,
            italic: self.italic,
            underline: self.underline,
            strikethrough: self.strikethrough,
            font_size: self.font_size,
            color: self.color,
            font_family,
            highlight: self.highlight,
            vertical_align: self.vertical_align,
            all_caps: self.all_caps,
            small_caps: self.small_caps,
            letter_spacing: self.letter_spacing,
        }
    }
}

/// Paragraph formatting. `None` means "inherit".
#[derive(Clone, Debug, PartialEq)]
pub struct ParagraphStyle {
    pub alignment: Option<Alignment>,
    /// Left indent in points.
    pub indent_left: Option<Decimal>,
    /// Right indent in points.
    pub indent_right: Option<Decimal>,
    /// First-line indent in points (negative for a hanging indent).
    pub indent_first_line: Option<Decimal>,
    pub font_size: Option<Decimal>,
    pub line_spacing: Option<LineSpacing>,
    pub space_before: Option<Decimal>,
    pub space_after: Option<Decimal>,
    /// Heading level 1..=6, when the paragraph is a heading.
    pub heading_level: Option<u8>,
    /// Rendered multilevel heading number (e.g. "2.1.3").
    pub heading_number: Option<String>,
    pub direction: Option<TextDirection>,
    pub tab_stops: Option<Vec<TabStop>>,
}

impl Default for ParagraphStyle {
    fn default() -> (style: Self)
        ensures
            style.is_plain(),
    {
        ParagraphStyle {
            alignment: None,
            indent_left: None,
            indent_right: None,
            indent_first_line: None,
            font_size: None,
            line_spacing: None,
            space_before: None,
            space_after: None,
            heading_level: None,
            heading_number: None,
            direction: None,
            tab_stops: None,
        }
    }
}

impl ParagraphStyle {
    /// A copy of this style.
    pub fn duplicate(&self) -> (copy: ParagraphStyle)
        ensures
            copy@ == self@,
    {
        let tab_stops = match &self.tab_stops {
            Some(stops) => {
                let mut copy: Vec<TabStop> = Vec::new();
                let mut i: usize = 0;
                while i < stops.len()
                    invariant
                        i <= stops@.len(),
                        copy@ == stops@.take(i as int),
                    decreases stops@.len() - i,
                {
                    copy.push(stops[i]);
                    i = i + 1;
                    assert(copy@ =~= stops@.take(i as int));
                }
                assert(stops@.take(stops@.len() as int) =~= stops@);
                Some(copy)
            },
            None => None,
        };
        ParagraphStyle {
            alignment: self.alignment,
            indent_left: self.indent_left,
            indent_right: self.indent_right,
            indent_first_line: self.indent_first_line,
            font_size: self.font_size,
            line_spacing: self.line_spacing,
            space_before: self.space_before,
            space_after: self.space_after,
            heading_level: self.heading_level,
            heading_number: copy_opt_string(&self.heading_number),
            direction: self.direction,
            tab_stops,
        }
    }
}

impl ParagraphStyle {
    /// Every property is inherited.
    pub open spec fn is_plain(&self) -> bool {
        &&& self.alignment is None
        &&& self.indent_left is None
        &&& self.indent_right is None
        &&& self.indent_first_line is None
        &&& self.font_size is None
        &&& self.line_spacing is None
        &&& self.space_before is None
        &&& self.space_after is None
        &&& self.heading_level is None
        &&& self.heading_number is None
        &&& self.direction is None
        &&& self.tab_stops is None
    }
}

/// A paragraph style as plain values.
pub struct ParagraphStyleView {
    pub alignment: Option<Alignment>,
    pub indent_left: Option<Decimal>,
    pub indent_right: Option<Decimal>,
    pub indent_first_line: Option<Decimal>,
    pub font_size: Option<Decimal>,
    pub line_spacing: Option<LineSpacing>,
    pub space_before: Option<Decimal>,
    pub space_after: Option<Decimal>,
    pub heading_level: Option<u8>,
    pub heading_number: Option<Seq<char>>,
    pub direction: Option<TextDirection>,
    pub tab_stops: Option<Seq<TabStop>>,
}

impl View for ParagraphStyle {
    type V = ParagraphStyleView;

    open spec fn view(&self) -> ParagraphStyleView {
        ParagraphStyleView {
            alignment: self.alignment,
            indent_left: self.indent_left,
            indent_right: self.indent_right,
            indent_first_line: self.indent_first_line,
            font_size: self.font_size,
            line_spacing: self.line_spacing,
            space_before: self.space_before,
            space_after: self.space_after,
            heading_level: self.heading_level,
            heading_number: match self.heading_number {
                Some(n) => Some(n@),
                None => None,
            },
            direction: self.direction,
            tab_stops: match self.tab_stops {
                Some(s) => Some(s@),
                None => None,
            },
        }
    }
}

/// A run of text sharing one style; a run with `footnote` set is a footnote
/// reference whose content is the footnote text.
#[derive(Clone, Debug, PartialEq)]
pub struct Run {
    pub text: String,
    pub style: TextStyle,
    pub href: Option<String>,
    pub footnote: Option<String>,
}

/// A copy of an optional string.
pub fn copy_opt_string(value: &Option<String>) -> (copy: Option<String>)
    ensures
        copy == *value,
{
    match value {
        Some(text) => Some(text.clone()),
        None => None,
    }
}

/// A run seen as character sequences.
pub struct RunView {
    pub text: Seq<char>,
    pub style: TextStyle,
    pub href: Option<Seq<char>>,
    pub footnote: Option<Seq<char>>,
}

/// The characters of an optional string.
pub open spec fn opt_chars(s: Option<String>) -> Option<Seq<char>> {
    match s {
        Some(t) => Some(t@),
        None => None,
    }
}

impl View for Run {
    type V = RunView;

    open spec fn view(&self) -> RunView {
        RunView { text: self.text@, style: self.style, href: opt_chars(self.href), footnote: opt_chars(self.footnote) }
    }
}

impl Run {
    /// A copy of this run.
    pub fn duplicate(&self) -> (copy: Run)
        ensures
            copy == *self,
    {
        Run {
            text: self.text.clone(),
            style: self.style.duplicate(),
            href: copy_opt_string(&self.href),
            footnote: copy_opt_string(&self.footnote),
        }
    }
}

#[derive(Clone, Debug, PartialEq)]
pub struct Paragraph {
    pub style: ParagraphStyle,
    pub runs: Vec<Run>,
}

#[derive(Clone, Copy, Debug, PartialEq, Eq)]
pub enum ListKind {
    Ordered,
    Unordered,
}

/// Rendering style of one list level.
#[derive(Clone, Debug, PartialEq)]
pub struct ListLevelStyle {
    pub kind: ListKind,
    /// Typst numbering pattern such as "1." or "1.a)".
    pub numbering_pattern: Option<String>,
    /// Whether the pattern shows the parent levels' counters too.
    pub full_numbering: bool,
    pub marker_text: Option<String>,
    pub marker_style: Option<TextStyle>,
}

impl ListLevelStyle {
    /// A copy of this level style.
    pub fn duplicate(&self) -> (copy: ListLevelStyle)
        ensures
            copy == *self,
    {
        let marker_style = match &self.marker_style {
            Some(style) => Some(style.duplicate()),
            None => None,
        };
        ListLevelStyle {
            kind: self.kind,
            numbering_pattern: copy_opt_string(&self.numbering_pattern),
            full_numbering: self.full_numbering,
            marker_text: copy_opt_string(&self.marker_text),
            marker_style,
        }
    }
}

#[derive(Clone, Debug, PartialEq)]
pub struct ListItem {
    pub content: Vec<Paragraph>,
    pub level: u32,
    /// Counter value this item restarts at, when it restarts.
    pub start_at: Option<u32>,
}

#[derive(Clone, Debug, PartialEq)]
pub struct List {
    pub kind: ListKind,
    pub items: Vec<ListItem>,
    pub level_styles: BTreeMap<u32, ListLevelStyle>,
}

/// An inline element of a header or footer line.
#[derive(Clone, Debug, PartialEq)]
pub enum HFInline {
    Run(Run),
    PageNumber,
    TotalPages,
    /// Flexible space pushing neighbouring content apart.
    Spacer,
}

#[derive(Clone, Copy, Debug, PartialEq, Eq)]
pub enum HFBorderStyle {
    Single,
    Double,
}

/// A header/footer inline as plain values.
pub enum HFInlineView {
    Run(RunView),
    PageNumber,
    TotalPages,
    Spacer,
}

impl View for HFInline {
    type V = HFInlineView;

    open spec fn view(&self) -> HFInlineView {
        match self {
            HFInline::Run(run) => HFInlineView::Run(run@),
            HFInline::PageNumber => HFInlineView::PageNumber,
            HFInline::TotalPages => HFInlineView::TotalPages,
            HFInline::Spacer => HFInlineView::Spacer,
        }
    }
}

pub open spec fn inline_views(elements: Seq<HFInline>) -> Seq<HFInlineView> {
    elements.map_values(|e: HFInline| e@)
}

/// A horizontal rule drawn above or below a header/footer.
#[derive(Clone, Copy, Debug, PartialEq, Eq)]
pub struct HFBorder {
    /// Line thickness in eighths of a point (`w:sz`).
    pub thickness_eighths: u64,
    pub style: HFBorderStyle,
}

#[derive(Clone, Debug, PartialEq)]
pub struct HeaderFooterParagraph {
    pub style: ParagraphStyle,
    pub elements: Vec<HFInline>,
}

#[derive(Clone, Debug, PartialEq)]
pub struct HeaderFooter {
    pub paragraphs: Vec<HeaderFooterParagraph>,
    pub top_border: Option<HFBorder>,
    pub bottom_border: Option<HFBorder>,
}

impl HFInline {
    /// A copy of this inline.
    pub fn duplicate(&self) -> (copy: HFInline)
        ensures
            copy@ == self@,
    {
        match self {
            HFInline::Run(run) => HFInline::Run(run.duplicate()),
            HFInline::PageNumber => HFInline::PageNumber,
            HFInline::TotalPages => HFInline::TotalPages,
            HFInline::Spacer => HFInline::Spacer,
        }
    }
}

impl HeaderFooterParagraph {
    /// A copy of this paragraph.
    pub fn duplicate(&self) -> (copy: HeaderFooterParagraph)
        ensures
            copy@ == self@,
    {
        let mut elements: Vec<HFInline> = Vec::new();
        let mut i: usize = 0;
        while i < self.elements.len()
            invariant
                i <= self.elements@.len(),
                elements@.len() == i,
                forall|k: int| 0 <= k < i ==> (#[trigger] elements@[k])@ == self.elements@[k]@,
            decreases self.elements@.len() - i,
        {
            elements.push(self.elements[i].duplicate());
            i = i + 1;
        }
        assert(inline_views(elements@) =~= inline_views(self.elements@));
        HeaderFooterParagraph { style: self.style.duplicate(), elements }
    }
}

impl HeaderFooter {
    /// A copy of this header or footer.
    pub fn duplicate(&self) -> (copy: HeaderFooter)
        ensures
            hf_paragraph_views(copy.paragraphs@) == hf_paragraph_views(self.paragraphs@),
            copy.top_border == self.top_border,
            copy.bottom_border == self.bottom_border,
    {
        let mut paragraphs: Vec<HeaderFooterParagraph> = Vec::new();
        let mut i: usize = 0;
        while i < self.paragraphs.len()
            invariant
                i <= self.paragraphs@.len(),
                paragraphs@.len() == i,
                forall|k: int| 0 <= k < i ==> (#[trigger] paragraphs@[k])@ == self.paragraphs@[k]@,
            decreases self.paragraphs@.len() - i,
        {
            paragraphs.push(self.paragraphs[i].duplicate());
            i = i + 1;
        }
        assert(hf_paragraph_views(paragraphs@) =~= hf_paragraph_views(self.paragraphs@));
        HeaderFooter { paragraphs, top_border: self.top_border, bottom_border: self.bottom_border }
    }
}

/// A header/footer paragraph as plain values.
pub struct HeaderFooterParagraphView {
    pub style: ParagraphStyleView,
    pub elements: Seq<HFInlineView>,
}

impl View for HeaderFooterParagraph {
    type V = HeaderFooterParagraphView;

    open spec fn view(&self) -> HeaderFooterParagraphView {
        HeaderFooterParagraphView { style: self.style@, elements: inline_views(self.elements@) }
    }
}

pub open spec fn hf_paragraph_views(paragraphs: Seq<HeaderFooterParagraph>) -> Seq<HeaderFooterParagraphView> {
    paragraphs.map_values(|p: HeaderFooterParagraph| p@)
}

#[derive(Clone, Copy, Debug, PartialEq, Eq)]
pub enum BorderLineStyle {
    Solid,
    Dashed,
    Dotted,
    Double,
}

/// One border line; `width_emu` is its width in EMU (12700 EMU per point).
#[derive(Clone, Copy, Debug, PartialEq, Eq)]
pub struct BorderSide {
    pub width_emu: i64,
    pub color: Color,
    pub style: BorderLineStyle,
}

#[derive(Clone, Copy, Debug, PartialEq, Eq)]
pub struct CellBorder {
    pub top: Option<BorderSide>,
    pub bottom: Option<BorderSide>,
    pub left: Option<BorderSide>,
    pub right: Option<BorderSide>,
}

#[derive(Debug, PartialEq)]
pub struct TableCell {
    pub content: Vec<Block>,
    pub col_span: u32,
    pub row_span: u32,
    pub border: Option<CellBorder>,
    pub background: Option<Color>,
}

impl Default for TableCell {
    fn default() -> (cell: Self)
        ensures
            cell.content@.len() == 0,
            cell.col_span == 1,
            cell.row_span == 1,
            cell.border is None,
            cell.background is None,
    {
        TableCell { content: Vec::new(), col_span: 1, row_span: 1, border: None, background: None }
    }
}

#[derive(Debug, PartialEq)]
pub struct TableRow {
    pub cells: Vec<TableCell>,
}

#[derive(Debug, PartialEq)]
pub struct Table {
    pub rows: Vec<TableRow>,
}

/// A chart, known to the layout by its title; it is rendered as a data table.
#[derive(Debug, PartialEq)]
pub struct Chart {
    pub title: Option<String>,
}

/// A block-level element of a flow page.
#[derive(Debug, PartialEq)]
pub enum Block {
    Paragraph(Paragraph),
    List(List),
    Table(Table),
    Chart(Chart),
    PageBreak,
}

#[derive(Clone, Copy, Debug, PartialEq, Eq)]
pub enum ArrowHead {
    /// The line ends without an arrowhead.
    Flat,
    Triangle,
}

/// Geometry of a drawing shape; coordinates are EMU within the shape's box.
#[derive(Clone, Copy, Debug, PartialEq, Eq)]
pub enum ShapeKind {
    Rectangle,
    Ellipse,
    /// Corner radius as a fraction of the shorter side.
    RoundedRectangle { radius_fraction: Decimal },
    Line { x1: i64, y1: i64, x2: i64, y2: i64, head_end: ArrowHead, tail_end: ArrowHead },
}

#[derive(Clone, Copy, Debug, PartialEq, Eq)]
pub struct Shape {
    pub kind: ShapeKind,
    pub fill: Option<Color>,
    pub stroke: Option<BorderSide>,
}

#[derive(Clone, Copy, Debug, PartialEq, Eq)]
pub enum WrapMode {
    /// The shape floats without pushing text aside.
    NoWrap,
    Square,
    TopAndBottom,
    Behind,
    InFront,
}

/// A shape anchored on the page; all lengths in EMU.
#[derive(Clone, Copy, Debug, PartialEq, Eq)]
pub struct FloatingShape {
    pub shape: Shape,
    pub width: i64,
    pub height: i64,
    pub offset_x: i64,
    pub offset_y: i64,
    pub wrap_mode: WrapMode,
}

} // verus!
