//! Page setup of a DOCX section (`<w:pgSz>`, `<w:pgMar>`) and the text of
//! body runs.

use vstd::prelude::*;
use crate::ir::Decimal;
use crate::text::{push_str, str_eq};

verus! {

/// A page size in points.
#[derive(Clone, Copy, Debug, PartialEq, Eq)]
pub struct PageSize {
    pub width: Decimal,
    pub height: Decimal,
}

/// Page margins in points.
#[derive(Clone, Copy, Debug, PartialEq, Eq)]
pub struct Margins {
    pub top: Decimal,
    pub bottom: Decimal,
    pub left: Decimal,
    pub right: Decimal,
}

/// `<w:pgSz w:orient>`.
#[derive(Clone, Copy, Debug, PartialEq, Eq)]
pub enum PageOrientation {
    Portrait,
    Landscape,
}

/// A positive length in twips rounded to the nearest half point (halves
/// rounded up), as a count of half points.
pub open spec fn half_points_of(twips: u32) -> int {
    (twips + 5) / 10
}

/// A count of half points as points.
pub open spec fn half_points_decimal(half_points: int) -> Decimal {
    Decimal::of((half_points * 5) as i64, 1)
}

/// The page size a section gives, rounded to half points (which absorbs
/// sub-twip noise between sections); a landscape page is turned so that it is
/// wider than high. `None` when a dimension is missing or zero: the caller
/// keeps its default page size.
pub open spec fn page_size_spec(width_twips: u32, height_twips: u32, orient: Option<PageOrientation>) -> Option<PageSize> {
    if width_twips == 0 || height_twips == 0 {
        None
    } else {
        let w = half_points_of(width_twips);
        let h = half_points_of(height_twips);
        if orient == Some(PageOrientation::Landscape) && w < h {
            Some(PageSize { width: half_points_decimal(h), height: half_points_decimal(w) })
        } else {
            Some(PageSize { width: half_points_decimal(w), height: half_points_decimal(h) })
        }
    }
}

fn half_points(twips: u32) -> (hp: u64)
    ensures
        hp == half_points_of(twips),
        hp <= 429496730,
{
    (twips as u64 + 5) / 10
}

fn half_points_to_decimal(hp: u64) -> (d: Decimal)
    requires
        hp <= 429496730,
    ensures
        d == half_points_decimal(hp as int),
{
    Decimal::from_parts(hp as i64 * 5, 1)
}

/// The page size of a section from `<w:pgSz>`.
pub fn extract_page_size(width_twips: u32, height_twips: u32, orient: Option<PageOrientation>) -> (size: Option<PageSize>)
    ensures
        size == page_size_spec(width_twips, height_twips, orient),
{
    if width_twips == 0 || height_twips == 0 {
        return None;
    }
    let w = half_points(width_twips);
    let h = half_points(height_twips);
    let landscape = match orient {
        Some(PageOrientation::Landscape) => true,
        _ => false,
    };
    if landscape && w < h {
        Some(PageSize { width: half_points_to_decimal(h), height: half_points_to_decimal(w) })
    } else {
        Some(PageSize { width: half_points_to_decimal(w), height: half_points_to_decimal(h) })
    }
}

/// A landscape page is never higher than wide, and both dimensions are
/// within a quarter point of the twips given.
pub proof fn law_page_size_shape(width_twips: u32, height_twips: u32, orient: Option<PageOrientation>)
    ensures
        page_size_spec(width_twips, height_twips, orient) matches Some(size) ==> {
            &&& size.width.scale_spec() == 1 && size.height.scale_spec() == 1
            &&& orient == Some(PageOrientation::Landscape) ==> size.width.units_spec() >= size.height.units_spec()
        },
        width_twips > 0 ==> -5 < half_points_of(width_twips) * 10 - width_twips <= 5,
{
    let w = half_points_of(width_twips);
    let h = half_points_of(height_twips);
    Decimal::lemma_of_parts((w * 5) as i64, 1);
    Decimal::lemma_of_parts((h * 5) as i64, 1);
    assert(0 <= w * 5 <= 2147483650 && 0 <= h * 5 <= 2147483650);
    if width_twips > 0 {
        assert(half_points_of(width_twips) * 10 <= width_twips + 5);
        assert(half_points_of(width_twips) * 10 > width_twips - 5);
    }
}

/// Twips as points, exactly.
pub open spec fn twips_points(twips: i32) -> Decimal {
    Decimal::of((twips * 5) as i64, 2)
}

fn points_of_twips(twips: i32) -> (d: Decimal)
    ensures
        d == twips_points(twips),
{
    Decimal::from_parts(twips as i64 * 5, 2)
}

/// The page margins of a section from `<w:pgMar>` (twips).
pub fn extract_margins(top: i32, bottom: i32, left: i32, right: i32) -> (margins: Margins)
    ensures
        margins == (Margins {
            top: twips_points(top),
            bottom: twips_points(bottom),
            left: twips_points(left),
            right: twips_points(right),
        }),
{
    Margins {
        top: points_of_twips(top),
        bottom: points_of_twips(bottom),
        left: points_of_twips(left),
        right: points_of_twips(right),
    }
}

/// What a break (`<w:br>`) breaks to.
#[derive(Clone, Copy, Debug, PartialEq, Eq)]
pub enum BreakKind {
    Page,
    Column,
    /// A line break (`textWrapping` or no type).
    Line,
}

/// The break a `<w:br w:type>` value names: `page`, `column`, and a line
/// break for any other value or none.
pub open spec fn break_kind_of(break_type: Option<Seq<char>>) -> BreakKind {
    match break_type {
        Some(t) => if t == "page"@ {
            BreakKind::Page
        } else if t == "column"@ {
            BreakKind::Column
        } else {
            BreakKind::Line
        },
        None => BreakKind::Line,
    }
}

pub open spec fn opt_str_view(value: Option<&str>) -> Option<Seq<char>> {
    match value {
        Some(v) => Some(v@),
        None => None,
    }
}

/// Whether a `<w:br>` of this type breaks to the next column.
pub fn is_column_break(break_type: Option<&str>) -> (column: bool)
    ensures
        column == (break_type matches Some(t) && t@ == "column"@),
{
    match break_type {
        Some(t) => str_eq(t, "column"),
        None => false,
    }
}

/// Whether a `<w:br>` of this type breaks to the next page.
pub fn is_page_break(break_type: Option<&str>) -> (page: bool)
    ensures
        page == (break_type matches Some(t) && t@ == "page"@),
{
    match break_type {
        Some(t) => str_eq(t, "page"),
        None => false,
    }
}

/// The break a `<w:br>` of this type makes.
pub fn break_kind(break_type: Option<&str>) -> (kind: BreakKind)
    ensures
        kind == break_kind_of(opt_str_view(break_type)),
{
    if is_page_break(break_type) {
        BreakKind::Page
    } else if is_column_break(break_type) {
        BreakKind::Column
    } else {
        BreakKind::Line
    }
}

/// A child of a body run, as its text reads it.
pub enum RunTextChild {
    Text(String),
    Tab,
    Break(BreakKind),
    /// Drawings, fields and everything else without text.
    Other,
}

/// The text of the first `n` children: texts, `\t` for tabs and `\n` for
/// breaks; with `skip_column_breaks`, page and column breaks add nothing.
pub open spec fn run_text_upto(children: Seq<RunTextChild>, n: int, skip_column_breaks: bool) -> Seq<char>
    decreases n,
{
    if n <= 0 || n > children.len() {
        Seq::empty()
    } else {
        let before = run_text_upto(children, n - 1, skip_column_breaks);
        match children[n - 1] {
            RunTextChild::Text(t) => before + t@,
            RunTextChild::Tab => before.push('\t'),
            RunTextChild::Break(kind) => if skip_column_breaks && kind != BreakKind::Line {
                before
            } else {
                before.push('\n')
            },
            RunTextChild::Other => before,
        }
    }
}

fn run_text(children: &[RunTextChild], skip_column_breaks: bool) -> (text: String)
    ensures
        text@ == run_text_upto(children@, children@.len() as int, skip_column_breaks),
{
    let mut text = String::new();
    let mut i: usize = 0;
    while i < children.len()
        invariant
            i <= children@.len(),
            text@ == run_text_upto(children@, i as int, skip_column_breaks),
        decreases children@.len() - i,
    {
        match &children[i] {
            RunTextChild::Text(t) => push_str(&mut text, t.as_str()),
            RunTextChild::Tab => crate::text::push_char(&mut text, '\t'),
            RunTextChild::Break(kind) => {
                let skip = skip_column_breaks && match kind {
                    BreakKind::Line => false,
                    _ => true,
                };
                if !skip {
                    crate::text::push_char(&mut text, '\n');
                }
            },
            RunTextChild::Other => {},
        }
        i = i + 1;
    }
    text
}

/// The text of a run: texts, tabs as `\t`, every break as `\n`.
pub fn extract_run_text(children: &[RunTextChild]) -> (text: String)
    ensures
        text@ == run_text_upto(children@, children@.len() as int, false),
{
    run_text(children, false)
}

/// The text of a run with page and column breaks left out (they split pages
/// and columns instead); line breaks still read `\n`.
pub fn extract_run_text_skip_column_breaks(children: &[RunTextChild]) -> (text: String)
    ensures
        text@ == run_text_upto(children@, children@.len() as int, true),
{
    run_text(children, true)
}

} // verus!
