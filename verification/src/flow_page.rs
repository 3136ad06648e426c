//! A flow page from one section of a word-processing document: page setup,
//! grouped content, header and footer, and the fallbacks the layout takes.

use vstd::prelude::*;
use crate::hf_docx::{
    convert_header_footer, extract_section_header_footer, header_footer_of, header_footer_view, section_header_footer, HfChild,
    SectionHfSources,
};
use crate::ir::{Block, Chart, Decimal, HFBorder, HeaderFooter, HeaderFooterParagraphView};
use crate::sections::{header_footer_relationships, references_view, scan_header_footer_relationships, PartReference};
use crate::xml::xml_events_of;
use crate::lists::{blocks_of_groups, group_into_lists, groups_from, NumberingMap, TaggedElement};
use crate::page::{extract_margins, extract_page_size, page_size_spec, twips_points, Margins, PageOrientation, PageSize};
use crate::text::{push_str, str_eq};

verus! {

/// Something the converter could not render as the source has it, and what
/// it rendered instead.
#[derive(Debug, PartialEq, Eq)]
pub enum ConvertWarning {
    FallbackUsed { format: String, from: String, to: String },
}

impl View for ConvertWarning {
    /// The source format, what fell back, and what it fell back to.
    type V = (Seq<char>, Seq<char>, Seq<char>);

    open spec fn view(&self) -> (Seq<char>, Seq<char>, Seq<char>) {
        match self {
            ConvertWarning::FallbackUsed { format, from, to } => (format@, from@, to@),
        }
    }
}

/// The views of a list of warnings.
pub open spec fn warning_views(ws: Seq<ConvertWarning>) -> Seq<(Seq<char>, Seq<char>, Seq<char>)> {
    ws.map_values(|w: ConvertWarning| w@)
}

/// Columns of a flow page: how many, and the gap between two of them in points.
#[derive(Clone, Copy, Debug, PartialEq, Eq)]
pub struct ColumnLayout {
    pub count: u32,
    pub spacing: Decimal,
}

/// A page whose content flows from top to bottom.
#[derive(Debug, PartialEq)]
pub struct FlowPage {
    pub size: PageSize,
    pub margins: Margins,
    pub content: Vec<Block>,
    pub header: Option<HeaderFooter>,
    pub footer: Option<HeaderFooter>,
    pub columns: Option<ColumnLayout>,
}

/// What the layout reads of a section's properties (`<w:sectPr>`).
pub struct SectionSetup {
    /// `<w:pgSz w:w w:h w:orient>`, in twips.
    pub width_twips: u32,
    pub height_twips: u32,
    pub orientation: Option<PageOrientation>,
    /// `<w:pgMar>`, in twips.
    pub margin_top: i32,
    pub margin_bottom: i32,
    pub margin_left: i32,
    pub margin_right: i32,
    /// Where the section's header and footer come from.
    pub header: SectionHfSources,
    pub footer: SectionHfSources,
    /// `<w:type w:val="nextColumn"/>`.
    pub next_column_break: bool,
    /// `<w:pgNumType w:start>` is given.
    pub page_number_restart: bool,
}

/// The header and footer parts of the package, converted, by relationship id
/// (each id at most once, see `build_header_footer_assets`).
pub struct HeaderFooterAssets {
    pub headers: Vec<(String, HeaderFooter)>,
    pub footers: Vec<(String, HeaderFooter)>,
}

/// A header or footer as its paragraphs and its top and bottom rules.
pub type HfContent = (Seq<HeaderFooterParagraphView>, Option<HFBorder>, Option<HFBorder>);

/// The parsed children of the first part listed under `path` at or after
/// position `i`; none where no part is listed or it could not be read or parsed.
pub open spec fn part_children(parts: Seq<(String, Option<Vec<HfChild>>)>, path: Seq<char>, i: int) -> Option<Seq<HfChild>>
    decreases parts.len() - i,
{
    if i < 0 || i >= parts.len() {
        None
    } else if parts[i].0@ == path {
        match parts[i].1 {
            Some(children) => Some(children@),
            None => None,
        }
    } else {
        part_children(parts, path, i + 1)
    }
}

/// The position of `id` among the converted parts at or after `i`, or the length.
pub open spec fn asset_index(assets: Seq<(Seq<char>, HfContent)>, id: Seq<char>, i: int) -> int
    decreases assets.len() - i,
{
    if i < 0 || i >= assets.len() {
        assets.len() as int
    } else if assets[i].0 == id {
        i
    } else {
        asset_index(assets, id, i + 1)
    }
}

/// Map-style insertion: a known id gets the new part in place, a new id is appended.
pub open spec fn asset_insert(assets: Seq<(Seq<char>, HfContent)>, id: Seq<char>, content: HfContent) -> Seq<(Seq<char>, HfContent)> {
    let k = asset_index(assets, id, 0);
    if k < assets.len() { assets.update(k, (id, content)) } else { assets.push((id, content)) }
}

/// The parts of the first `n` references (id, path), converted and recorded by
/// id; a part that is missing, unreadable, unparsable or without a paragraph
/// is left out.
pub open spec fn assets_upto(
    refs: Seq<(Seq<char>, Seq<char>)>,
    parts: Seq<(String, Option<Vec<HfChild>>)>,
    n: int,
) -> Seq<(Seq<char>, HfContent)>
    decreases n,
{
    if n <= 0 || n > refs.len() {
        Seq::empty()
    } else {
        let before = assets_upto(refs, parts, n - 1);
        match part_children(parts, refs[n - 1].1, 0) {
            Some(children) => match header_footer_of(children) {
                Some(content) => asset_insert(before, refs[n - 1].0, content),
                None => before,
            },
            None => before,
        }
    }
}

/// The converted parts of every reference.
pub open spec fn assets_of(refs: Seq<(Seq<char>, Seq<char>)>, parts: Seq<(String, Option<Vec<HfChild>>)>) -> Seq<(Seq<char>, HfContent)> {
    assets_upto(refs, parts, refs.len() as int)
}

/// The converted parts as (id, content) pairs.
pub open spec fn assets_view(assets: Seq<(String, HeaderFooter)>) -> Seq<(Seq<char>, HfContent)> {
    Seq::new(assets.len(), |k: int| (assets[k].0@, header_footer_view(assets[k].1)))
}

/// No id is recorded twice.
pub open spec fn distinct_asset_ids(assets: Seq<(Seq<char>, HfContent)>) -> bool {
    forall|i: int, j: int| 0 <= i < j < assets.len() ==> assets[i].0 != assets[j].0
}

proof fn lemma_asset_index(assets: Seq<(Seq<char>, HfContent)>, id: Seq<char>, i: int)
    requires
        0 <= i <= assets.len(),
    ensures
        i <= asset_index(assets, id, i) <= assets.len(),
        asset_index(assets, id, i) < assets.len() ==> assets[asset_index(assets, id, i)].0 == id,
        forall|j: int| i <= j < asset_index(assets, id, i) ==> assets[j].0 != id,
    decreases assets.len() - i,
{
    if i < assets.len() && assets[i].0 != id {
        lemma_asset_index(assets, id, i + 1);
    }
}

/// Recording a part keeps the ids distinct.
pub proof fn law_asset_insert_keeps_ids_distinct(assets: Seq<(Seq<char>, HfContent)>, id: Seq<char>, content: HfContent)
    requires
        distinct_asset_ids(assets),
    ensures
        distinct_asset_ids(asset_insert(assets, id, content)),
{
    lemma_asset_index(assets, id, 0);
}

/// After recording a part under `id`, `id` looks up that part, and every other
/// id looks up what it did before.
pub proof fn law_asset_lookup_after_insert(
    assets: Seq<(Seq<char>, HfContent)>,
    id: Seq<char>,
    content: HfContent,
    other: Seq<char>,
)
    requires
        distinct_asset_ids(assets),
    ensures
        ({
            let after = asset_insert(assets, id, content);
            &&& asset_index(after, id, 0) < after.len()
            &&& after[asset_index(after, id, 0)].1 == content
            &&& other != id ==> ((asset_index(after, other, 0) < after.len()) == (asset_index(assets, other, 0) < assets.len()))
            &&& other != id && asset_index(assets, other, 0) < assets.len()
                ==> after[asset_index(after, other, 0)].1 == assets[asset_index(assets, other, 0)].1
        }),
{
    let after = asset_insert(assets, id, content);
    lemma_asset_index(assets, id, 0);
    lemma_asset_index(assets, other, 0);
    law_asset_insert_keeps_ids_distinct(assets, id, content);
    lemma_asset_index(after, id, 0);
    lemma_asset_index(after, other, 0);
    let k = asset_index(assets, id, 0);
    let ka = asset_index(after, id, 0);
    if ka < after.len() && after[ka].0 == id {
        if k < assets.len() {
            assert(after[k].0 == id);
            if ka != k {
                assert(after[ka].0 == after[k].0);
            }
        } else {
            assert(after[assets.len() as int].0 == id);
            if ka != assets.len() {
                assert(after[ka].0 == after[assets.len() as int].0);
            }
        }
    } else {
        if k < assets.len() {
            assert(after[k].0 == id);
        } else {
            assert(after[assets.len() as int].0 == id);
        }
    }
    if other != id {
        let ko = asset_index(assets, other, 0);
        let kao = asset_index(after, other, 0);
        if ko < assets.len() {
            assert(after[ko].0 == other);
            if kao != ko {
                assert(kao < ko);
                assert(after[kao].0 == other);
            }
        } else if kao < after.len() {
            assert(after[kao].0 == other);
            if kao < assets.len() {
                assert(assets[kao].0 == other || kao == k);
            }
        }
    }
}

proof fn lemma_assets_upto_distinct(refs: Seq<(Seq<char>, Seq<char>)>, parts: Seq<(String, Option<Vec<HfChild>>)>, n: int)
    ensures
        distinct_asset_ids(assets_upto(refs, parts, n)),
    decreases n,
{
    if !(n <= 0 || n > refs.len()) {
        lemma_assets_upto_distinct(refs, parts, n - 1);
        let before = assets_upto(refs, parts, n - 1);
        if let Some(children) = part_children(parts, refs[n - 1].1, 0) {
            if let Some(content) = header_footer_of(children) {
                law_asset_insert_keeps_ids_distinct(before, refs[n - 1].0, content);
            }
        }
    }
}

/// The converted parts record each relationship id at most once.
pub proof fn law_asset_ids_distinct(refs: Seq<(Seq<char>, Seq<char>)>, parts: Seq<(String, Option<Vec<HfChild>>)>)
    ensures
        distinct_asset_ids(assets_of(refs, parts)),
{
    lemma_assets_upto_distinct(refs, parts, refs.len() as int);
}

fn find_part<'a>(parts: &'a [(String, Option<Vec<HfChild>>)], path: &str) -> (found: Option<&'a Vec<HfChild>>)
    ensures
        match found {
            Some(children) => part_children(parts@, path@, 0) == Some(children@),
            None => part_children(parts@, path@, 0) is None,
        },
{
    let mut i: usize = 0;
    while i < parts.len()
        invariant
            i <= parts@.len(),
            part_children(parts@, path@, i as int) == part_children(parts@, path@, 0),
        decreases parts@.len() - i,
    {
        if str_eq(parts[i].0.as_str(), path) {
            return match &parts[i].1 {
                Some(children) => Some(children),
                None => None,
            };
        }
        i = i + 1;
    }
    None
}

fn insert_asset(assets: &mut Vec<(String, HeaderFooter)>, id: String, hf: HeaderFooter)
    ensures
        assets_view(final(assets)@) == asset_insert(assets_view(old(assets)@), id@, header_footer_view(hf)),
{
    let ghost before = assets_view(assets@);
    let mut i: usize = 0;
    while i < assets.len()
        invariant
            i <= assets@.len(),
            before == assets_view(assets@),
            before == assets_view(old(assets)@),
            asset_index(before, id@, i as int) == asset_index(before, id@, 0),
        decreases assets@.len() - i,
    {
        if str_eq(assets[i].0.as_str(), id.as_str()) {
            assert(asset_index(before, id@, i as int) == i);
            let ghost content = header_footer_view(hf);
            let ghost id_view = id@;
            assert(asset_insert(before, id_view, content) == before.update(i as int, (id_view, content)));
            assets.set(i, (id, hf));
            assert(assets_view(assets@) =~= before.update(i as int, (id_view, content)));
            return;
        }
        i = i + 1;
    }
    let ghost content = header_footer_view(hf);
    let ghost id_view = id@;
    assets.push((id, hf));
    assert(assets_view(assets@) =~= before.push((id_view, content)));
}

fn collect_assets(refs: &Vec<PartReference>, parts: &[(String, Option<Vec<HfChild>>)]) -> (assets: Vec<(String, HeaderFooter)>)
    ensures
        assets_view(assets@) == assets_of(references_view(refs@), parts@),
{
    let ghost rv = references_view(refs@);
    let mut assets: Vec<(String, HeaderFooter)> = Vec::new();
    assert(assets_view(assets@) =~= Seq::<(Seq<char>, HfContent)>::empty());
    let mut i: usize = 0;
    while i < refs.len()
        invariant
            i <= refs@.len(),
            rv == references_view(refs@),
            assets_view(assets@) == assets_upto(rv, parts@, i as int),
        decreases refs@.len() - i,
    {
        assert(rv[i as int] == (refs@[i as int].id@, refs@[i as int].path@));
        if let Some(children) = find_part(parts, refs[i].path.as_str()) {
            if let Some(hf) = convert_header_footer(children.as_slice()) {
                insert_asset(&mut assets, refs[i].id.clone(), hf);
            }
        }
        i = i + 1;
    }
    assets
}

/// The header and footer parts that `word/_rels/document.xml.rels` references
/// (see `scan_header_footer_relationships`), converted and recorded by
/// relationship id. `header_parts` and `footer_parts` give, by package path,
/// the children of each part read from the package, `None` for one that could
/// not be read or parsed; a part that is not listed, not readable, or has no
/// paragraph is left out.
pub fn build_header_footer_assets(
    rels_xml: &str,
    header_parts: &[(String, Option<Vec<HfChild>>)],
    footer_parts: &[(String, Option<Vec<HfChild>>)],
) -> (assets: HeaderFooterAssets)
    ensures
        assets_view(assets.headers@) == assets_of(header_footer_relationships(xml_events_of(rels_xml@)).0, header_parts@),
        assets_view(assets.footers@) == assets_of(header_footer_relationships(xml_events_of(rels_xml@)).1, footer_parts@),
        distinct_asset_ids(assets_view(assets.headers@)),
        distinct_asset_ids(assets_view(assets.footers@)),
{
    let (header_refs, footer_refs) = scan_header_footer_relationships(rels_xml);
    let headers = collect_assets(&header_refs, header_parts);
    let footers = collect_assets(&footer_refs, footer_parts);
    proof {
        law_asset_ids_distinct(references_view(header_refs@), header_parts@);
        law_asset_ids_distinct(references_view(footer_refs@), footer_parts@);
    }
    HeaderFooterAssets { headers, footers }
}

/// A fallback of the word-processing converter.
pub open spec fn fallback(from: Seq<char>, to: Seq<char>) -> (Seq<char>, Seq<char>, Seq<char>) {
    ("DOCX"@, from, to)
}

/// The name a chart goes by in a warning.
pub open spec fn chart_name(chart: Chart) -> Seq<char> {
    match chart.title {
        Some(title) => title@,
        None => "untitled"@,
    }
}

/// One fallback to a data table for each chart among `blocks`, in order.
pub open spec fn chart_warnings(blocks: Seq<Block>) -> Seq<(Seq<char>, Seq<char>, Seq<char>)>
    decreases blocks.len(),
{
    if blocks.len() == 0 {
        Seq::empty()
    } else {
        let rest = chart_warnings(blocks.drop_last());
        match blocks.last() {
            Block::Chart(chart) => rest.push(fallback("chart ("@ + chart_name(chart) + ")"@, "data table"@)),
            _ => rest,
        }
    }
}

/// A first-page or even-page variant is given.
pub open spec fn has_variants(sources: SectionHfSources) -> bool {
    sources.first_part is Some || sources.first_reference is Some || sources.even_part is Some
        || sources.even_reference is Some
}

/// The fallbacks a section's own properties call for, in this order: a
/// next-column break becomes a page split, header/footer variants become one
/// header and footer, and a page-number restart keeps the global counter.
pub open spec fn section_warnings(setup: SectionSetup) -> Seq<(Seq<char>, Seq<char>, Seq<char>)> {
    (if setup.next_column_break {
        seq![fallback("next-column section break"@, "page-level section split"@)]
    } else {
        Seq::empty()
    }) + (if has_variants(setup.header) || has_variants(setup.footer) {
        seq![fallback("header/footer variants"@, "single header/footer per section"@)]
    } else {
        Seq::empty()
    }) + (if setup.page_number_restart {
        seq![fallback("section page number restart"@, "global page counter"@)]
    } else {
        Seq::empty()
    })
}

/// The page size of a section, or `default_size` where it gives none.
pub open spec fn section_page_size(setup: SectionSetup, default_size: PageSize) -> PageSize {
    match page_size_spec(setup.width_twips, setup.height_twips, setup.orientation) {
        Some(size) => size,
        None => default_size,
    }
}

/// The margins of a section, in points.
pub open spec fn section_margins(setup: SectionSetup) -> Margins {
    Margins {
        top: twips_points(setup.margin_top),
        bottom: twips_points(setup.margin_bottom),
        left: twips_points(setup.margin_left),
        right: twips_points(setup.margin_right),
    }
}

/// `hf` is the header (or footer) that `sources` select among `assets`.
pub open spec fn is_selected_header_footer(
    hf: Option<HeaderFooter>,
    sources: SectionHfSources,
    assets: Seq<(String, HeaderFooter)>,
) -> bool {
    match hf {
        Some(h) => section_header_footer(sources, assets) == Some(header_footer_view(h)),
        None => section_header_footer(sources, assets) is None,
    }
}

fn push_warning(warnings: &mut Vec<ConvertWarning>, from: String, to: &str)
    ensures
        warning_views(final(warnings)@) == warning_views(old(warnings)@).push(fallback(from@, to@)),
{
    let format = "DOCX".to_owned();
    let w = ConvertWarning::FallbackUsed { format, from, to: to.to_owned() };
    let ghost before = warnings@;
    warnings.push(w);
    assert(warning_views(warnings@) =~= warning_views(before).push(fallback(from@, to@)));
}

/// Appends a fallback to a data table for each chart among `blocks`.
fn warn_charts(blocks: &Vec<Block>, warnings: &mut Vec<ConvertWarning>)
    ensures
        warning_views(final(warnings)@) == warning_views(old(warnings)@) + chart_warnings(blocks@),
{
    let ghost start = warning_views(warnings@);
    let mut i: usize = 0;
    while i < blocks.len()
        invariant
            i <= blocks@.len(),
            warning_views(warnings@) == start + chart_warnings(blocks@.take(i as int)),
        decreases blocks@.len() - i,
    {
        assert(blocks@.take(i as int + 1).drop_last() =~= blocks@.take(i as int));
        if let Block::Chart(chart) = &blocks[i] {
            let mut from = "chart (".to_owned();
            match &chart.title {
                Some(title) => push_str(&mut from, title.as_str()),
                None => push_str(&mut from, "untitled"),
            }
            push_str(&mut from, ")");
            push_warning(warnings, from, "data table");
        }
        i = i + 1;
    }
    assert(blocks@.take(blocks@.len() as int) =~= blocks@);
}

/// The flow page of one section: its page setup (`default_size` where the
/// section gives no page size), its elements grouped into lists, its header
/// and footer chosen among the section's sources and the package's converted
/// parts, and its columns: `column_layout` where given, else the section's
/// own `section_columns`. The fallbacks taken are appended to `warnings`:
/// one for each chart of the content, then those of the section's properties.
pub fn build_flow_page_from_section(
    setup: &SectionSetup,
    default_size: PageSize,
    elements: Vec<TaggedElement>,
    numberings: &NumberingMap,
    assets: &HeaderFooterAssets,
    column_layout: Option<ColumnLayout>,
    section_columns: Option<ColumnLayout>,
    warnings: &mut Vec<ConvertWarning>,
) -> (page: FlowPage)
    ensures
        page.size == section_page_size(*setup, default_size),
        page.margins == section_margins(*setup),
        blocks_of_groups(page.content@, groups_from(elements@, 0, Seq::empty()), numberings@),
        is_selected_header_footer(page.header, setup.header, assets.headers@),
        is_selected_header_footer(page.footer, setup.footer, assets.footers@),
        page.columns == (if column_layout is Some { column_layout } else { section_columns }),
        warning_views(final(warnings)@)
            == warning_views(old(warnings)@) + chart_warnings(page.content@) + section_warnings(*setup),
{
    let size = match extract_page_size(setup.width_twips, setup.height_twips, setup.orientation) {
        Some(size) => size,
        None => default_size,
    };
    let margins = extract_margins(setup.margin_top, setup.margin_bottom, setup.margin_left, setup.margin_right);
    let content = group_into_lists(elements, numberings);

    let ghost start = warning_views(warnings@);
    warn_charts(&content, warnings);
    let ghost after_charts = warning_views(warnings@);

    if setup.next_column_break {
        push_warning(warnings, "next-column section break".to_owned(), "page-level section split");
    }
    let ghost after_break = warning_views(warnings@);
    let h = &setup.header;
    let f = &setup.footer;
    if h.first_reference.is_some() || f.first_reference.is_some() || h.even_reference.is_some()
        || f.even_reference.is_some() || h.first_part.is_some() || f.first_part.is_some()
        || h.even_part.is_some() || f.even_part.is_some()
    {
        push_warning(warnings, "header/footer variants".to_owned(), "single header/footer per section");
    }
    let ghost after_variants = warning_views(warnings@);
    if setup.page_number_restart {
        push_warning(warnings, "section page number restart".to_owned(), "global page counter");
    }
    proof {
        let s1: Seq<(Seq<char>, Seq<char>, Seq<char>)> = if setup.next_column_break {
            seq![fallback("next-column section break"@, "page-level section split"@)]
        } else {
            Seq::empty()
        };
        let s2: Seq<(Seq<char>, Seq<char>, Seq<char>)> = if has_variants(setup.header) || has_variants(setup.footer) {
            seq![fallback("header/footer variants"@, "single header/footer per section"@)]
        } else {
            Seq::empty()
        };
        let s3: Seq<(Seq<char>, Seq<char>, Seq<char>)> = if setup.page_number_restart {
            seq![fallback("section page number restart"@, "global page counter"@)]
        } else {
            Seq::empty()
        };
        assert(after_break =~= after_charts + s1);
        assert(after_variants =~= after_break + s2);
        assert(warning_views(warnings@) =~= after_variants + s3);
        assert(section_warnings(*setup) == s1 + s2 + s3);
        assert(warning_views(warnings@) =~= start + chart_warnings(content@) + section_warnings(*setup));
    }

    let header = extract_section_header_footer(&setup.header, assets.headers.as_slice());
    let footer = extract_section_header_footer(&setup.footer, assets.footers.as_slice());
    let columns = match column_layout {
        Some(layout) => Some(layout),
        None => section_columns,
    };
    FlowPage { size, margins, content, header, footer, columns }
}

} // verus!
