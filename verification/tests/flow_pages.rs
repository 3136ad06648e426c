use std::collections::HashMap;

use office2pdf::flow_page::{
    build_flow_page_from_section, ColumnLayout, ConvertWarning, HeaderFooterAssets, SectionSetup,
};
use office2pdf::hf_docx::{HfChild, HfParagraph, HfRun, HfRunChild, SectionHfSources};
use office2pdf::ir::{
    Block, Chart, Decimal, HFInline, HeaderFooter, HeaderFooterParagraph, Paragraph, ParagraphStyle, Run,
    TextStyle,
};
use office2pdf::lists::{NumberingMap, TaggedElement};
use office2pdf::page::{PageOrientation, PageSize};

fn d(units: i64, scale: u32) -> Decimal {
    Decimal::new(units, scale).expect("scale in range")
}

fn run(text: &str) -> Run {
    Run { text: text.to_string(), style: TextStyle::default(), href: None, footnote: None }
}

fn para(text: &str) -> Paragraph {
    Paragraph { style: ParagraphStyle::default(), runs: vec![run(text)] }
}

fn no_sources() -> SectionHfSources {
    SectionHfSources {
        default_part: None,
        default_reference: None,
        first_part: None,
        first_reference: None,
        even_part: None,
        even_reference: None,
    }
}

fn setup() -> SectionSetup {
    SectionSetup {
        width_twips: 12240,
        height_twips: 15840,
        orientation: None,
        margin_top: 1440,
        margin_bottom: 1440,
        margin_left: 1800,
        margin_right: 1800,
        header: no_sources(),
        footer: no_sources(),
        next_column_break: false,
        page_number_restart: false,
    }
}

fn a4() -> PageSize {
    PageSize { width: d(59528, 2), height: d(84189, 2) }
}

fn no_assets() -> HeaderFooterAssets {
    HeaderFooterAssets { headers: Vec::new(), footers: Vec::new() }
}

fn fallback(warning: &ConvertWarning) -> (&str, &str, &str) {
    match warning {
        ConvertWarning::FallbackUsed { format, from, to } => (format.as_str(), from.as_str(), to.as_str()),
    }
}

fn header_text(hf: &HeaderFooter) -> String {
    hf.paragraphs
        .iter()
        .flat_map(|paragraph| paragraph.elements.iter())
        .filter_map(|element| match element {
            HFInline::Run(run) => Some(run.text.clone()),
            _ => None,
        })
        .collect()
}

#[test]
fn flow_page_takes_the_section_page_setup() {
    let mut warnings = Vec::new();
    let numberings: NumberingMap = HashMap::new();
    let page = build_flow_page_from_section(
        &setup(),
        a4(),
        vec![TaggedElement::Plain(vec![Block::Paragraph(para("Body"))])],
        &numberings,
        &no_assets(),
        None,
        None,
        &mut warnings,
    );
    assert_eq!(page.size, PageSize { width: d(6120, 1), height: d(7920, 1) });
    assert_eq!(page.margins.top, d(7200, 2));
    assert_eq!(page.margins.left, d(9000, 2));
    assert_eq!(page.content.len(), 1);
    assert!(page.header.is_none());
    assert!(page.footer.is_none());
    assert!(page.columns.is_none());
    assert!(warnings.is_empty());
}

#[test]
fn flow_page_without_page_size_keeps_the_default() {
    let mut warnings = Vec::new();
    let numberings: NumberingMap = HashMap::new();
    let section = SectionSetup { width_twips: 0, ..setup() };
    let page = build_flow_page_from_section(&section, a4(), Vec::new(), &numberings, &no_assets(), None, None, &mut warnings);
    assert_eq!(page.size, a4());
    assert!(page.content.is_empty());
}

#[test]
fn flow_page_turns_landscape_sections() {
    let mut warnings = Vec::new();
    let numberings: NumberingMap = HashMap::new();
    let section = SectionSetup { orientation: Some(PageOrientation::Landscape), ..setup() };
    let page = build_flow_page_from_section(&section, a4(), Vec::new(), &numberings, &no_assets(), None, None, &mut warnings);
    assert_eq!(page.size, PageSize { width: d(7920, 1), height: d(6120, 1) });
}

#[test]
fn charts_fall_back_to_data_tables() {
    let mut warnings = vec![ConvertWarning::FallbackUsed {
        format: "XLSX".to_string(),
        from: "earlier".to_string(),
        to: "kept".to_string(),
    }];
    let numberings: NumberingMap = HashMap::new();
    let elements = vec![TaggedElement::Plain(vec![
        Block::Chart(Chart { title: Some("Sales".to_string()) }),
        Block::Paragraph(para("Between")),
        Block::Chart(Chart { title: None }),
    ])];
    let page = build_flow_page_from_section(&setup(), a4(), elements, &numberings, &no_assets(), None, None, &mut warnings);
    assert_eq!(page.content.len(), 3);
    assert_eq!(warnings.len(), 3);
    assert_eq!(fallback(&warnings[0]), ("XLSX", "earlier", "kept"));
    assert_eq!(fallback(&warnings[1]), ("DOCX", "chart (Sales)", "data table"));
    assert_eq!(fallback(&warnings[2]), ("DOCX", "chart (untitled)", "data table"));
}

#[test]
fn section_features_without_support_are_reported_in_order() {
    let mut warnings = Vec::new();
    let numberings: NumberingMap = HashMap::new();
    let section = SectionSetup {
        next_column_break: true,
        page_number_restart: true,
        footer: SectionHfSources { even_reference: Some("rId9".to_string()), ..no_sources() },
        ..setup()
    };
    build_flow_page_from_section(&section, a4(), Vec::new(), &numberings, &no_assets(), None, None, &mut warnings);
    let found: Vec<(&str, &str, &str)> = warnings.iter().map(fallback).collect();
    assert_eq!(
        found,
        vec![
            ("DOCX", "next-column section break", "page-level section split"),
            ("DOCX", "header/footer variants", "single header/footer per section"),
            ("DOCX", "section page number restart", "global page counter"),
        ]
    );
}

#[test]
fn flow_page_header_prefers_the_default_variant() {
    let mut warnings = Vec::new();
    let numberings: NumberingMap = HashMap::new();
    let referenced = HeaderFooter {
        paragraphs: vec![HeaderFooterParagraph {
            style: ParagraphStyle::default(),
            elements: vec![HFInline::Run(run("Referenced Header"))],
        }],
        top_border: None,
        bottom_border: None,
    };
    let assets = HeaderFooterAssets { headers: vec![("rId3".to_string(), referenced)], footers: Vec::new() };
    let first_page = HfChild::Paragraph(HfParagraph {
        style: ParagraphStyle::default(),
        tab_overrides: None,
        runs: vec![HfRun { style: TextStyle::default(), children: vec![HfRunChild::Text("First Page".to_string())] }],
    });
    let section = SectionSetup {
        header: SectionHfSources {
            default_reference: Some("rId3".to_string()),
            first_part: Some(vec![first_page]),
            ..no_sources()
        },
        ..setup()
    };
    let layout = ColumnLayout { count: 2, spacing: d(36, 0) };
    let page = build_flow_page_from_section(
        &section,
        a4(),
        Vec::new(),
        &numberings,
        &assets,
        None,
        Some(layout),
        &mut warnings,
    );
    assert_eq!(header_text(page.header.as_ref().expect("header")), "Referenced Header");
    assert_eq!(page.columns, Some(layout));
    assert_eq!(warnings.len(), 1);
    assert_eq!(fallback(&warnings[0]).1, "header/footer variants");

    let explicit = ColumnLayout { count: 3, spacing: d(18, 0) };
    let page = build_flow_page_from_section(
        &setup(),
        a4(),
        Vec::new(),
        &numberings,
        &assets,
        Some(explicit),
        Some(layout),
        &mut warnings,
    );
    assert_eq!(page.columns, Some(explicit));
}
