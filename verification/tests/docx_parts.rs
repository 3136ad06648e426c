use office2pdf::hf_docx::{
    convert_header_footer, convert_hf_paragraph, convert_hf_table_to_paragraphs, extract_hf_run_elements,
    extract_section_header_footer, HfChild, HfField, HfFieldState, HfParagraph, HfRun, HfRunChild, HfTable, HfTableCell,
    RawBorder, SectionHfSources,
};
use office2pdf::ir::{Alignment, Decimal, HFBorder, HFBorderStyle, HFInline, HeaderFooter, ParagraphStyle, TabAlignment, TabLeader, TextStyle};
use office2pdf::page::{
    break_kind, extract_margins, extract_page_size, extract_run_text, extract_run_text_skip_column_breaks, is_column_break,
    is_page_break, BreakKind, PageOrientation, RunTextChild,
};
use office2pdf::flow_page::build_header_footer_assets;
use office2pdf::hf_docx::{
    collect_hf_paragraph_children, collect_hf_sdt_children, extract_hf_table_bottom_border, extract_hf_table_top_border,
    HfInlineChild,
};
use office2pdf::style_map::{extract_tab_stop_overrides, extract_tab_stops, RawTab, TabKind, TabLeaderKind, TabStopOverride};

fn to_f64(d: Decimal) -> f64 {
    d.units() as f64 / 10f64.powi(d.scale() as i32)
}

#[test]
fn test_extract_page_size_orient_landscape_swaps_dimensions() {
    let result = extract_page_size(11906, 16838, Some(PageOrientation::Landscape)).expect("page size");
    assert!(
        to_f64(result.width) > to_f64(result.height),
        "orient=landscape should ensure width ({}) > height ({})",
        to_f64(result.width),
        to_f64(result.height)
    );
}

#[test]
fn test_extract_page_size_no_orient_keeps_dimensions() {
    let result = extract_page_size(11906, 16838, None).expect("page size");
    assert!(
        to_f64(result.width) < to_f64(result.height),
        "No orient: width ({}) should be < height ({})",
        to_f64(result.width),
        to_f64(result.height)
    );
}

#[test]
fn test_extract_page_size_rounds_sub_twip_section_noise_to_half_points() {
    let first = extract_page_size(11906, 16838, None).expect("page size");
    let second = extract_page_size(11907, 16839, None).expect("page size");
    assert_eq!(to_f64(first.width), 595.5);
    assert_eq!(to_f64(first.height), 842.0);
    assert_eq!(first.width, second.width);
    assert_eq!(first.height, second.height);
}

#[test]
fn page_size_needs_both_dimensions_and_margins_are_exact() {
    assert!(extract_page_size(0, 16838, None).is_none());
    assert!(extract_page_size(12240, 0, Some(PageOrientation::Portrait)).is_none());
    let letter = extract_page_size(12240, 15840, Some(PageOrientation::Portrait)).expect("page size");
    assert_eq!((to_f64(letter.width), to_f64(letter.height)), (612.0, 792.0));
    let margins = extract_margins(1440, 720, -15, 1);
    assert_eq!(to_f64(margins.top), 72.0);
    assert_eq!(to_f64(margins.bottom), 36.0);
    assert_eq!(to_f64(margins.left), -0.75);
    assert_eq!(to_f64(margins.right), 0.05);
}

#[test]
fn run_text_with_tabs_and_breaks() {
    let children = vec![
        RunTextChild::Text("a".to_string()),
        RunTextChild::Tab,
        RunTextChild::Break(BreakKind::Line),
        RunTextChild::Break(BreakKind::Page),
        RunTextChild::Other,
        RunTextChild::Break(BreakKind::Column),
        RunTextChild::Text("b".to_string()),
    ];
    assert_eq!(extract_run_text(&children), "a\t\n\n\nb");
    assert_eq!(extract_run_text_skip_column_breaks(&children), "a\t\nb");
}

#[test]
fn tabs_become_stop_changes() {
    let tabs = [
        RawTab { val: Some(TabKind::Right), leader: Some(TabLeaderKind::Dot), pos: Some(9360) },
        RawTab { val: Some(TabKind::Clear), leader: None, pos: Some(720) },
        RawTab { val: Some(TabKind::Center), leader: None, pos: None },
        RawTab { val: None, leader: Some(TabLeaderKind::Heavy), pos: Some(1) },
    ];
    let overrides = extract_tab_stop_overrides(&tabs).expect("changes");
    assert_eq!(overrides.len(), 3);
    match overrides[0] {
        TabStopOverride::Place(stop) => {
            assert_eq!(to_f64(stop.position), 468.0);
            assert_eq!(stop.alignment, TabAlignment::Right);
            assert_eq!(stop.leader, TabLeader::Dot);
        },
        other => panic!("expected a stop, got {other:?}"),
    }
    assert!(matches!(overrides[1], TabStopOverride::Clear(p) if to_f64(p) == 36.0));
    match overrides[2] {
        TabStopOverride::Place(stop) => {
            assert_eq!(to_f64(stop.position), 0.05);
            assert_eq!(stop.alignment, TabAlignment::Left);
            assert_eq!(stop.leader, TabLeader::Hyphen);
        },
        other => panic!("expected a stop, got {other:?}"),
    }
    assert!(extract_tab_stop_overrides(&[]).is_none());
    let stops = extract_tab_stops(&tabs).expect("stops");
    assert_eq!(stops.iter().map(|s| to_f64(s.position)).collect::<Vec<_>>(), vec![0.05, 468.0]);
}

fn text_run(text: &str) -> HfRun {
    HfRun { style: TextStyle::default(), children: vec![HfRunChild::Text(text.to_string())] }
}

fn texts(elements: &[HFInline]) -> Vec<String> {
    elements
        .iter()
        .map(|e| match e {
            HFInline::Run(r) => r.text.clone(),
            HFInline::PageNumber => "<page>".to_string(),
            HFInline::TotalPages => "<pages>".to_string(),
            HFInline::Spacer => "<spacer>".to_string(),
        })
        .collect()
}

#[test]
fn page_field_split_over_runs_yields_one_page_number() {
    let runs = vec![
        HfRun { style: TextStyle::default(), children: vec![HfRunChild::Text("Page ".to_string())] },
        HfRun { style: TextStyle::default(), children: vec![HfRunChild::FieldBegin] },
        HfRun { style: TextStyle::default(), children: vec![HfRunChild::InstrString(" PAGE   \\* MERGEFORMAT ".to_string())] },
        HfRun { style: TextStyle::default(), children: vec![HfRunChild::FieldSeparate] },
        HfRun { style: TextStyle::default(), children: vec![HfRunChild::Text("1".to_string())] },
        HfRun { style: TextStyle::default(), children: vec![HfRunChild::FieldEnd] },
        HfRun { style: TextStyle::default(), children: vec![HfRunChild::Text(" of ".to_string())] },
        HfRun {
            style: TextStyle::default(),
            children: vec![HfRunChild::FieldBegin, HfRunChild::InstrNumPages, HfRunChild::Tab, HfRunChild::FieldEnd],
        },
    ];
    let paragraph = HfParagraph { style: ParagraphStyle::default(), tab_overrides: None, runs };
    let converted = convert_hf_paragraph(&paragraph);
    assert_eq!(texts(&converted.elements), vec!["Page ", "<page>", " of ", "<pages>"]);
}

#[test]
fn field_state_carries_across_calls() {
    let mut elements = Vec::new();
    let mut state = HfFieldState::new();
    extract_hf_run_elements(&[HfRunChild::FieldBegin, HfRunChild::InstrString("numpages".to_string())], &TextStyle::default(), &mut elements, &mut state);
    assert!(elements.is_empty());
    assert!(state.in_field);
    assert_eq!(state.field_inline, Some(HfField::TotalPages));
    extract_hf_run_elements(&[HfRunChild::InstrString("PAGEREF x".to_string()), HfRunChild::FieldEnd, HfRunChild::Tab], &TextStyle::default(), &mut elements, &mut state);
    assert_eq!(texts(&elements), vec!["<pages>", "\t"]);
    assert!(!state.in_field);
}

fn cell(paragraph_texts: &[&str], bottom: Option<(&str, Option<u64>)>) -> HfTableCell {
    HfTableCell {
        paragraphs: paragraph_texts
            .iter()
            .map(|t| HfParagraph {
                style: ParagraphStyle { alignment: Some(Alignment::Right), ..ParagraphStyle::default() },
                tab_overrides: None,
                runs: vec![text_run(t)],
            })
            .collect(),
        bottom_border: bottom.map(|(kind, size)| RawBorder { border_type: kind.to_string(), size }),
    }
}

#[test]
fn layout_table_lines_and_borders() {
    let table = HfTable {
        rows: vec![vec![cell(&["Title"], Some(("nil", None))), cell(&[], None), cell(&["Page", "SULIT"], Some(("single", Some(12))))]],
        top_border: Some(RawBorder { border_type: "thickThinSmallGap".to_string(), size: None }),
    };
    let (paragraphs, top, bottom) = convert_hf_table_to_paragraphs(&table);
    assert_eq!(paragraphs.len(), 2);
    assert_eq!(texts(&paragraphs[0].elements), vec!["Title", "<spacer>", "<spacer>", "Page"]);
    assert_eq!(texts(&paragraphs[1].elements), vec!["<spacer>", "<spacer>", "SULIT"]);
    assert_eq!(paragraphs[0].style.alignment, Some(Alignment::Right));
    assert_eq!(top, Some(HFBorder { thickness_eighths: 4, style: HFBorderStyle::Double }));
    assert_eq!(bottom, Some(HFBorder { thickness_eighths: 12, style: HFBorderStyle::Single }));

    let bare = HfTable { rows: vec![vec![cell(&[], None)]], top_border: Some(RawBorder { border_type: "none".to_string(), size: Some(8) }) };
    let (paragraphs, top, bottom) = convert_hf_table_to_paragraphs(&bare);
    assert!(paragraphs.is_empty());
    assert!(top.is_none());
    assert!(bottom.is_none());
}

#[test]
fn header_parts_and_section_choice() {
    let paragraph = HfParagraph { style: ParagraphStyle::default(), tab_overrides: None, runs: vec![text_run("Header text")] };
    let table = HfTable { rows: vec![vec![cell(&["L"], None), cell(&["R"], Some(("double", Some(6))))]], top_border: None };
    let header = convert_header_footer(&[HfChild::Other, HfChild::Paragraph(paragraph), HfChild::Table(table)]).expect("header");
    assert_eq!(header.paragraphs.len(), 2);
    assert_eq!(texts(&header.paragraphs[0].elements), vec!["Header text"]);
    assert_eq!(texts(&header.paragraphs[1].elements), vec!["L", "<spacer>", "R"]);
    assert!(header.top_border.is_none());
    assert_eq!(header.bottom_border, Some(HFBorder { thickness_eighths: 6, style: HFBorderStyle::Double }));
    assert!(convert_header_footer(&[HfChild::Other]).is_none());

    let asset = HeaderFooter {
        paragraphs: header.paragraphs.clone(),
        top_border: None,
        bottom_border: None,
    };
    let assets = vec![("rId7".to_string(), asset)];
    let by_reference = SectionHfSources {
        default_part: Some(vec![HfChild::Other]),
        default_reference: Some("rId7".to_string()),
        first_part: None,
        first_reference: None,
        even_part: None,
        even_reference: None,
    };
    let chosen = extract_section_header_footer(&by_reference, &assets).expect("referenced header");
    assert_eq!(chosen.paragraphs.len(), 2);
    let first_only = SectionHfSources {
        default_part: None,
        default_reference: Some("missing".to_string()),
        first_part: Some(vec![HfChild::Paragraph(HfParagraph { style: ParagraphStyle::default(), tab_overrides: None, runs: vec![text_run("First")] })]),
        first_reference: None,
        even_part: None,
        even_reference: None,
    };
    let chosen = extract_section_header_footer(&first_only, &assets).expect("first-page header");
    assert_eq!(texts(&chosen.paragraphs[0].elements), vec!["First"]);
    let none = SectionHfSources { default_part: None, default_reference: None, first_part: None, first_reference: None, even_part: None, even_reference: None };
    assert!(extract_section_header_footer(&none, &assets).is_none());
}

#[test]
fn break_types_name_page_column_or_line_breaks() {
    assert!(is_page_break(Some("page")));
    assert!(!is_page_break(Some("column")));
    assert!(!is_page_break(None));
    assert!(is_column_break(Some("column")));
    assert!(!is_column_break(Some("textWrapping")));
    assert_eq!(break_kind(Some("page")), BreakKind::Page);
    assert_eq!(break_kind(Some("column")), BreakKind::Column);
    assert_eq!(break_kind(Some("textWrapping")), BreakKind::Line);
    assert_eq!(break_kind(None), BreakKind::Line);
}

#[test]
fn layout_table_borders() {
    let raw = |t: &str, size: Option<u64>| RawBorder { border_type: t.to_string(), size };
    let cell = |bottom: Option<RawBorder>| HfTableCell { paragraphs: Vec::new(), bottom_border: bottom };
    let table = HfTable {
        rows: vec![
            vec![cell(Some(raw("nil", Some(8)))), cell(None)],
            vec![cell(Some(raw("single", None))), cell(Some(raw("double", Some(12))))],
        ],
        top_border: Some(raw("thickThinSmallGap", Some(24))),
    };
    assert_eq!(extract_hf_table_top_border(&table), Some(HFBorder { thickness_eighths: 24, style: HFBorderStyle::Double }));
    assert_eq!(extract_hf_table_bottom_border(&table), Some(HFBorder { thickness_eighths: 4, style: HFBorderStyle::Single }));
    let bare = HfTable { rows: vec![vec![cell(Some(raw("none", None)))]], top_border: Some(raw("nil", None)) };
    assert_eq!(extract_hf_table_top_border(&bare), None);
    assert_eq!(extract_hf_table_bottom_border(&bare), None);
}

#[test]
fn content_controls_are_read_in_document_order() {
    let text_of = |run: &HfRun| match &run.children[0] {
        HfRunChild::Text(t) => t.clone(),
        _ => String::new(),
    };
    let children = vec![
        HfInlineChild::Run(text_run("a")),
        HfInlineChild::Group(vec![
            HfInlineChild::Run(text_run("b")),
            HfInlineChild::Other,
            HfInlineChild::Group(vec![HfInlineChild::Run(text_run("c"))]),
        ]),
        HfInlineChild::Other,
        HfInlineChild::Run(text_run("d")),
    ];
    let mut runs = vec![text_run("start")];
    collect_hf_sdt_children(children, &mut runs);
    let texts: Vec<String> = runs.iter().map(text_of).collect();
    assert_eq!(texts, vec!["start", "a", "b", "c", "d"]);
}

#[test]
fn field_split_across_a_content_control_shows_the_page_number() {
    let run_of = |children: Vec<HfRunChild>| HfRun { style: TextStyle::default(), children };
    let children = vec![
        HfInlineChild::Run(text_run("Page ")),
        HfInlineChild::Group(vec![
            HfInlineChild::Run(run_of(vec![HfRunChild::FieldBegin])),
            HfInlineChild::Run(run_of(vec![HfRunChild::InstrString(" PAGE \\* MERGEFORMAT ".to_string())])),
            HfInlineChild::Run(run_of(vec![HfRunChild::FieldSeparate, HfRunChild::Text("7".to_string())])),
        ]),
        HfInlineChild::Run(run_of(vec![HfRunChild::FieldEnd])),
    ];
    let mut runs = Vec::new();
    collect_hf_sdt_children(children, &mut runs);
    let mut elements = Vec::new();
    let mut state = HfFieldState::new();
    collect_hf_paragraph_children(&runs, &mut elements, &mut state);
    assert_eq!(elements.len(), 2);
    assert!(matches!(&elements[0], HFInline::Run(r) if r.text == "Page "));
    assert!(matches!(elements[1], HFInline::PageNumber));
}

#[test]
fn header_footer_assets_by_relationship_id() {
    let rels = "<Relationships>\
        <Relationship Id=\"rId7\" Type=\"x/header\" Target=\"header1.xml\"/>\
        <Relationship Id=\"rId8\" Type=\"x/header\" Target=\"header2.xml\"/>\
        <Relationship Id=\"rId9\" Type=\"x/header\" Target=\"header3.xml\"/>\
        <Relationship Id=\"rId10\" Type=\"x/footer\" Target=\"footer1.xml\"/>\
        <Relationship Id=\"rId11\" Type=\"x/styles\" Target=\"styles.xml\"/>\
        </Relationships>";
    let paragraph = |text: &str| HfChild::Paragraph(HfParagraph { style: ParagraphStyle::default(), tab_overrides: None, runs: vec![text_run(text)] });
    let header_parts = vec![
        ("word/header1.xml".to_string(), Some(vec![paragraph("One")])),
        ("word/header2.xml".to_string(), Some(vec![HfChild::Other])),
        ("word/header3.xml".to_string(), None),
    ];
    let footer_parts = vec![("word/footer1.xml".to_string(), Some(vec![paragraph("Foot")]))];
    let assets = build_header_footer_assets(rels, &header_parts, &footer_parts);
    assert_eq!(assets.headers.len(), 1);
    assert_eq!(assets.headers[0].0, "rId7");
    assert_eq!(texts(&assets.headers[0].1.paragraphs[0].elements), vec!["One"]);
    assert_eq!(assets.footers.len(), 1);
    assert_eq!(assets.footers[0].0, "rId10");
    assert_eq!(texts(&assets.footers[0].1.paragraphs[0].elements), vec!["Foot"]);
    let none = build_header_footer_assets(rels, &[], &[]);
    assert!(none.headers.is_empty() && none.footers.is_empty());
}
