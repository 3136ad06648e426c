use office2pdf::docx_props::{
    extract_indent, extract_line_spacing, extract_num_info, extract_paragraph_style_from_properties,
    extract_run_style_from_properties, extract_style_num_info, resolve_hyperlink_url, HyperlinkTarget,
    IndentProperties, LineRule, LineSpacingProperties, ParagraphProperties, RunProperties, SpecialIndent,
};
use office2pdf::ir::{Alignment, Color, Decimal, LineSpacing, TabAlignment, TabLeader, TabStop, VerticalTextAlign};
use office2pdf::lists::NumInfo;
use office2pdf::style_map::{RawTab, TabKind, TabLeaderKind};

fn d(units: i64, scale: u32) -> Decimal {
    Decimal::new(units, scale).expect("scale in range")
}

fn value(d: Option<Decimal>) -> Option<f64> {
    d.map(|d| d.units() as f64 / 10f64.powi(d.scale() as i32))
}

#[test]
fn run_properties_give_text_style() {
    let props = RunProperties {
        bold: Some(true),
        italic: Some(false),
        underline: Some("single".to_string()),
        strike: Some(true),
        size_half_points: Some(24),
        color: Some("FF0000".to_string()),
        font_ascii: None,
        font_hi_ansi: None,
        font_east_asia: Some("MS Mincho".to_string()),
        font_cs: Some("Arial".to_string()),
        highlight: Some("yellow".to_string()),
        vertical_align: Some("superscript".to_string()),
        caps: Some(true),
        character_spacing: Some(-30),
    };
    let style = extract_run_style_from_properties(&props);
    assert_eq!(style.bold, Some(true));
    assert_eq!(style.italic, Some(false));
    assert_eq!(style.underline, Some(true));
    assert_eq!(style.strikethrough, Some(true));
    assert_eq!(value(style.font_size), Some(12.0));
    assert_eq!(style.color, Some(Color::new(255, 0, 0)));
    assert_eq!(style.font_family.as_deref(), Some("MS Mincho"));
    assert_eq!(style.highlight, Some(Color::new(255, 255, 0)));
    assert_eq!(style.vertical_align, Some(VerticalTextAlign::Superscript));
    assert_eq!(style.all_caps, Some(true));
    assert_eq!(style.small_caps, None);
    assert_eq!(value(style.letter_spacing), Some(-1.5));
}

#[test]
fn underline_none_and_unknown_values_set_nothing() {
    let props = RunProperties {
        underline: Some("none".to_string()),
        vertical_align: Some("baseline".to_string()),
        color: Some("auto".to_string()),
        highlight: Some("none".to_string()),
        font_ascii: Some("Calibri".to_string()),
        font_cs: Some("Arial".to_string()),
        ..RunProperties::empty()
    };
    let style = extract_run_style_from_properties(&props);
    assert_eq!(style.underline, None);
    assert_eq!(style.vertical_align, None);
    assert_eq!(style.color, None);
    assert_eq!(style.highlight, None);
    assert_eq!(style.font_family.as_deref(), Some("Calibri"));
    let plain = extract_run_style_from_properties(&RunProperties::empty());
    assert!(plain.bold.is_none() && plain.font_size.is_none() && plain.font_family.is_none());
}

#[test]
fn indents_are_points_with_negative_hanging() {
    let indent = Some(IndentProperties { start: Some(720), end: Some(-140), special: Some(SpecialIndent::Hanging(360)) });
    let (left, right, first_line) = extract_indent(&indent);
    assert_eq!(value(left), Some(36.0));
    assert_eq!(value(right), Some(-7.0));
    assert_eq!(value(first_line), Some(-18.0));
    let indent = Some(IndentProperties { start: None, end: None, special: Some(SpecialIndent::FirstLine(284)) });
    let (left, _, first_line) = extract_indent(&indent);
    assert_eq!(left, None);
    assert_eq!(value(first_line), Some(14.2));
    assert_eq!(extract_indent(&None), (None, None, None));
}

#[test]
fn line_spacing_rules() {
    let exact = LineSpacingProperties {
        rule: Some(LineRule::Exact),
        line: Some(280),
        line_count: Some(d(11666666666666666, 16)),
        before: Some(240),
        after: Some(0),
    };
    let (line, before, after) = extract_line_spacing(&Some(exact));
    assert_eq!(line, Some(LineSpacing::Exact(d(1400, 2))));
    assert_eq!(value(before), Some(12.0));
    assert_eq!(value(after), Some(0.0));
    let at_least = LineSpacingProperties { rule: Some(LineRule::AtLeast), ..exact };
    assert_eq!(extract_line_spacing(&Some(at_least)).0, Some(LineSpacing::Exact(d(1400, 2))));
    let auto = LineSpacingProperties { rule: None, line: Some(360), line_count: Some(d(15, 1)), before: None, after: None };
    assert_eq!(extract_line_spacing(&Some(auto)), (Some(LineSpacing::Proportional(d(15, 1))), None, None));
    let no_line = LineSpacingProperties { line: None, ..auto };
    assert_eq!(extract_line_spacing(&Some(no_line)).0, None);
}

#[test]
fn paragraph_properties_give_paragraph_style() {
    let props = ParagraphProperties {
        alignment: Some("both".to_string()),
        indent: Some(IndentProperties { start: Some(1440), end: None, special: None }),
        spacing: Some(LineSpacingProperties {
            rule: Some(LineRule::Auto),
            line: Some(480),
            line_count: Some(d(2, 0)),
            before: None,
            after: Some(120),
        }),
        run: RunProperties { size_half_points: Some(21), ..RunProperties::empty() },
        tabs: vec![
            RawTab { val: Some(TabKind::Right), leader: Some(TabLeaderKind::Dot), pos: Some(9000) },
            RawTab { val: Some(TabKind::Left), leader: None, pos: Some(720) },
        ],
    };
    let style = extract_paragraph_style_from_properties(&props);
    assert_eq!(style.alignment, Some(Alignment::Justify));
    assert_eq!(value(style.indent_left), Some(72.0));
    assert_eq!(style.indent_right, None);
    assert_eq!(value(style.font_size), Some(10.5));
    assert_eq!(style.line_spacing, Some(LineSpacing::Proportional(d(2, 0))));
    assert_eq!(value(style.space_after), Some(6.0));
    assert_eq!(style.heading_level, None);
    let stops = style.tab_stops.expect("tab stops");
    assert_eq!(
        stops,
        vec![
            TabStop { position: d(3600, 2), alignment: TabAlignment::Left, leader: TabLeader::Blank },
            TabStop { position: d(45000, 2), alignment: TabAlignment::Right, leader: TabLeader::Dot },
        ]
    );
    let bare = ParagraphProperties {
        alignment: Some("distribute".to_string()),
        indent: None,
        spacing: None,
        run: RunProperties::empty(),
        tabs: Vec::new(),
    };
    let style = extract_paragraph_style_from_properties(&bare);
    assert_eq!(style.alignment, None);
    assert_eq!(style.tab_stops, None);
    assert_eq!(style.font_size, None);
}

#[test]
fn numbering_references() {
    assert_eq!(extract_style_num_info(Some(3), Some(2)), Some(NumInfo { num_id: 3, level: 2 }));
    assert_eq!(extract_style_num_info(Some(3), None), Some(NumInfo { num_id: 3, level: 0 }));
    assert_eq!(extract_style_num_info(Some(0), Some(1)), None);
    assert_eq!(extract_style_num_info(None, Some(1)), None);
    assert_eq!(extract_num_info(true, Some(5), Some(1)), Some(NumInfo { num_id: 5, level: 1 }));
    assert_eq!(extract_num_info(false, Some(5), Some(1)), None);
}

#[test]
fn hyperlink_targets() {
    let links = vec![("rId4".to_string(), "https://example.com".to_string())];
    let direct = HyperlinkTarget::External { rid: "rId4".to_string(), path: "https://direct.example".to_string() };
    assert_eq!(resolve_hyperlink_url(&direct, &links).as_deref(), Some("https://direct.example"));
    let by_id = HyperlinkTarget::External { rid: "rId4".to_string(), path: String::new() };
    assert_eq!(resolve_hyperlink_url(&by_id, &links).as_deref(), Some("https://example.com"));
    let unknown = HyperlinkTarget::External { rid: "rId9".to_string(), path: String::new() };
    assert_eq!(resolve_hyperlink_url(&unknown, &links), None);
    let anchor = HyperlinkTarget::Anchor { anchor: "_Toc1".to_string() };
    assert_eq!(resolve_hyperlink_url(&anchor, &links), None);
}
