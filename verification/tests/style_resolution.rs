use office2pdf::ir::{Alignment, Color, Decimal, ParagraphStyle, TabAlignment, TabLeader, TabStop, TextStyle};
use office2pdf::lists::NumInfo;
use office2pdf::style_map::{
    apply_tab_stop_overrides, build_style_map, decimal_less, merge_paragraph_style, merge_text_style,
    tab_stop_positions_match, ResolvedStyle, StyleDefinition, StyleKind, StyleSheet, TabStopOverride,
};

fn d(units: i64, scale: u32) -> Decimal {
    Decimal::new(units, scale).expect("scale in range")
}

fn stop(position: Decimal, alignment: TabAlignment, leader: TabLeader) -> TabStop {
    TabStop { position, alignment, leader }
}

fn positions(stops: &[TabStop]) -> Vec<(i64, u32)> {
    stops.iter().map(|s| (s.position.units(), s.position.scale())).collect()
}

fn sizes() -> [Decimal; 6] {
    [d(16, 0), d(13, 0), d(12, 0), d(11, 0), d(11, 0), d(11, 0)]
}

#[test]
fn decimal_comparisons_across_scales() {
    assert!(decimal_less(d(15, 1), d(2, 0)));
    assert!(!decimal_less(d(2, 0), d(200, 2)));
    assert!(decimal_less(d(-1, 0), d(0, 3)));
    assert!(tab_stop_positions_match(d(72, 0), d(72004, 3)));
    assert!(!tab_stop_positions_match(d(72, 0), d(7201, 2)));
    assert!(tab_stop_positions_match(d(-5, 1), d(-5, 1)));
    assert!(!tab_stop_positions_match(d(1, 0), d(2, 0)));
}

#[test]
fn overrides_place_clear_and_sort() {
    let mut stops: Vec<TabStop> = Vec::new();
    apply_tab_stop_overrides(
        &mut stops,
        &[
            TabStopOverride::Place(stop(d(72, 0), TabAlignment::Left, TabLeader::Blank)),
            TabStopOverride::Place(stop(d(36, 0), TabAlignment::Right, TabLeader::Dot)),
            TabStopOverride::Clear(d(72004, 3)),
        ],
    );
    assert_eq!(stops.len(), 1);
    assert_eq!(stops[0].position, d(36, 0));
    assert_eq!(stops[0].alignment, TabAlignment::Right);
}

#[test]
fn placing_a_stop_replaces_a_nearby_one() {
    let mut stops = vec![stop(d(10, 0), TabAlignment::Left, TabLeader::Blank), stop(d(5, 0), TabAlignment::Left, TabLeader::Blank)];
    apply_tab_stop_overrides(&mut stops, &[TabStopOverride::Place(stop(d(10001, 3), TabAlignment::Center, TabLeader::Hyphen))]);
    assert_eq!(positions(&stops), vec![(5, 0), (10001, 3)]);
    assert_eq!(stops[1].alignment, TabAlignment::Center);
}

#[test]
fn sorting_keeps_equal_positions_in_order() {
    let mut stops = vec![
        stop(d(50, 0), TabAlignment::Left, TabLeader::Blank),
        stop(d(20, 0), TabAlignment::Left, TabLeader::Blank),
        stop(d(20, 0), TabAlignment::Right, TabLeader::Blank),
    ];
    apply_tab_stop_overrides(&mut stops, &[TabStopOverride::Clear(d(100, 0))]);
    assert_eq!(positions(&stops), vec![(20, 0), (20, 0), (50, 0)]);
    assert_eq!(stops[0].alignment, TabAlignment::Left);
    assert_eq!(stops[1].alignment, TabAlignment::Right);
}

fn heading_style() -> ResolvedStyle {
    ResolvedStyle {
        text: TextStyle { color: Some(Color { r: 1, g: 2, b: 3 }), ..TextStyle::default() },
        paragraph: ParagraphStyle {
            alignment: Some(Alignment::Center),
            space_after: Some(d(6, 0)),
            tab_stops: Some(vec![stop(d(100, 0), TabAlignment::Left, TabLeader::Blank)]),
            ..ParagraphStyle::default()
        },
        paragraph_tab_overrides: None,
        heading_level: Some(1),
        style_num_info: Some(NumInfo { num_id: 1, level: 1 }),
    }
}

#[test]
fn paragraph_settings_win_over_the_style() {
    let style = heading_style();
    let explicit = ParagraphStyle {
        alignment: Some(Alignment::Right),
        indent_left: Some(d(18, 0)),
        ..ParagraphStyle::default()
    };
    let merged = merge_paragraph_style(&explicit, None, Some(&style));
    assert_eq!(merged.alignment, Some(Alignment::Right));
    assert_eq!(merged.indent_left, Some(d(18, 0)));
    assert_eq!(merged.space_after, Some(d(6, 0)));
    assert_eq!(merged.heading_level, Some(2));
    assert!(merged.heading_number.is_none());
    assert_eq!(positions(merged.tab_stops.as_deref().unwrap()), vec![(100, 0)]);

    let overrides = [TabStopOverride::Place(stop(d(50, 0), TabAlignment::Left, TabLeader::Blank))];
    let merged = merge_paragraph_style(&explicit, Some(&overrides), Some(&style));
    assert_eq!(positions(merged.tab_stops.as_deref().unwrap()), vec![(50, 0), (100, 0)]);

    let alone = merge_paragraph_style(&explicit, None, None);
    assert_eq!(alone.alignment, Some(Alignment::Right));
    assert!(alone.heading_level.is_none());
    assert!(alone.tab_stops.is_none());
}

#[test]
fn run_settings_win_and_headings_get_defaults() {
    let style = heading_style();
    let explicit = TextStyle { bold: Some(false), italic: Some(true), ..TextStyle::default() };
    let merged = merge_text_style(&explicit, Some(&style), &sizes());
    assert_eq!(merged.bold, Some(false));
    assert_eq!(merged.italic, Some(true));
    assert_eq!(merged.font_size, Some(d(13, 0)));
    assert_eq!(merged.color, Some(Color { r: 1, g: 2, b: 3 }));

    let unstyled = merge_text_style(&explicit, None, &sizes());
    assert_eq!(unstyled, explicit);
}

#[test]
fn merge_from_takes_what_is_set() {
    let mut base = TextStyle { bold: Some(true), font_family: Some("Arial".to_string()), ..TextStyle::default() };
    base.merge_from(&TextStyle { font_family: Some("Calibri".to_string()), underline: Some(true), ..TextStyle::default() });
    assert_eq!(base.bold, Some(true));
    assert_eq!(base.font_family.as_deref(), Some("Calibri"));
    assert_eq!(base.underline, Some(true));
}

fn definition(id: &str, kind: StyleKind) -> StyleDefinition {
    StyleDefinition {
        style_id: id.to_string(),
        kind,
        run_style: TextStyle::default(),
        paragraph_style: ParagraphStyle::default(),
        tab_overrides: None,
        outline_level: None,
        num_info: None,
    }
}

#[test]
fn style_map_resolves_paragraph_and_character_styles() {
    let mut heading = definition("Heading1", StyleKind::Paragraph);
    heading.outline_level = Some(0);
    heading.num_info = Some(NumInfo { num_id: 1, level: 0 });
    heading.run_style.color = Some(Color { r: 9, g: 9, b: 9 });
    let mut body = definition("BodyText", StyleKind::Paragraph);
    body.outline_level = Some(9);
    body.paragraph_style.alignment = Some(Alignment::Justify);
    let mut link = definition("Hyperlink", StyleKind::Character);
    link.run_style.color = Some(Color { r: 0, g: 0, b: 255 });
    link.run_style.underline = Some(true);
    link.run_style.bold = Some(true);
    let mut emphasis = definition("Emphasis", StyleKind::Character);
    emphasis.run_style.italic = Some(true);
    emphasis.run_style.underline = Some(true);
    let table = definition("TableGrid", StyleKind::Other);

    let sheet = StyleSheet {
        default_text: TextStyle { font_size: Some(d(11, 0)), ..TextStyle::default() },
        default_paragraph: ParagraphStyle { space_after: Some(d(8, 0)), ..ParagraphStyle::default() },
        styles: vec![heading, body, link, emphasis, table],
    };
    let map = build_style_map(&sheet, &sizes());

    let defaults = map.get("__office2pdf_doc_defaults").expect("defaults");
    assert_eq!(defaults.text.font_size, Some(d(11, 0)));

    let heading = map.get("Heading1").expect("heading");
    assert_eq!(heading.heading_level, Some(0));
    assert_eq!(heading.text.font_size, Some(d(11, 0)));
    assert_eq!(heading.text.color, Some(Color { r: 9, g: 9, b: 9 }));
    assert_eq!(heading.paragraph.space_after, Some(d(8, 0)));
    assert_eq!(heading.style_num_info, Some(NumInfo { num_id: 1, level: 0 }));

    let body = map.get("BodyText").expect("body");
    assert!(body.heading_level.is_none());
    assert_eq!(body.paragraph.alignment, Some(Alignment::Justify));

    let link = map.get("Hyperlink").expect("link");
    assert!(link.text.color.is_none());
    assert!(link.text.underline.is_none());
    assert_eq!(link.text.bold, Some(true));
    assert!(link.text.font_size.is_none());

    let emphasis = map.get("Emphasis").expect("emphasis");
    assert_eq!(emphasis.text.underline, Some(true));
    assert_eq!(emphasis.text.italic, Some(true));

    assert!(map.get("TableGrid").is_none());
    assert!(map.get("Missing").is_none());
}
