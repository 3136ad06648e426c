use office2pdf::ir::{
    Alignment, Color, Decimal, LineSpacing, Paragraph, ParagraphStyle, Run, TabAlignment, TabLeader, TabStop,
    TextDirection, TextStyle, VerticalTextAlign,
};
use office2pdf::paragraph::{generate_paragraph, needs_block_wrapper, write_block_params, write_par_settings, ParagraphMetrics};
use office2pdf::typst_text::{
    effective_font_weight, escape_typst, font_weight_rank, format_color, format_decimal, generate_run, generate_runs,
    has_text_properties, inferred_font_weight, paragraph_contains_tabs, write_run_content, write_text_params, FontChoice,
    FontTable,
};
use office2pdf::tabs::{
    build_default_tab_advance_expr, build_tab_advance_expr, build_tab_fill_expr, find_decimal_separator_offset,
    generate_runs_with_tabs, is_grouped_integer, split_runs_on_tabs, tab_fill_content_expr,
};
use office2pdf::nowrap::{generate_runs_with_tabs_no_wrap, is_cjk_like, needs_no_wrap_joiner, no_wrap_text, NoWrapState};

fn d(units: i64, scale: u32) -> Decimal {
    Decimal::new(units, scale).expect("scale in range")
}

fn run(text: &str) -> Run {
    Run { text: text.to_string(), style: TextStyle::default(), href: None, footnote: None }
}

fn no_fonts() -> FontTable {
    FontTable { entries: Vec::new() }
}

fn metrics() -> ParagraphMetrics {
    ParagraphMetrics { empty_height: d(144, 1), block_below: d(177, 1), proportional_leading: d(975, 3) }
}

fn render(style: ParagraphStyle, runs: Vec<Run>) -> String {
    let mut out = String::new();
    generate_paragraph(&mut out, &Paragraph { style, runs }, &metrics(), &no_fonts());
    out
}

#[test]
fn heading_paragraph() {
    let style = ParagraphStyle { heading_level: Some(2), ..ParagraphStyle::default() };
    assert_eq!(render(style, vec![run("Intro")]), "#heading(level: 2)[Intro]\n");
}

#[test]
fn plain_and_aligned_paragraphs() {
    assert_eq!(render(ParagraphStyle::default(), vec![run("Hello")]), "Hello\n");
    let centered = ParagraphStyle { alignment: Some(Alignment::Center), ..ParagraphStyle::default() };
    assert_eq!(render(centered, vec![run("Hello")]), "#align(center)[Hello]\n");
}

#[test]
fn empty_paragraphs_use_a_vertical_filler() {
    assert_eq!(render(ParagraphStyle::default(), Vec::new()), "#v(14.4pt)\n");
    let spaced = ParagraphStyle { space_before: Some(d(6, 0)), ..ParagraphStyle::default() };
    assert_eq!(
        render(spaced, Vec::new()),
        "#block(width: 100%, above: 6pt, below: 0pt)[\n#v(14.4pt)\n]\n"
    );
}

#[test]
fn wrapped_paragraph_with_spacing_justification_and_indent() {
    let style = ParagraphStyle {
        space_after: Some(d(6, 0)),
        line_spacing: Some(LineSpacing::Proportional(d(15, 1))),
        alignment: Some(Alignment::Justify),
        indent_left: Some(d(36, 0)),
        ..ParagraphStyle::default()
    };
    assert_eq!(
        render(style, vec![run("Text")]),
        "#block(width: 100%, below: 17.7pt, inset: (left: 36pt))[\n  #set par(leading: 0.975em)\n  #set par(justify: true)\nText\n]\n"
    );
}

#[test]
fn right_to_left_and_exact_spacing() {
    let rtl = ParagraphStyle { direction: Some(TextDirection::Rtl), ..ParagraphStyle::default() };
    assert_eq!(render(rtl, vec![run("Text")]), "#block(width: 100%)[\n  #set text(dir: rtl)\nText\n]\n");
    let exact = ParagraphStyle { line_spacing: Some(LineSpacing::Exact(d(14, 0))), ..ParagraphStyle::default() };
    let mut out = String::new();
    write_par_settings(&mut out, &exact, &metrics());
    assert_eq!(out, "  #set par(leading: 14pt)\n");
}

#[test]
fn tiny_indents_need_no_wrapper() {
    let tiny = ParagraphStyle { indent_left: Some(d(5, 5)), indent_right: Some(d(-1, 4)), ..ParagraphStyle::default() };
    assert!(!needs_block_wrapper(&tiny));
    let visible = ParagraphStyle { indent_right: Some(d(-2, 4)), ..ParagraphStyle::default() };
    assert!(needs_block_wrapper(&visible));
    let mut out = String::new();
    write_block_params(&mut out, &visible, &metrics());
    assert_eq!(out, "width: 100%, inset: (right: -0.0002pt)");
    assert!(!needs_block_wrapper(&ParagraphStyle::default()));
}

#[test]
fn escaping_typst_markup() {
    assert_eq!(escape_typst("a#b*c"), "a\\#b\\*c");
    assert_eq!(escape_typst("- item"), "\\- item");
    assert_eq!(escape_typst("-x"), "-x");
    assert_eq!(escape_typst("one\ntwo\r"), "one#linebreak()two");
    assert_eq!(escape_typst("e\u{301}"), "\u{e9}");
    assert_eq!(escape_typst(""), "");
}

#[test]
fn colors_decimals_and_weights() {
    assert_eq!(format_color(&Color { r: 1, g: 2, b: 3 }), "fill: rgb(1, 2, 3)");
    let mut out = String::new();
    format_decimal(&mut out, d(-1250, 3));
    format_decimal(&mut out, d(1200, 2));
    assert_eq!(out, "-1.2512");
    assert_eq!(inferred_font_weight(" Segoe UI Semibold "), Some("semibold"));
    assert_eq!(inferred_font_weight("Arial"), None);
    assert_eq!(font_weight_rank("bold"), 4);
    assert_eq!(font_weight_rank("unknown"), 0);
    assert!(!has_text_properties(&TextStyle::default()));
    assert!(has_text_properties(&TextStyle { italic: Some(true), ..TextStyle::default() }));
    assert!(!has_text_properties(&TextStyle { italic: Some(false), ..TextStyle::default() }));
}

fn fonts() -> FontTable {
    FontTable {
        entries: vec![
            FontChoice { family: "Arial".to_string(), value: "(\"Arial\", \"Liberation Sans\")".to_string(), primary_available: true },
            FontChoice { family: "Lato Extra Bold".to_string(), value: "\"Lato\"".to_string(), primary_available: true },
            FontChoice { family: "Missing Light".to_string(), value: "\"Noto Sans\"".to_string(), primary_available: false },
        ],
    }
}

#[test]
fn text_parameters() {
    let style = TextStyle {
        font_family: Some("Arial".to_string()),
        font_size: Some(d(12, 0)),
        bold: Some(true),
        italic: Some(true),
        color: Some(Color { r: 1, g: 2, b: 3 }),
        letter_spacing: Some(d(5, 1)),
        ..TextStyle::default()
    };
    let mut out = String::new();
    write_text_params(&mut out, &style, &fonts());
    assert_eq!(
        out,
        "font: (\"Arial\", \"Liberation Sans\"), size: 12pt, weight: \"bold\", style: \"italic\", fill: rgb(1, 2, 3), tracking: 0.5pt"
    );
}

#[test]
fn weight_from_installed_family_names() {
    let heavy = TextStyle { font_family: Some("Lato Extra Bold".to_string()), bold: Some(true), ..TextStyle::default() };
    assert_eq!(effective_font_weight(&heavy, &fonts()), Some("extrabold"));
    let missing = TextStyle { font_family: Some("Missing Light".to_string()), ..TextStyle::default() };
    assert_eq!(effective_font_weight(&missing, &fonts()), None);
    let bold = TextStyle { bold: Some(true), ..TextStyle::default() };
    assert_eq!(effective_font_weight(&bold, &fonts()), Some("bold"));
}

#[test]
fn runs_with_wrappers_footnotes_and_breaks() {
    let mut out = String::new();
    let link = Run {
        text: "site".to_string(),
        style: TextStyle { underline: Some(true), vertical_align: Some(VerticalTextAlign::Superscript), ..TextStyle::default() },
        href: Some("https://example.com".to_string()),
        footnote: None,
    };
    generate_run(&mut out, &link, &no_fonts());
    assert_eq!(out, "#link(\"https://example.com\")[#underline[#super[site]]]");

    let mut out = String::new();
    let note = Run { text: String::new(), style: TextStyle::default(), href: None, footnote: Some("See *this*".to_string()) };
    generate_run(&mut out, &note, &no_fonts());
    assert_eq!(out, "#footnote[See \\*this\\*]");

    let mut out = String::new();
    let caps = Run { text: "ab\u{b}cd".to_string(), style: TextStyle { all_caps: Some(true), ..TextStyle::default() }, href: None, footnote: None };
    generate_run(&mut out, &caps, &no_fonts());
    assert_eq!(out, "AB#linebreak()CD");

    let mut out = "x]".to_string();
    write_run_content(&mut out, "(a)", &TextStyle::default(), &no_fonts());
    assert_eq!(out, "x]#[(a)]");

    let mut out = String::new();
    generate_runs(&mut out, &[run("a"), run("b")], &no_fonts());
    assert_eq!(out, "ab");
}

#[test]
fn tab_segments_and_expressions() {
    let segments = split_runs_on_tabs(&[run("A\tB"), run(""), run("C")]);
    assert_eq!(segments.len(), 2);
    assert_eq!(segments[0].len(), 1);
    assert_eq!(segments[0][0].text, "A");
    assert_eq!(segments[1].iter().map(|r| r.text.as_str()).collect::<Vec<_>>(), vec!["B", "C"]);
    assert!(paragraph_contains_tabs(&[run("x"), run("y\tz")]));
    assert!(!paragraph_contains_tabs(&[run("x")]));

    assert_eq!(
        build_default_tab_advance_expr(2),
        "if tab_default_remainder_2 == 0 { 36pt } else { (36 - tab_default_remainder_2) * 1pt }"
    );
    assert_eq!(tab_fill_content_expr(1, TabLeader::Blank), "h(tab_advance_1)");
    assert_eq!(tab_fill_content_expr(1, TabLeader::Underscore), "box(width: tab_advance_1, repeat[\\_])");
    let stops = [TabStop { position: d(72, 0), alignment: TabAlignment::Right, leader: TabLeader::Dot }];
    assert_eq!(
        build_tab_advance_expr(1, &[run("B")], Some(&stops)),
        "if tab_prefix_width_1 < 72pt { calc.max(0pt, 72pt - tab_prefix_width_1 - tab_segment_width_1) } else { if tab_default_remainder_1 == 0 { 36pt } else { (36 - tab_default_remainder_1) * 1pt } }"
    );
    assert_eq!(
        build_tab_fill_expr(1, Some(&stops)),
        "if tab_prefix_width_1 < 72pt { box(width: tab_advance_1, repeat[.]) } else { h(tab_advance_1) }"
    );
    assert_eq!(build_tab_fill_expr(3, None), "h(tab_advance_3)");
}

#[test]
fn decimal_separators() {
    assert_eq!(find_decimal_separator_offset("12.50"), Some(2));
    assert_eq!(find_decimal_separator_offset("1,234"), None);
    assert_eq!(find_decimal_separator_offset("1,234.5"), Some(5));
    assert_eq!(find_decimal_separator_offset("abc"), None);
    assert!(is_grouped_integer("1,234,567", ','));
    assert!(!is_grouped_integer("1,23", ','));
    assert!(!is_grouped_integer("1234", ','));
}

#[test]
fn runs_with_a_tab() {
    let mut out = String::new();
    generate_runs_with_tabs(&mut out, &[run("A\tB")], None, &no_fonts());
    assert_eq!(
        out,
        "#context {\n  let tab_segment_0 = [A]\n  let tab_prefix_0 = tab_segment_0\n  let tab_segment_1 = [B]\n  let tab_prefix_width_1 = measure(tab_prefix_0).width\n  let tab_segment_width_1 = measure(tab_segment_1).width\n  let tab_default_remainder_1 = calc.rem-euclid(tab_prefix_width_1.abs.pt(), 36)\n  let tab_advance_1 = if tab_default_remainder_1 == 0 { 36pt } else { (36 - tab_default_remainder_1) * 1pt }\n  let tab_fill_1 = h(tab_advance_1)\n  let tab_prefix_1 = [#tab_prefix_0#tab_fill_1#tab_segment_1]\n  tab_prefix_1\n}"
    );
    let mut plain = String::new();
    generate_runs_with_tabs(&mut plain, &[run("A")], None, &no_fonts());
    assert_eq!(plain, "A");
}

#[test]
fn no_wrap_keeps_cjk_lines_together() {
    assert!(is_cjk_like('\u{4e2d}'));
    assert!(!is_cjk_like('a'));
    assert!(needs_no_wrap_joiner('a', 'b'));
    assert!(!needs_no_wrap_joiner(' ', 'b'));
    let mut state = NoWrapState::default();
    assert_eq!(no_wrap_text("a b", false, &mut state), "a b");
    let mut state = NoWrapState::default();
    assert_eq!(no_wrap_text("\u{4e2d}\u{6587} x", true, &mut state), "\u{4e2d}\u{2060}\u{6587}\u{a0}\u{2060}x");
    let mut out = String::new();
    generate_runs_with_tabs_no_wrap(&mut out, &[run("\u{4e2d}\u{6587}")], None, &no_fonts());
    assert_eq!(out, "\u{4e2d}\u{2060}\u{6587}");
    let mut out = String::new();
    generate_runs_with_tabs_no_wrap(&mut out, &[run("ab")], None, &no_fonts());
    assert_eq!(out, "ab");
}

#[test]
fn escaped_text_has_no_line_ends() {
    for text in ["a\r\nb", "\n\n", "line\u{2028}x\r", "#\n*"] {
        let escaped = escape_typst(text);
        assert!(!escaped.contains('\n') && !escaped.contains('\r'), "{escaped:?}");
    }
}

#[test]
fn tab_segments_hold_no_tabs() {
    let footnote = Run { footnote: Some("note\twith tab".to_string()), ..run("1") };
    let segments = split_runs_on_tabs(&[run("\t\tA\tB\t"), footnote, run("C\t")]);
    assert!(!segments.is_empty());
    assert_eq!(segments.len(), 6);
    for segment in &segments {
        for r in segment {
            assert!(r.footnote.is_some() || !r.text.contains('\t'));
        }
    }
    assert_eq!(split_runs_on_tabs(&[]).len(), 1);
}

#[test]
fn no_wrap_writer_without_cjk_matches_tab_writer() {
    let runs = vec![run("Name\tValue with spaces"), run("more text")];
    let stops = vec![TabStop { position: d(72, 0), alignment: TabAlignment::Left, leader: TabLeader::Dot }];
    let mut plain = String::from("> ");
    generate_runs_with_tabs(&mut plain, &runs, Some(&stops), &no_fonts());
    let mut no_wrap = String::from("> ");
    generate_runs_with_tabs_no_wrap(&mut no_wrap, &runs, Some(&stops), &no_fonts());
    assert_eq!(no_wrap, plain);
}
