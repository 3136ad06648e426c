use office2pdf::hf::{build_hf_elements, parse_hf_format_string};
use office2pdf::ir::{Alignment, HFInline};

fn run_text(inline: &HFInline) -> &str {
    match inline {
        HFInline::Run(run) => run.text.as_str(),
        other => panic!("expected a run, got {other:?}"),
    }
}

#[test]
fn sections_become_aligned_paragraphs() {
    let hf = parse_hf_format_string("&LLeft&CCenter&RRight").expect("three sections");
    assert_eq!(hf.paragraphs.len(), 3);
    assert_eq!(hf.paragraphs[0].style.alignment, Some(Alignment::Left));
    assert_eq!(hf.paragraphs[1].style.alignment, Some(Alignment::Center));
    assert_eq!(hf.paragraphs[2].style.alignment, Some(Alignment::Right));
    assert_eq!(run_text(&hf.paragraphs[0].elements[0]), "Left");
    assert_eq!(run_text(&hf.paragraphs[1].elements[0]), "Center");
    assert_eq!(run_text(&hf.paragraphs[2].elements[0]), "Right");
    assert!(hf.top_border.is_none());
    assert!(hf.bottom_border.is_none());
}

#[test]
fn page_number_and_total_pages_codes() {
    let hf = parse_hf_format_string("Page &P of &N").expect("one section");
    assert_eq!(hf.paragraphs.len(), 1);
    let elements = &hf.paragraphs[0].elements;
    assert_eq!(elements.len(), 4);
    assert_eq!(run_text(&elements[0]), "Page ");
    assert!(matches!(elements[1], HFInline::PageNumber));
    assert_eq!(run_text(&elements[2]), " of ");
    assert!(matches!(elements[3], HFInline::TotalPages));
}

#[test]
fn plain_text_is_centered() {
    let hf = parse_hf_format_string("Quarterly report").expect("text");
    assert_eq!(hf.paragraphs.len(), 1);
    assert_eq!(hf.paragraphs[0].style.alignment, Some(Alignment::Center));
    assert_eq!(run_text(&hf.paragraphs[0].elements[0]), "Quarterly report");
}

#[test]
fn empty_or_blank_format_gives_none() {
    assert!(parse_hf_format_string("").is_none());
    assert!(parse_hf_format_string("   \t ").is_none());
}

#[test]
fn escaped_ampersand_font_and_size_codes() {
    let hf = parse_hf_format_string("&\"Arial,Bold\"&14Tom && Jerry").expect("text");
    assert_eq!(hf.paragraphs.len(), 1);
    assert_eq!(hf.paragraphs[0].elements.len(), 1);
    assert_eq!(run_text(&hf.paragraphs[0].elements[0]), "Tom & Jerry");
}

#[test]
fn unknown_codes_are_skipped() {
    assert!(parse_hf_format_string("&X").is_none());
    let hf = parse_hf_format_string("&Xa&Yb").expect("text");
    assert_eq!(run_text(&hf.paragraphs[0].elements[0]), "ab");
}

#[test]
fn surrounding_whitespace_is_trimmed() {
    let hf = parse_hf_format_string("  &RPage &P  ").expect("right section");
    assert_eq!(hf.paragraphs.len(), 1);
    assert_eq!(hf.paragraphs[0].style.alignment, Some(Alignment::Right));
    let elements = &hf.paragraphs[0].elements;
    assert_eq!(elements.len(), 2);
    assert_eq!(run_text(&elements[0]), "Page ");
    assert!(matches!(elements[1], HFInline::PageNumber));
}

#[test]
fn build_elements_splits_on_field_marks() {
    let elements = build_hf_elements("a\u{1}b\u{2}");
    assert_eq!(elements.len(), 4);
    assert_eq!(run_text(&elements[0]), "a");
    assert!(matches!(elements[1], HFInline::PageNumber));
    assert_eq!(run_text(&elements[2]), "b");
    assert!(matches!(elements[3], HFInline::TotalPages));
    assert!(build_hf_elements("").is_empty());
    let only_field = build_hf_elements("\u{1}");
    assert_eq!(only_field.len(), 1);
    assert!(matches!(only_field[0], HFInline::PageNumber));
}
