use std::collections::{BTreeMap, HashMap};

use office2pdf::ir::{Block, ListItem, ListKind, ListLevelStyle, Paragraph, ParagraphStyle, Run, TextStyle};
use office2pdf::lists::{
    build_typst_numbering_pattern, finalize_list, group_into_lists, level_kind, typst_counter_symbol, NumInfo,
    NumberedItem, NumberingMap, RawListLevel, ResolvedListLevel, ResolvedNumbering, TaggedElement,
};
use office2pdf::numbering::{
    build_numbering_map, resolve_numbering, AbstractNumbering, LevelOverride, NumberingDefinitions,
    NumberingInstance,
};

fn raw(start: u32, format: &str, text: &str) -> RawListLevel {
    RawListLevel { start, number_format: format.to_string(), level_text: text.to_string() }
}

fn para(text: &str) -> Paragraph {
    Paragraph {
        style: ParagraphStyle::default(),
        runs: vec![Run { text: text.to_string(), style: TextStyle::default(), href: None, footnote: None }],
    }
}

fn level_style(kind: ListKind, pattern: Option<&str>) -> ListLevelStyle {
    ListLevelStyle {
        kind,
        numbering_pattern: pattern.map(|p| p.to_string()),
        full_numbering: false,
        marker_text: None,
        marker_style: None,
    }
}

fn numbering(levels: Vec<(u32, ListKind, u32)>) -> ResolvedNumbering {
    let mut map = BTreeMap::new();
    for (level, kind, start) in levels {
        map.insert(level, ResolvedListLevel { style: level_style(kind, None), start });
    }
    ResolvedNumbering { levels: map }
}

#[test]
fn bullet_levels_are_unordered() {
    assert_eq!(level_kind("bullet"), ListKind::Unordered);
    assert_eq!(level_kind("decimal"), ListKind::Ordered);
    assert_eq!(level_kind("none"), ListKind::Ordered);
}

#[test]
fn counter_symbols_of_number_formats() {
    assert_eq!(typst_counter_symbol("decimal"), Some("1"));
    assert_eq!(typst_counter_symbol("decimalZero"), Some("1"));
    assert_eq!(typst_counter_symbol("lowerLetter"), Some("a"));
    assert_eq!(typst_counter_symbol("upperLetter"), Some("A"));
    assert_eq!(typst_counter_symbol("lowerRoman"), Some("i"));
    assert_eq!(typst_counter_symbol("upperRoman"), Some("I"));
    assert_eq!(typst_counter_symbol("bullet"), None);
}

#[test]
fn numbering_patterns_from_level_text() {
    let mut levels = BTreeMap::new();
    levels.insert(0, raw(1, "decimal", "%1."));
    levels.insert(1, raw(1, "lowerLetter", "%1.%2)"));
    levels.insert(2, raw(1, "bullet", "*"));
    assert_eq!(build_typst_numbering_pattern("%1.", 0, &levels), Some(("1.".to_string(), false)));
    assert_eq!(build_typst_numbering_pattern("%1.%2)", 1, &levels), Some(("1.a)".to_string(), true)));
    // Without a reference to its own level, the level's symbol goes first.
    assert_eq!(build_typst_numbering_pattern("(%1)", 1, &levels), Some(("a(1)".to_string(), true)));
    // A literal percent sign is kept.
    assert_eq!(build_typst_numbering_pattern("%1%", 0, &levels), Some(("1%".to_string(), false)));
    // References to undefined levels, level zero or non-counter formats fail.
    assert_eq!(build_typst_numbering_pattern("%5.", 0, &levels), None);
    assert_eq!(build_typst_numbering_pattern("%0.", 0, &levels), None);
    assert_eq!(build_typst_numbering_pattern("%3.", 0, &levels), None);
    assert_eq!(build_typst_numbering_pattern("%99999999999.", 0, &levels), None);
}

#[test]
fn finalize_list_merges_styles_and_restarts_only_when_deeper() {
    let mut map: NumberingMap = HashMap::new();
    map.insert(1, numbering(vec![(0, ListKind::Ordered, 3), (1, ListKind::Ordered, 1)]));
    map.insert(2, numbering(vec![(0, ListKind::Unordered, 1)]));
    let items = vec![
        NumberedItem { num_id: 1, item: ListItem { content: vec![para("a")], level: 0, start_at: None } },
        NumberedItem { num_id: 1, item: ListItem { content: vec![para("b")], level: 1, start_at: None } },
        NumberedItem { num_id: 1, item: ListItem { content: vec![para("c")], level: 1, start_at: None } },
        NumberedItem { num_id: 2, item: ListItem { content: vec![para("d")], level: 0, start_at: None } },
    ];
    let list = finalize_list(items, &map);
    assert_eq!(list.kind, ListKind::Ordered);
    assert_eq!(list.items.len(), 4);
    assert_eq!(list.items[0].start_at, Some(3));
    assert_eq!(list.items[1].start_at, Some(1));
    assert_eq!(list.items[2].start_at, None);
    assert_eq!(list.items[3].start_at, None);
    assert_eq!(list.level_styles.len(), 2);
    assert_eq!(list.level_styles.get(&0).map(|s| s.kind), Some(ListKind::Ordered));
}

#[test]
fn finalize_list_without_numbering_is_unordered() {
    let map: NumberingMap = HashMap::new();
    let items = vec![NumberedItem { num_id: 7, item: ListItem { content: vec![para("x")], level: 2, start_at: Some(9) } }];
    let list = finalize_list(items, &map);
    assert_eq!(list.kind, ListKind::Unordered);
    assert!(list.level_styles.is_empty());
    assert_eq!(list.items[0].start_at, None);
}

#[test]
fn finalize_list_kind_follows_shallowest_level_without_level_zero() {
    let mut map: NumberingMap = HashMap::new();
    map.insert(1, numbering(vec![(1, ListKind::Unordered, 1), (2, ListKind::Ordered, 1)]));
    let items = vec![
        NumberedItem { num_id: 1, item: ListItem { content: vec![para("x")], level: 2, start_at: None } },
        NumberedItem { num_id: 1, item: ListItem { content: vec![para("y")], level: 1, start_at: None } },
    ];
    let list = finalize_list(items, &map);
    assert_eq!(list.kind, ListKind::Unordered);
}

#[test]
fn group_into_lists_splits_at_plain_blocks() {
    let mut map: NumberingMap = HashMap::new();
    map.insert(1, numbering(vec![(0, ListKind::Ordered, 1)]));
    let elements = vec![
        TaggedElement::ListParagraph { info: NumInfo { num_id: 1, level: 0 }, paragraph: para("one") },
        TaggedElement::ListParagraph { info: NumInfo { num_id: 1, level: 0 }, paragraph: para("two") },
        TaggedElement::Plain(vec![Block::Paragraph(para("between")), Block::PageBreak]),
        TaggedElement::ListParagraph { info: NumInfo { num_id: 1, level: 0 }, paragraph: para("three") },
    ];
    let blocks = group_into_lists(elements, &map);
    assert_eq!(blocks.len(), 4);
    match &blocks[0] {
        Block::List(list) => {
            assert_eq!(list.items.len(), 2);
            assert_eq!(list.items[0].start_at, Some(1));
            assert_eq!(list.items[1].start_at, None);
            assert_eq!(list.items[1].content[0].runs[0].text, "two");
        },
        other => panic!("expected a list, got {other:?}"),
    }
    assert!(matches!(&blocks[1], Block::Paragraph(p) if p.runs[0].text == "between"));
    assert!(matches!(blocks[2], Block::PageBreak));
    match &blocks[3] {
        Block::List(list) => {
            assert_eq!(list.items.len(), 1);
            assert_eq!(list.items[0].start_at, Some(1));
        },
        other => panic!("expected a list, got {other:?}"),
    }
}

#[test]
fn group_into_lists_without_list_paragraphs_keeps_blocks() {
    let map: NumberingMap = HashMap::new();
    let blocks = group_into_lists(vec![TaggedElement::Plain(vec![Block::PageBreak])], &map);
    assert_eq!(blocks.len(), 1);
    assert!(group_into_lists(Vec::new(), &map).is_empty());
}

fn definitions() -> NumberingDefinitions {
    NumberingDefinitions {
        abstract_nums: vec![
            AbstractNumbering {
                id: 10,
                levels: vec![(0, raw(1, "decimal", "%1.")), (1, raw(1, "lowerLetter", "%1.%2."))],
            },
            AbstractNumbering { id: 20, levels: vec![(0, raw(1, "bullet", "\u{2022}"))] },
        ],
        numberings: vec![
            NumberingInstance { id: 1, abstract_num_id: 10, level_overrides: Vec::new() },
            NumberingInstance {
                id: 2,
                abstract_num_id: 10,
                level_overrides: vec![
                    LevelOverride { level: 0, override_level: None, override_start: Some(4) },
                    LevelOverride { level: 3, override_level: None, override_start: Some(2) },
                ],
            },
            NumberingInstance { id: 3, abstract_num_id: 20, level_overrides: Vec::new() },
            NumberingInstance { id: 4, abstract_num_id: 99, level_overrides: Vec::new() },
        ],
    }
}

#[test]
fn resolve_numbering_builds_level_styles() {
    let defs = definitions();
    let resolved = resolve_numbering(&defs.numberings[0], &defs);
    assert_eq!(resolved.levels.len(), 2);
    let level0 = &resolved.levels[&0];
    assert_eq!(level0.start, 1);
    assert_eq!(level0.style.kind, ListKind::Ordered);
    assert_eq!(level0.style.numbering_pattern.as_deref(), Some("1."));
    assert!(!level0.style.full_numbering);
    let level1 = &resolved.levels[&1];
    assert_eq!(level1.style.numbering_pattern.as_deref(), Some("1.a."));
    assert!(level1.style.full_numbering);
    assert!(level1.style.marker_text.is_none());
}

#[test]
fn start_overrides_change_or_create_levels() {
    let defs = definitions();
    let resolved = resolve_numbering(&defs.numberings[1], &defs);
    assert_eq!(resolved.levels.len(), 3);
    assert_eq!(resolved.levels[&0].start, 4);
    assert_eq!(resolved.levels[&0].style.numbering_pattern.as_deref(), Some("1."));
    let created = &resolved.levels[&3];
    assert_eq!(created.start, 2);
    assert_eq!(created.style.kind, ListKind::Ordered);
    assert_eq!(created.style.numbering_pattern.as_deref(), Some("1."));
}

#[test]
fn level_override_replaces_definition() {
    let defs = NumberingDefinitions {
        abstract_nums: vec![AbstractNumbering { id: 1, levels: vec![(0, raw(1, "decimal", "%1."))] }],
        numberings: vec![NumberingInstance {
            id: 5,
            abstract_num_id: 1,
            level_overrides: vec![LevelOverride {
                level: 0,
                override_level: Some(raw(7, "upperRoman", "%1)")),
                override_start: None,
            }],
        }],
    };
    let resolved = resolve_numbering(&defs.numberings[0], &defs);
    assert_eq!(resolved.levels[&0].start, 7);
    assert_eq!(resolved.levels[&0].style.numbering_pattern.as_deref(), Some("I)"));
}

#[test]
fn bullets_and_missing_abstracts() {
    let defs = definitions();
    let bullets = resolve_numbering(&defs.numberings[2], &defs);
    assert_eq!(bullets.levels[&0].style.kind, ListKind::Unordered);
    assert!(bullets.levels[&0].style.numbering_pattern.is_none());
    let missing = resolve_numbering(&defs.numberings[3], &defs);
    assert!(missing.levels.is_empty());
}

#[test]
fn numbering_map_has_every_instance() {
    let defs = definitions();
    let map = build_numbering_map(&defs);
    assert_eq!(map.len(), 4);
    assert_eq!(map[&2].levels[&0].start, 4);
    assert!(map[&4].levels.is_empty());
}
