//! DOCX list numbering: per-level numbering styles and Typst numbering
//! patterns, and the grouping of numbered paragraphs into list blocks.

use std::collections::{BTreeMap, HashMap};
use vstd::prelude::*;
use crate::ir::{Block, List, ListItem, ListKind, ListLevelStyle, Paragraph};
use crate::text::{
    chars_of, digits_value, extend_chars, is_ascii_digit, is_digit_char, lemma_digits_value_grows,
    lemma_digits_value_push, str_eq, string_from_chars,
};

verus! {

broadcast use vstd::std_specs::btree::group_btree_axioms, vstd::laws_cmp::group_laws_cmp, vstd::std_specs::hash::group_hash_axioms;

/// Numbering reference of a paragraph (`<w:numPr>`).
#[derive(Debug, Clone, Copy, PartialEq, Eq)]
pub struct NumInfo {
    pub num_id: usize,
    pub level: u32,
}

/// A list level as the numbering part defines it.
#[derive(Debug, Clone)]
pub struct RawListLevel {
    pub start: u32,
    pub number_format: String,
    pub level_text: String,
}

/// The kind of list a level's number format makes.
pub open spec fn level_kind_spec(number_format: Seq<char>) -> ListKind {
    if number_format == "bullet"@ { ListKind::Unordered } else { ListKind::Ordered }
}

/// Bullet levels make unordered lists; every other format is ordered.
pub fn level_kind(number_format: &str) -> (kind: ListKind)
    ensures
        kind == level_kind_spec(number_format@),
{
    if str_eq(number_format, "bullet") { ListKind::Unordered } else { ListKind::Ordered }
}

/// The Typst counter symbol of a number format, if Typst has one.
pub open spec fn counter_symbol(number_format: Seq<char>) -> Option<Seq<char>> {
    if number_format == "decimal"@ || number_format == "decimalZero"@ {
        Some("1"@)
    } else if number_format == "lowerLetter"@ {
        Some("a"@)
    } else if number_format == "upperLetter"@ {
        Some("A"@)
    } else if number_format == "lowerRoman"@ {
        Some("i"@)
    } else if number_format == "upperRoman"@ {
        Some("I"@)
    } else {
        None
    }
}

pub fn typst_counter_symbol(number_format: &str) -> (symbol: Option<&'static str>)
    ensures
        match symbol {
            Some(s) => counter_symbol(number_format@) == Some(s@),
            None => counter_symbol(number_format@) is None,
        },
{
    if str_eq(number_format, "decimal") || str_eq(number_format, "decimalZero") {
        Some("1")
    } else if str_eq(number_format, "lowerLetter") {
        Some("a")
    } else if str_eq(number_format, "upperLetter") {
        Some("A")
    } else if str_eq(number_format, "lowerRoman") {
        Some("i")
    } else if str_eq(number_format, "upperRoman") {
        Some("I")
    } else {
        None
    }
}


/// The first index at or after `j` that does not hold an ASCII digit.
pub open spec fn digit_run_end(t: Seq<char>, j: int) -> int
    decreases t.len() - j,
{
    if j < 0 || j >= t.len() || !is_digit_char(t[j]) { j } else { digit_run_end(t, j + 1) }
}

proof fn lemma_digit_run_end(t: Seq<char>, j: int)
    requires
        0 <= j <= t.len(),
    ensures
        j <= digit_run_end(t, j) <= t.len(),
        forall|k: int| j <= k < digit_run_end(t, j) ==> is_digit_char(#[trigger] t[k]),
        digit_run_end(t, j) < t.len() ==> !is_digit_char(t[digit_run_end(t, j)]),
    decreases t.len() - j,
{
    if j < t.len() && is_digit_char(t[j]) {
        lemma_digit_run_end(t, j + 1);
    }
}

/// Typst pattern built from `t[i..]` given the pattern so far and whether the
/// current level and a parent level have been referenced; `None` when a
/// `%n` reference cannot be rendered.
pub open spec fn pattern_from(
    t: Seq<char>,
    i: int,
    current_level: u32,
    formats: Map<u32, Seq<char>>,
    pattern: Seq<char>,
    saw_current: bool,
    saw_parent: bool,
) -> Option<(Seq<char>, bool, bool)>
    decreases t.len() - i,
{
    if i < 0 || i >= t.len() {
        Some((pattern, saw_current, saw_parent))
    } else if t[i] == '%' {
        let end = digit_run_end(t, i + 1);
        if end <= i + 1 || end > t.len() {
            pattern_from(t, i + 1, current_level, formats, pattern.push('%'), saw_current, saw_parent)
        } else {
            let value = digits_value(t.subrange(i + 1, end));
            if value > u32::MAX || value == 0 {
                None
            } else {
                let referenced = (value - 1) as u32;
                if !formats.contains_key(referenced) {
                    None
                } else {
                    match counter_symbol(formats[referenced]) {
                        None => None,
                        Some(symbol) => pattern_from(
                            t,
                            end,
                            current_level,
                            formats,
                            pattern + symbol,
                            saw_current || referenced == current_level,
                            saw_parent || (referenced != current_level && referenced < current_level),
                        ),
                    }
                }
            }
        }
    } else {
        pattern_from(t, i + 1, current_level, formats, pattern.push(t[i]), saw_current, saw_parent)
    }
}

/// The number format of each level.
pub open spec fn level_formats(levels: Map<u32, RawListLevel>) -> Map<u32, Seq<char>> {
    levels.map_values(|l: RawListLevel| l.number_format@)
}

/// The Typst numbering pattern of a level and whether it shows a parent
/// level's counter: each `%n` becomes the counter symbol of level `n - 1`,
/// other characters are kept, and the current level's symbol is put in front
/// when the text does not reference it.
pub open spec fn numbering_pattern(level_text: Seq<char>, current_level: u32, formats: Map<u32, Seq<char>>) -> Option<(Seq<char>, bool)> {
    match pattern_from(level_text, 0, current_level, formats, Seq::empty(), false, false) {
        None => None,
        Some((pattern, saw_current, saw_parent)) => if saw_current {
            Some((pattern, saw_parent))
        } else if !formats.contains_key(current_level) {
            None
        } else {
            match counter_symbol(formats[current_level]) {
                None => None,
                Some(symbol) => Some((symbol + pattern, saw_parent)),
            }
        },
    }
}



/// Build the Typst numbering pattern of `current_level` from its level text
/// (see `numbering_pattern`).
pub fn build_typst_numbering_pattern(
    level_text: &str,
    current_level: u32,
    levels: &BTreeMap<u32, RawListLevel>,
) -> (result: Option<(String, bool)>)
    ensures
        match result {
            Some((pattern, full)) => numbering_pattern(level_text@, current_level, level_formats(levels@)) == Some((pattern@, full)),
            None => numbering_pattern(level_text@, current_level, level_formats(levels@)) is None,
        },
{
    let chars = chars_of(level_text);
    let ghost t = level_text@;
    let ghost goal = pattern_from(t, 0, current_level, level_formats(levels@), Seq::empty(), false, false);
    let mut pattern: Vec<char> = Vec::new();
    let mut saw_current = false;
    let mut saw_parent = false;
    let len = chars.len();
    let mut i: usize = 0;
    while i < len
        invariant
            chars@ == t,
            t == level_text@,
            goal == pattern_from(t, 0, current_level, level_formats(levels@), Seq::empty(), false, false),
            len == t.len(),
            i <= len,
            pattern_from(t, i as int, current_level, level_formats(levels@), pattern@, saw_current, saw_parent) == goal,
        decreases len - i,
    {
        if chars[i] == '%' {
            proof {
                lemma_digit_run_end(t, i + 1);
            }
            let mut j = i + 1;
            let mut value: u32 = 0;
            while j < len && is_ascii_digit(chars[j])
                invariant
                    chars@ == t,
                    t == level_text@,
                    goal == pattern_from(t, 0, current_level, level_formats(levels@), Seq::empty(), false, false),
                    len == t.len(),
                    i < j <= len,
                    t[i as int] == '%',
                    digit_run_end(t, j as int) == digit_run_end(t, i + 1),
                    i + 1 <= j <= digit_run_end(t, i + 1),
                    forall|k: int| i + 1 <= k < digit_run_end(t, i + 1) ==> is_digit_char(#[trigger] t[k]),
                    value == digits_value(t.subrange(i + 1, j as int)),
                    pattern_from(t, i as int, current_level, level_formats(levels@), pattern@, saw_current, saw_parent) == goal,
                decreases len - j,
            {
                let d = (chars[j] as u32) - ('0' as u32);
                proof {
                    lemma_digit_run_end(t, j + 1);
                    assert(t.subrange(i + 1, j + 1) =~= t.subrange(i + 1, j as int).push(t[j as int]));
                    lemma_digits_value_push(t.subrange(i + 1, j as int), t[j as int]);
                }
                if value > 429496729 || (value == 429496729 && d > 5) {
                    proof {
                        assert(value * 10 + d > u32::MAX) by (nonlinear_arith)
                            requires value > 429496729 || (value == 429496729 && d > 5);
                        assert(digits_value(t.subrange(i + 1, j + 1)) > u32::MAX);
                        lemma_digit_run_end(t, j + 1);
                        assert(digit_run_end(t, j as int) == digit_run_end(t, j + 1));
                        lemma_digits_value_grows(t, i + 1, j + 1, digit_run_end(t, i + 1));
                        assert(digits_value(t.subrange(i + 1, digit_run_end(t, i + 1))) > u32::MAX);
                        assert(digit_run_end(t, i + 1) != i + 1);
                        assert(pattern_from(t, i as int, current_level, level_formats(levels@), pattern@, saw_current, saw_parent) is None);
                    }
                    return None;
                }
                value = value * 10 + d;
                j = j + 1;
            }
            assert(j as int == digit_run_end(t, i + 1));
            if j == i + 1 {
                pattern.push('%');
                i = i + 1;
            } else {
                if value == 0 {
                    return None;
                }
                let referenced = value - 1;
                let raw = match levels.get(&referenced) {
                    Some(raw) => raw,
                    None => {
                        return None;
                    },
                };
                let symbol = match typst_counter_symbol(raw.number_format.as_str()) {
                    Some(symbol) => symbol,
                    None => {
                        return None;
                    },
                };
                extend_chars(&mut pattern, symbol);
                if referenced == current_level {
                    saw_current = true;
                } else if referenced < current_level {
                    saw_parent = true;
                }
                i = j;
            }
        } else {
            pattern.push(chars[i]);
            i = i + 1;
        }
    }
    if !saw_current {
        let raw = match levels.get(&current_level) {
            Some(raw) => raw,
            None => {
                return None;
            },
        };
        let symbol = match typst_counter_symbol(raw.number_format.as_str()) {
            Some(symbol) => symbol,
            None => {
                return None;
            },
        };
        let mut prefixed: Vec<char> = chars_of(symbol);
        let mut k: usize = 0;
        while k < pattern.len()
            invariant
                k <= pattern@.len(),
                prefixed@ == symbol@ + pattern@.take(k as int),
            decreases pattern@.len() - k,
        {
            prefixed.push(pattern[k]);
            k = k + 1;
        }
        assert(pattern@.take(pattern@.len() as int) =~= pattern@);
        pattern = prefixed;
    }
    let text = string_from_chars(&pattern, 0, pattern.len());
    assert(pattern@.subrange(0, pattern@.len() as int) =~= pattern@);
    Some((text, saw_parent))
}

/// A resolved list level: its rendering style and start value.
#[derive(Debug, Clone)]
pub struct ResolvedListLevel {
    pub style: ListLevelStyle,
    pub start: u32,
}

/// The resolved levels of one numbering instance (`numId`).
#[derive(Debug, Clone)]
pub struct ResolvedNumbering {
    pub levels: BTreeMap<u32, ResolvedListLevel>,
}

/// Resolved numbering instances by `numId`.
pub type NumberingMap = HashMap<usize, ResolvedNumbering>;

/// A list item together with the `numId` of the paragraph it came from.
pub struct NumberedItem {
    pub num_id: usize,
    pub item: ListItem,
}

/// A body element tagged with its numbering, if it is a list paragraph.
pub enum TaggedElement {
    /// Regular blocks (non-list paragraph, table, page break, ...).
    Plain(Vec<Block>),
    /// A list paragraph with its numbering reference.
    ListParagraph { info: NumInfo, paragraph: Paragraph },
}

/// The resolved level an item refers to, if its numbering defines it.
pub open spec fn resolved_level(nm: Map<usize, ResolvedNumbering>, info: NumInfo) -> Option<ResolvedListLevel> {
    if nm.contains_key(info.num_id) && nm[info.num_id].levels@.contains_key(info.level) {
        Some(nm[info.num_id].levels@[info.level])
    } else {
        None
    }
}

/// Level styles of a merged list built from its first `k` items: the first
/// item seen at a level fixes that level's style.
pub open spec fn styles_upto(infos: Seq<NumInfo>, nm: Map<usize, ResolvedNumbering>, k: int) -> Map<u32, ListLevelStyle>
    decreases k,
{
    if k <= 0 {
        Map::empty()
    } else {
        let styles = styles_upto(infos, nm, k - 1);
        match resolved_level(nm, infos[k - 1]) {
            Some(rl) => if styles.contains_key(infos[k - 1].level) { styles } else { styles.insert(infos[k - 1].level, rl.style) },
            None => styles,
        }
    }
}

/// The shallowest resolved level among the first `k` items and the kind of
/// the style that level got.
pub open spec fn shallowest_upto(infos: Seq<NumInfo>, nm: Map<usize, ResolvedNumbering>, k: int) -> Option<(u32, ListKind)>
    decreases k,
{
    if k <= 0 {
        None
    } else {
        let acc = shallowest_upto(infos, nm, k - 1);
        match resolved_level(nm, infos[k - 1]) {
            Some(rl) => match acc {
                Some((level, kind)) => if infos[k - 1].level < level { Some((infos[k - 1].level, rl.style.kind)) } else { acc },
                None => Some((infos[k - 1].level, rl.style.kind)),
            },
            None => acc,
        }
    }
}

/// The kind of a merged list: that of its shallowest styled level, unordered
/// when no level has a style.
pub open spec fn merged_kind(infos: Seq<NumInfo>, nm: Map<usize, ResolvedNumbering>) -> ListKind {
    match shallowest_upto(infos, nm, infos.len() as int) {
        Some((_, kind)) => kind,
        None => ListKind::Unordered,
    }
}

/// Item `k` of an ordered level restarts at the level's start value when it
/// opens the list or goes deeper than the item before it.
pub open spec fn item_start(infos: Seq<NumInfo>, nm: Map<usize, ResolvedNumbering>, k: int) -> Option<u32> {
    match resolved_level(nm, infos[k]) {
        Some(rl) => if rl.style.kind == ListKind::Ordered && (k == 0 || infos[k].level > infos[k - 1].level) {
            Some(rl.start)
        } else {
            None
        },
        None => None,
    }
}

pub open spec fn info_of(n: NumberedItem) -> NumInfo {
    NumInfo { num_id: n.num_id, level: n.item.level }
}

/// `list` is the merged list of `items`.
pub open spec fn is_finalized(list: List, items: Seq<NumberedItem>, nm: Map<usize, ResolvedNumbering>) -> bool {
    let infos = items.map_values(|n: NumberedItem| info_of(n));
    &&& list.level_styles@ == styles_upto(infos, nm, infos.len() as int)
    &&& list.kind == merged_kind(infos, nm)
    &&& list.items@.len() == items.len()
    &&& forall|k: int| 0 <= k < items.len() ==> #[trigger] list.items@[k] == (ListItem { start_at: item_start(infos, nm, k), ..items[k].item })
}

/// Merge consecutive list items (possibly of differing `numId`s) into one list.
pub fn finalize_list(numbered_items: Vec<NumberedItem>, numberings: &NumberingMap) -> (list: List)
    ensures
        is_finalized(list, numbered_items@, numberings@),
{
    let ghost infos = numbered_items@.map_values(|n: NumberedItem| info_of(n));
    let ghost nm = numberings@;
    let mut level_styles: BTreeMap<u32, ListLevelStyle> = BTreeMap::new();
    let mut shallowest: Option<(u32, ListKind)> = None;
    let n = numbered_items.len();
    let mut k: usize = 0;
    while k < n
        invariant
            n == numbered_items@.len(),
            infos == numbered_items@.map_values(|n: NumberedItem| info_of(n)),
            nm == numberings@,
            k <= n,
            level_styles@ == styles_upto(infos, nm, k as int),
            shallowest == shallowest_upto(infos, nm, k as int),
        decreases n - k,
    {
        let num_id = numbered_items[k].num_id;
        let level = numbered_items[k].item.level;
        assert(infos[k as int] == (NumInfo { num_id, level }));
        if let Some(resolved) = numberings.get(&num_id) {
            if let Some(resolved_level) = resolved.levels.get(&level) {
                if level_styles.get(&level).is_none() {
                    level_styles.insert(level, resolved_level.style.duplicate());
                }
                let kind = resolved_level.style.kind;
                match shallowest {
                    Some((shallow, _)) => {
                        if level < shallow {
                            shallowest = Some((level, kind));
                        }
                    },
                    None => {
                        shallowest = Some((level, kind));
                    },
                }
            }
        }
        k = k + 1;
    }
    let kind = match shallowest {
        Some((_, kind)) => kind,
        None => ListKind::Unordered,
    };
    let mut items: Vec<ListItem> = Vec::with_capacity(n);
    let mut previous_level: Option<u32> = None;
    let mut idx: usize = 0;
    for numbered in it: numbered_items
        invariant
            n == it.seq().len(),
            it.seq() == numbered_items@,
            infos == numbered_items@.map_values(|n: NumberedItem| info_of(n)),
            nm == numberings@,
            idx == it.index(),
            idx <= n,
            items@.len() == idx,
            idx > 0 ==> previous_level == Some(infos[idx - 1].level),
            idx == 0 ==> previous_level is None,
            forall|j: int| 0 <= j < idx ==> #[trigger] items@[j] == (ListItem { start_at: item_start(infos, nm, j), ..numbered_items@[j].item }),
    {
        let NumberedItem { num_id, item } = numbered;
        let mut item = item;
        assert(infos[idx as int] == (NumInfo { num_id, level: item.level }));
        let mut start_at: Option<u32> = None;
        if let Some(resolved) = numberings.get(&num_id) {
            if let Some(resolved_level) = resolved.levels.get(&item.level) {
                let ordered = match resolved_level.style.kind {
                    ListKind::Ordered => true,
                    ListKind::Unordered => false,
                };
                let opens = match previous_level {
                    None => true,
                    Some(previous) => item.level > previous,
                };
                if ordered && opens {
                    start_at = Some(resolved_level.start);
                }
            }
        }
        item.start_at = start_at;
        previous_level = Some(item.level);
        items.push(item);
        idx = idx + 1;
    }
    List { kind, items, level_styles }
}

/// A stretch of the grouped body: list paragraphs merged into one list, or
/// one regular block.
pub enum BodyGroup {
    ListRun(Seq<(NumInfo, Paragraph)>),
    Single(Block),
}

/// `[ListRun(pending)]` when list paragraphs are pending, else nothing.
pub open spec fn flush_pending(pending: Seq<(NumInfo, Paragraph)>) -> Seq<BodyGroup> {
    if pending.len() > 0 { seq![BodyGroup::ListRun(pending)] } else { Seq::empty() }
}

/// Groups of `es[i..]` when the list paragraphs `pending` precede them: any
/// regular element ends the current list.
pub open spec fn groups_from(es: Seq<TaggedElement>, i: int, pending: Seq<(NumInfo, Paragraph)>) -> Seq<BodyGroup>
    decreases es.len() - i,
{
    if i < 0 || i >= es.len() {
        flush_pending(pending)
    } else {
        match es[i] {
            TaggedElement::ListParagraph { info, paragraph } => groups_from(es, i + 1, pending.push((info, paragraph))),
            TaggedElement::Plain(blocks) => flush_pending(pending) + blocks@.map_values(|b: Block| BodyGroup::Single(b))
                + groups_from(es, i + 1, Seq::empty()),
        }
    }
}

/// `list` merges the list paragraphs `entries`, each becoming one item.
pub open spec fn list_of_entries(list: List, entries: Seq<(NumInfo, Paragraph)>, nm: Map<usize, ResolvedNumbering>) -> bool {
    let infos = entries.map_values(|e: (NumInfo, Paragraph)| e.0);
    &&& list.level_styles@ == styles_upto(infos, nm, infos.len() as int)
    &&& list.kind == merged_kind(infos, nm)
    &&& list.items@.len() == entries.len()
    &&& forall|k: int| 0 <= k < entries.len() ==> {
        &&& (#[trigger] list.items@[k]).content@ == seq![entries[k].1]
        &&& list.items@[k].level == entries[k].0.level
        &&& list.items@[k].start_at == item_start(infos, nm, k)
    }
}

/// `block` is what the group `g` renders to.
pub open spec fn block_of_group(block: Block, g: BodyGroup, nm: Map<usize, ResolvedNumbering>) -> bool {
    match g {
        BodyGroup::Single(b) => block == b,
        BodyGroup::ListRun(entries) => match block {
            Block::List(list) => list_of_entries(list, entries, nm),
            _ => false,
        },
    }
}

pub open spec fn blocks_of_groups(blocks: Seq<Block>, gs: Seq<BodyGroup>, nm: Map<usize, ResolvedNumbering>) -> bool {
    &&& blocks.len() == gs.len()
    &&& forall|k: int| 0 <= k < blocks.len() ==> #[trigger] block_of_group(blocks[k], gs[k], nm)
}

proof fn lemma_blocks_of_groups_push(blocks: Seq<Block>, gs: Seq<BodyGroup>, b: Block, g: BodyGroup, nm: Map<usize, ResolvedNumbering>)
    requires
        blocks_of_groups(blocks, gs, nm),
        block_of_group(b, g, nm),
    ensures
        blocks_of_groups(blocks.push(b), gs.push(g), nm),
{
    assert forall|k: int| 0 <= k < blocks.len() + 1 implies #[trigger] block_of_group(blocks.push(b)[k], gs.push(g)[k], nm) by {
        if k < blocks.len() {
            assert(blocks.push(b)[k] == blocks[k]);
            assert(gs.push(g)[k] == gs[k]);
        }
    }
}

/// `current` holds the items made from the list paragraphs `pending`.
pub open spec fn items_of_entries(current: Seq<NumberedItem>, pending: Seq<(NumInfo, Paragraph)>) -> bool {
    &&& current.len() == pending.len()
    &&& forall|k: int| 0 <= k < current.len() ==> {
        &&& (#[trigger] current[k]).num_id == pending[k].0.num_id
        &&& current[k].item.level == pending[k].0.level
        &&& current[k].item.content@ == seq![pending[k].1]
    }
}

/// The merged list of the pending items, as its group requires.
fn finish_list(current: Vec<NumberedItem>, numberings: &NumberingMap, Ghost(pending): Ghost<Seq<(NumInfo, Paragraph)>>) -> (block: Block)
    requires
        items_of_entries(current@, pending),
    ensures
        block_of_group(block, BodyGroup::ListRun(pending), numberings@),
{
    let ghost items = current@;
    let list = finalize_list(current, numberings);
    proof {
        let infos = items.map_values(|n: NumberedItem| info_of(n));
        let infos2 = pending.map_values(|e: (NumInfo, Paragraph)| e.0);
        assert(infos =~= infos2);
    }
    Block::List(list)
}

/// Group consecutive list paragraphs into list blocks. Adjacent list
/// paragraphs merge into one list even when their `numId`s differ; any
/// regular element ends the current list and is kept as it is.
pub fn group_into_lists(elements: Vec<TaggedElement>, numberings: &NumberingMap) -> (blocks: Vec<Block>)
    ensures
        blocks_of_groups(blocks@, groups_from(elements@, 0, Seq::empty()), numberings@),
{
    let ghost es = elements@;
    let ghost nm = numberings@;
    let ghost goal = groups_from(es, 0, Seq::empty());
    let mut result: Vec<Block> = Vec::new();
    let mut current: Vec<NumberedItem> = Vec::new();
    let ghost mut pending: Seq<(NumInfo, Paragraph)> = Seq::empty();
    let ghost mut done: Seq<BodyGroup> = Seq::empty();
    for element in it: elements
        invariant
            it.seq() == es,
            nm == numberings@,
            goal == groups_from(es, 0, Seq::empty()),
            it.index() <= es.len(),
            items_of_entries(current@, pending),
            blocks_of_groups(result@, done, nm),
            done + groups_from(es, it.index() as int, pending) == goal,
    {
        let ghost i = it.index() as int;
        assert(es[i] == element);
        match element {
            TaggedElement::ListParagraph { info, paragraph } => {
                let ghost entry = (info, paragraph);
                let content = vec![paragraph];
                assert(content@ == seq![entry.1]);
                current.push(NumberedItem { num_id: info.num_id, item: ListItem { content, level: info.level, start_at: None } });
                proof {
                    pending = pending.push(entry);
                    assert(items_of_entries(current@, pending)) by {
                        assert forall|k: int| 0 <= k < current@.len() implies {
                            &&& (#[trigger] current@[k]).num_id == pending[k].0.num_id
                            &&& current@[k].item.level == pending[k].0.level
                            &&& current@[k].item.content@ == seq![pending[k].1]
                        } by {}
                    }
                }
            },
            TaggedElement::Plain(blocks) => {
                let ghost before = done;
                let ghost old_pending = pending;
                if current.len() > 0 {
                    let finished = current;
                    current = Vec::new();
                    let block = finish_list(finished, numberings, Ghost(pending));
                    proof {
                        lemma_blocks_of_groups_push(result@, done, block, BodyGroup::ListRun(pending), nm);
                        done = done.push(BodyGroup::ListRun(pending));
                    }
                    result.push(block);
                }
                proof {
                    assert(done =~= before + flush_pending(old_pending));
                    pending = Seq::empty();
                }
                let ghost bs = blocks@;
                let ghost mid = done;
                for block in bit: blocks
                    invariant
                        bit.seq() == bs,
                        nm == numberings@,
                        blocks_of_groups(result@, done, nm),
                        done == mid + bs.take(bit.index() as int).map_values(|b: Block| BodyGroup::Single(b)),
                {
                    let ghost j = bit.index() as int;
                    proof {
                        assert(bs[j] == block);
                        lemma_blocks_of_groups_push(result@, done, block, BodyGroup::Single(block), nm);
                        done = done.push(BodyGroup::Single(block));
                        assert(bs.take(j + 1).map_values(|b: Block| BodyGroup::Single(b))
                            =~= bs.take(j).map_values(|b: Block| BodyGroup::Single(b)).push(BodyGroup::Single(block)));
                    }
                    result.push(block);
                }
                proof {
                    assert(bs.take(bs.len() as int) =~= bs);
                    assert(done + groups_from(es, i + 1, pending) =~= before + groups_from(es, i, old_pending));
                }
                assert(current@ =~= Seq::<NumberedItem>::empty());
            },
        }
    }
    let ghost before = done;
    if current.len() > 0 {
        let block = finish_list(current, numberings, Ghost(pending));
        proof {
            lemma_blocks_of_groups_push(result@, done, block, BodyGroup::ListRun(pending), nm);
            done = done.push(BodyGroup::ListRun(pending));
        }
        result.push(block);
    }
    assert(done =~= goal);
    result
}

/// An item that goes no deeper than the item before it continues its level's
/// numbering: it never restarts.
pub proof fn law_restart_only_when_deeper(infos: Seq<NumInfo>, nm: Map<usize, ResolvedNumbering>, k: int)
    requires
        0 < k < infos.len(),
        infos[k].level <= infos[k - 1].level,
    ensures
        item_start(infos, nm, k) is None,
{
}

/// The list paragraphs of `es[i..]`, in order.
pub open spec fn list_paragraphs_from(es: Seq<TaggedElement>, i: int) -> Seq<(NumInfo, Paragraph)>
    decreases es.len() - i,
{
    if i < 0 || i >= es.len() {
        Seq::empty()
    } else {
        match es[i] {
            TaggedElement::ListParagraph { info, paragraph } => seq![(info, paragraph)] + list_paragraphs_from(es, i + 1),
            TaggedElement::Plain(_) => list_paragraphs_from(es, i + 1),
        }
    }
}

/// The list paragraphs the groups merge, in order.
pub open spec fn grouped_entries(gs: Seq<BodyGroup>) -> Seq<(NumInfo, Paragraph)>
    decreases gs.len(),
{
    if gs.len() == 0 {
        Seq::empty()
    } else {
        (match gs[0] {
            BodyGroup::ListRun(entries) => entries,
            BodyGroup::Single(_) => Seq::empty(),
        }) + grouped_entries(gs.drop_first())
    }
}

proof fn lemma_grouped_entries_append(a: Seq<BodyGroup>, b: Seq<BodyGroup>)
    ensures
        grouped_entries(a + b) == grouped_entries(a) + grouped_entries(b),
    decreases a.len(),
{
    if a.len() == 0 {
        assert(a + b =~= b);
        assert(grouped_entries(a) + grouped_entries(b) =~= grouped_entries(b));
    } else {
        assert((a + b).drop_first() =~= a.drop_first() + b);
        lemma_grouped_entries_append(a.drop_first(), b);
        let head: Seq<(NumInfo, Paragraph)> = match a[0] {
            BodyGroup::ListRun(entries) => entries,
            BodyGroup::Single(_) => Seq::empty(),
        };
        assert((a + b)[0] == a[0]);
        assert(head + (grouped_entries(a.drop_first()) + grouped_entries(b))
            =~= (head + grouped_entries(a.drop_first())) + grouped_entries(b));
    }
}

proof fn lemma_singles_have_no_entries(blocks: Seq<Block>)
    ensures
        grouped_entries(blocks.map_values(|b: Block| BodyGroup::Single(b))) == Seq::<(NumInfo, Paragraph)>::empty(),
    decreases blocks.len(),
{
    let gs = blocks.map_values(|b: Block| BodyGroup::Single(b));
    if blocks.len() > 0 {
        assert(gs.drop_first() =~= blocks.drop_first().map_values(|b: Block| BodyGroup::Single(b)));
        lemma_singles_have_no_entries(blocks.drop_first());
        assert(gs[0] == BodyGroup::Single(blocks[0]));
        assert(Seq::<(NumInfo, Paragraph)>::empty() + Seq::<(NumInfo, Paragraph)>::empty() =~= Seq::<(NumInfo, Paragraph)>::empty());
    }
}

proof fn lemma_flush_entries(pending: Seq<(NumInfo, Paragraph)>)
    ensures
        grouped_entries(flush_pending(pending)) == pending,
{
    assert(grouped_entries(Seq::<BodyGroup>::empty()) == Seq::<(NumInfo, Paragraph)>::empty());
    if pending.len() > 0 {
        let gs = flush_pending(pending);
        assert(gs[0] == BodyGroup::ListRun(pending));
        assert(gs.drop_first() =~= Seq::<BodyGroup>::empty());
        assert(pending + Seq::<(NumInfo, Paragraph)>::empty() =~= pending);
    } else {
        assert(pending =~= Seq::<(NumInfo, Paragraph)>::empty());
    }
}

proof fn lemma_groups_keep_list_paragraphs(es: Seq<TaggedElement>, i: int, pending: Seq<(NumInfo, Paragraph)>)
    requires
        0 <= i <= es.len(),
    ensures
        grouped_entries(groups_from(es, i, pending)) == pending + list_paragraphs_from(es, i),
    decreases es.len() - i,
{
    if i >= es.len() {
        lemma_flush_entries(pending);
        assert(pending + Seq::<(NumInfo, Paragraph)>::empty() =~= pending);
    } else {
        match es[i] {
            TaggedElement::ListParagraph { info, paragraph } => {
                lemma_groups_keep_list_paragraphs(es, i + 1, pending.push((info, paragraph)));
                assert(pending.push((info, paragraph)) + list_paragraphs_from(es, i + 1)
                    =~= pending + (seq![(info, paragraph)] + list_paragraphs_from(es, i + 1)));
            },
            TaggedElement::Plain(blocks) => {
                let singles = blocks@.map_values(|b: Block| BodyGroup::Single(b));
                lemma_groups_keep_list_paragraphs(es, i + 1, Seq::empty());
                lemma_grouped_entries_append(flush_pending(pending) + singles, groups_from(es, i + 1, Seq::empty()));
                lemma_grouped_entries_append(flush_pending(pending), singles);
                lemma_flush_entries(pending);
                lemma_singles_have_no_entries(blocks@);
                assert(Seq::<(NumInfo, Paragraph)>::empty() + list_paragraphs_from(es, i + 1) =~= list_paragraphs_from(es, i + 1));
                assert(pending + Seq::<(NumInfo, Paragraph)>::empty() =~= pending);
            },
        }
    }
}

/// Grouping keeps every list paragraph, in order: the lists' items are
/// exactly the list paragraphs of the body.
pub proof fn law_grouping_keeps_list_paragraphs(es: Seq<TaggedElement>)
    ensures
        grouped_entries(groups_from(es, 0, Seq::empty())) == list_paragraphs_from(es, 0),
{
    lemma_groups_keep_list_paragraphs(es, 0, Seq::empty());
    assert(Seq::<(NumInfo, Paragraph)>::empty() + list_paragraphs_from(es, 0) =~= list_paragraphs_from(es, 0));
}

/// No two lists follow each other directly.
pub open spec fn lists_separated(gs: Seq<BodyGroup>) -> bool {
    forall|k: int| 0 <= k < gs.len() - 1 ==> !((#[trigger] gs[k]) is ListRun && gs[k + 1] is ListRun)
}

proof fn lemma_separated_append(a: Seq<BodyGroup>, b: Seq<BodyGroup>)
    requires
        lists_separated(a),
        lists_separated(b),
        a.len() > 0 && b.len() > 0 ==> !(a[a.len() - 1] is ListRun && b[0] is ListRun),
    ensures
        lists_separated(a + b),
{
    let c = a + b;
    assert forall|k: int| 0 <= k < c.len() - 1 implies !((#[trigger] c[k]) is ListRun && c[k + 1] is ListRun) by {
        if k < a.len() - 1 {
            assert(c[k] == a[k] && c[k + 1] == a[k + 1]);
        } else if k == a.len() - 1 {
            assert(c[k] == a[k] && c[k + 1] == b[0]);
        } else {
            assert(c[k] == b[k - a.len()] && c[k + 1] == b[k - a.len() + 1]);
        }
    }
}

proof fn lemma_groups_separated(es: Seq<TaggedElement>, i: int, pending: Seq<(NumInfo, Paragraph)>)
    requires
        0 <= i <= es.len(),
        forall|k: int| 0 <= k < es.len() ==> ((#[trigger] es[k]) matches TaggedElement::Plain(blocks) ==> blocks@.len() > 0),
    ensures
        lists_separated(groups_from(es, i, pending)),
    decreases es.len() - i,
{
    if i < es.len() {
        match es[i] {
            TaggedElement::ListParagraph { info, paragraph } => {
                lemma_groups_separated(es, i + 1, pending.push((info, paragraph)));
            },
            TaggedElement::Plain(blocks) => {
                let singles = blocks@.map_values(|b: Block| BodyGroup::Single(b));
                let flushed = flush_pending(pending);
                let rest = groups_from(es, i + 1, Seq::empty());
                lemma_groups_separated(es, i + 1, Seq::empty());
                assert(lists_separated(singles));
                assert(lists_separated(flushed));
                lemma_separated_append(flushed, singles);
                assert((flushed + singles)[(flushed + singles).len() - 1] == singles[singles.len() - 1]);
                lemma_separated_append(flushed + singles, rest);
            },
        }
    }
}

/// When every regular element holds at least one block, no two lists follow
/// each other: adjacent list paragraphs always merge into one list.
pub proof fn law_adjacent_list_paragraphs_merge(es: Seq<TaggedElement>)
    requires
        forall|k: int| 0 <= k < es.len() ==> ((#[trigger] es[k]) matches TaggedElement::Plain(blocks) ==> blocks@.len() > 0),
    ensures
        lists_separated(groups_from(es, 0, Seq::empty())),
{
    lemma_groups_separated(es, 0, Seq::empty());
}

} // verus!
