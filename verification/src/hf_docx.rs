//! DOCX headers and footers: runs with `PAGE` / `NUMPAGES` field codes, and
//! the borderless layout tables Word uses to place left, centre and right
//! content on one header line.

use vstd::prelude::*;
use crate::ir::{
    hf_paragraph_views, inline_views, HFBorder, HFBorderStyle, HFInline, HFInlineView, HeaderFooter,
    HeaderFooterParagraph, HeaderFooterParagraphView, ParagraphStyle, ParagraphStyleView, Run, RunView, TextStyle,
};
use crate::style_map::{merge_paragraph_style, merged_paragraph, overrides_view, plain_paragraph_view, TabStopOverride};
use crate::text::{chars_of, is_space_char, is_whitespace, str_eq, trim_start_spec};
use crate::typst_text::{ascii_lower, lower_ascii_char, lower_char};

verus! {

/// A field code a header/footer shows: the page number or the page count.
#[derive(Clone, Copy, Debug, PartialEq, Eq)]
pub enum HfField {
    PageNumber,
    TotalPages,
}

/// One child of a run, as header/footer conversion reads it.
pub enum HfRunChild {
    /// `<w:fldChar w:fldCharType="begin">`.
    FieldBegin,
    /// `<w:fldChar w:fldCharType="separate">`.
    FieldSeparate,
    /// `<w:fldChar w:fldCharType="end">`.
    FieldEnd,
    /// A field instruction recognised as `PAGE`.
    InstrPage,
    /// A field instruction recognised as `NUMPAGES`.
    InstrNumPages,
    /// Another recognised field instruction.
    InstrOther,
    /// A field instruction kept as its text.
    InstrString(String),
    Text(String),
    Tab,
    /// Anything else (breaks, drawings, unsupported field characters).
    Other,
}

/// A run: its formatting and its children.
pub struct HfRun {
    pub style: TextStyle,
    pub children: Vec<HfRunChild>,
}

/// Field-code state, kept across the runs of one paragraph: Word splits a
/// field over several runs (begin, instruction, separate, cached result, end).
#[derive(Clone, Copy, Debug, PartialEq, Eq)]
pub struct HfFieldState {
    pub in_field: bool,
    pub past_separate: bool,
    pub field_inline: Option<HfField>,
}

pub open spec fn fresh_field_state() -> HfFieldState {
    HfFieldState { in_field: false, past_separate: false, field_inline: None }
}

impl HfFieldState {
    pub fn new() -> (state: HfFieldState)
        ensures
            state == fresh_field_state(),
    {
        HfFieldState { in_field: false, past_separate: false, field_inline: None }
    }
}

pub open spec fn field_view(field: HfField) -> HFInlineView {
    match field {
        HfField::PageNumber => HFInlineView::PageNumber,
        HfField::TotalPages => HFInlineView::TotalPages,
    }
}

pub open spec fn text_inline(text: Seq<char>, style: TextStyle) -> HFInlineView {
    HFInlineView::Run(RunView { text, style, href: None, footnote: None })
}

/// The end of the token starting at `i`: the first whitespace at or after it.
pub open spec fn token_end(s: Seq<char>, i: int) -> int
    decreases s.len() - i,
{
    if i < 0 || i >= s.len() || is_space_char(s[i]) { i } else { token_end(s, i + 1) }
}

/// The first whitespace-separated word of `s`, or nothing.
pub open spec fn leading_word(s: Seq<char>) -> Seq<char> {
    let t = trim_start_spec(s);
    t.subrange(0, token_end(t, 0))
}

/// The field an instruction text names by its first word, compared without
/// regard to ASCII case.
pub open spec fn instruction_field(instruction: Seq<char>) -> Option<HfField> {
    let word = ascii_lower(leading_word(instruction));
    if word == "page"@ {
        Some(HfField::PageNumber)
    } else if word == "numpages"@ {
        Some(HfField::TotalPages)
    } else {
        None
    }
}

/// One run child: field characters open, split and close a field (closing
/// emits the field it named); instructions inside a field name it; text
/// outside a field, and tabs outside a field, become runs; a field's cached
/// result is dropped.
pub open spec fn hf_child_step(
    elements: Seq<HFInlineView>,
    state: HfFieldState,
    style: TextStyle,
    child: HfRunChild,
) -> (Seq<HFInlineView>, HfFieldState) {
    match child {
        HfRunChild::FieldBegin => (elements, HfFieldState { in_field: true, past_separate: false, field_inline: None }),
        HfRunChild::FieldSeparate => (elements, HfFieldState { past_separate: true, ..state }),
        HfRunChild::FieldEnd => (
            match state.field_inline {
                Some(f) => elements.push(field_view(f)),
                None => elements,
            },
            HfFieldState { in_field: false, past_separate: false, field_inline: None },
        ),
        HfRunChild::InstrPage => if state.in_field {
            (elements, HfFieldState { field_inline: Some(HfField::PageNumber), ..state })
        } else {
            (elements, state)
        },
        HfRunChild::InstrNumPages => if state.in_field {
            (elements, HfFieldState { field_inline: Some(HfField::TotalPages), ..state })
        } else {
            (elements, state)
        },
        HfRunChild::InstrOther => (elements, state),
        HfRunChild::InstrString(value) => if state.in_field {
            match instruction_field(value@) {
                Some(f) => (elements, HfFieldState { field_inline: Some(f), ..state }),
                None => (elements, state),
            }
        } else {
            (elements, state)
        },
        HfRunChild::Text(text) => if !state.in_field && text@.len() > 0 {
            (elements.push(text_inline(text@, style)), state)
        } else {
            (elements, state)
        },
        HfRunChild::Tab => if !state.in_field {
            (elements.push(text_inline(seq!['\t'], style)), state)
        } else {
            (elements, state)
        },
        HfRunChild::Other => (elements, state),
    }
}

/// Inside a field nothing of the run's text shows: neither the instruction nor
/// the cached result (the field shows its live value when it ends).
pub proof fn law_field_text_is_hidden(elements: Seq<HFInlineView>, state: HfFieldState, style: TextStyle, child: HfRunChild)
    requires
        state.in_field,
        child is Text || child is Tab,
    ensures
        hf_child_step(elements, state, style, child) == (elements, state),
{
}

/// Ending a field shows exactly the field its instruction named, if any, and
/// leaves the field.
pub proof fn law_field_end_shows_field(elements: Seq<HFInlineView>, state: HfFieldState, style: TextStyle)
    ensures
        hf_child_step(elements, state, style, HfRunChild::FieldEnd).0 == match state.field_inline {
            Some(f) => elements.push(field_view(f)),
            None => elements,
        },
        !hf_child_step(elements, state, style, HfRunChild::FieldEnd).1.in_field,
{
}

/// The elements and state after the first `n` children of a run.
pub open spec fn hf_children_upto(
    children: Seq<HfRunChild>,
    n: int,
    elements: Seq<HFInlineView>,
    state: HfFieldState,
    style: TextStyle,
) -> (Seq<HFInlineView>, HfFieldState)
    decreases n,
{
    if n <= 0 || n > children.len() {
        (elements, state)
    } else {
        let (e, s) = hf_children_upto(children, n - 1, elements, state, style);
        hf_child_step(e, s, style, children[n - 1])
    }
}

/// The elements and state after the first `n` runs.
pub open spec fn hf_runs_upto(runs: Seq<HfRun>, n: int, elements: Seq<HFInlineView>, state: HfFieldState) -> (Seq<HFInlineView>, HfFieldState)
    decreases n,
{
    if n <= 0 || n > runs.len() {
        (elements, state)
    } else {
        let (e, s) = hf_runs_upto(runs, n - 1, elements, state);
        hf_children_upto(runs[n - 1].children@, runs[n - 1].children@.len() as int, e, s, runs[n - 1].style)
    }
}

/// The inlines of a paragraph's runs, read with a fresh field state.
pub open spec fn hf_run_inlines(runs: Seq<HfRun>) -> Seq<HFInlineView> {
    hf_runs_upto(runs, runs.len() as int, Seq::empty(), fresh_field_state()).0
}

/// Whether the first word of `text` is `word` (lowercase ASCII), ignoring ASCII case.
fn leading_word_is(text: &str, word: &str) -> (matches: bool)
    ensures
        matches == (ascii_lower(leading_word(text@)) == ascii_lower(word@)),
{
    let cs = chars_of(text);
    let ws = chars_of(word);
    let mut start: usize = 0;
    assert(cs@.skip(0) =~= cs@);
    while start < cs.len() && is_whitespace(cs[start])
        invariant
            cs@ == text@,
            start <= cs@.len(),
            trim_start_spec(cs@.skip(start as int)) == trim_start_spec(text@),
        decreases cs@.len() - start,
    {
        assert(cs@.skip(start as int).drop_first() =~= cs@.skip(start + 1));
        start = start + 1;
    }
    let ghost t = cs@.skip(start as int);
    assert(trim_start_spec(t) == t);
    let mut end: usize = start;
    while end < cs.len() && !is_whitespace(cs[end])
        invariant
            cs@ == text@,
            start <= end <= cs@.len(),
            t == cs@.skip(start as int),
            token_end(t, (end - start) as int) == token_end(t, 0),
        decreases cs@.len() - end,
    {
        end = end + 1;
    }
    assert(token_end(t, (end - start) as int) == (end - start) as int);
    let ghost token = t.subrange(0, (end - start) as int);
    assert(token =~= cs@.subrange(start as int, end as int));
    assert(trim_start_spec(text@) == t);
    assert(leading_word(text@) == token);
    if end - start != ws.len() {
        assert(ascii_lower(token).len() != ascii_lower(word@).len());
        assert(!(ascii_lower(leading_word(text@)) =~= ascii_lower(word@)));
        return false;
    }
    let mut k: usize = 0;
    while k < ws.len()
        invariant
            cs@ == text@,
            ws@ == word@,
            start <= end <= cs@.len(),
            end - start == ws@.len(),
            token =~= cs@.subrange(start as int, end as int),
            leading_word(text@) == token,
            k <= ws@.len(),
            forall|j: int| 0 <= j < k ==> lower_ascii_char(#[trigger] token[j]) == lower_ascii_char(ws@[j]),
        decreases ws@.len() - k,
    {
        if lower_char(cs[start + k]) != lower_char(ws[k]) {
            assert(ascii_lower(token)[k as int] != ascii_lower(word@)[k as int]);
            return false;
        }
        k = k + 1;
    }
    assert(ascii_lower(token) =~= ascii_lower(word@));
    true
}

fn instruction_field_of(instruction: &str) -> (field: Option<HfField>)
    ensures
        field == instruction_field(instruction@),
{
    proof {
        reveal_strlit("page");
        reveal_strlit("numpages");
        assert(ascii_lower("page"@) =~= "page"@);
        assert(ascii_lower("numpages"@) =~= "numpages"@);
    }
    if leading_word_is(instruction, "page") {
        Some(HfField::PageNumber)
    } else if leading_word_is(instruction, "numpages") {
        Some(HfField::TotalPages)
    } else {
        None
    }
}

fn push_inline(elements: &mut Vec<HFInline>, inline: HFInline)
    ensures
        inline_views(final(elements)@) == inline_views(old(elements)@).push(inline@),
{
    elements.push(inline);
    assert(inline_views(elements@) =~= inline_views(old(elements)@).push(inline@));
}

fn field_inline(field: HfField) -> (inline: HFInline)
    ensures
        inline@ == field_view(field),
{
    match field {
        HfField::PageNumber => HFInline::PageNumber,
        HfField::TotalPages => HFInline::TotalPages,
    }
}

/// Collects the header/footer inlines of a run's children, carrying the
/// field-code state across runs.
pub fn extract_hf_run_elements(
    children: &[HfRunChild],
    style: &TextStyle,
    elements: &mut Vec<HFInline>,
    field_state: &mut HfFieldState,
)
    ensures
        (inline_views(final(elements)@), *final(field_state)) == hf_children_upto(
            children@,
            children@.len() as int,
            inline_views(old(elements)@),
            *old(field_state),
            *style,
        ),
{
    let mut i: usize = 0;
    while i < children.len()
        invariant
            i <= children@.len(),
            (inline_views(elements@), *field_state) == hf_children_upto(
                children@,
                i as int,
                inline_views(old(elements)@),
                *old(field_state),
                *style,
            ),
        decreases children@.len() - i,
    {
        match &children[i] {
            HfRunChild::FieldBegin => {
                field_state.in_field = true;
                field_state.field_inline = None;
                field_state.past_separate = false;
            },
            HfRunChild::FieldSeparate => {
                field_state.past_separate = true;
            },
            HfRunChild::FieldEnd => {
                if let Some(f) = field_state.field_inline {
                    push_inline(elements, field_inline(f));
                }
                field_state.field_inline = None;
                field_state.in_field = false;
                field_state.past_separate = false;
            },
            HfRunChild::InstrPage => {
                if field_state.in_field {
                    field_state.field_inline = Some(HfField::PageNumber);
                }
            },
            HfRunChild::InstrNumPages => {
                if field_state.in_field {
                    field_state.field_inline = Some(HfField::TotalPages);
                }
            },
            HfRunChild::InstrOther => {},
            HfRunChild::InstrString(value) => {
                if field_state.in_field {
                    if let Some(f) = instruction_field_of(value.as_str()) {
                        field_state.field_inline = Some(f);
                    }
                }
            },
            HfRunChild::Text(text) => {
                if !field_state.in_field && !text.as_str().is_empty() {
                    let run = Run { text: text.clone(), style: style.duplicate(), href: None, footnote: None };
                    push_inline(elements, HFInline::Run(run));
                }
            },
            HfRunChild::Tab => {
                if !field_state.in_field {
                    let mut tab = String::new();
                    crate::text::push_char(&mut tab, '\t');
                    assert(tab@ =~= seq!['\t']);
                    let run = Run { text: tab, style: style.duplicate(), href: None, footnote: None };
                    push_inline(elements, HFInline::Run(run));
                }
            },
            HfRunChild::Other => {},
        }
        i = i + 1;
    }
}

/// Collects the inlines of a paragraph's runs in order, carrying the
/// field-code state from run to run.
pub fn collect_hf_paragraph_children(runs: &[HfRun], elements: &mut Vec<HFInline>, field_state: &mut HfFieldState)
    ensures
        (inline_views(final(elements)@), *final(field_state))
            == hf_runs_upto(runs@, runs@.len() as int, inline_views(old(elements)@), *old(field_state)),
{
    let mut i: usize = 0;
    while i < runs.len()
        invariant
            i <= runs@.len(),
            (inline_views(elements@), *field_state) == hf_runs_upto(
                runs@,
                i as int,
                inline_views(old(elements)@),
                *old(field_state),
            ),
        decreases runs@.len() - i,
    {
        extract_hf_run_elements(runs[i].children.as_slice(), &runs[i].style, elements, field_state);
        i = i + 1;
    }
}

proof fn lemma_children_append(
    children: Seq<HfRunChild>,
    n: int,
    elements: Seq<HFInlineView>,
    state: HfFieldState,
    style: TextStyle,
)
    ensures
        hf_children_upto(children, n, elements, state, style).0
            == elements + hf_children_upto(children, n, Seq::empty(), state, style).0,
        hf_children_upto(children, n, elements, state, style).1 == hf_children_upto(children, n, Seq::empty(), state, style).1,
    decreases n,
{
    if !(n <= 0 || n > children.len()) {
        lemma_children_append(children, n - 1, elements, state, style);
        let (e, s) = hf_children_upto(children, n - 1, Seq::empty(), state, style);
        let child = children[n - 1];
        assert((elements + e).push(text_inline(seq!['\t'], style)) =~= elements + e.push(text_inline(seq!['\t'], style)));
        match child {
            HfRunChild::Text(text) => {
                assert((elements + e).push(text_inline(text@, style)) =~= elements + e.push(text_inline(text@, style)));
            },
            HfRunChild::FieldEnd => {
                if let Some(f) = s.field_inline {
                    assert((elements + e).push(field_view(f)) =~= elements + e.push(field_view(f)));
                }
            },
            _ => {},
        }
    } else {
        assert(elements + Seq::<HFInlineView>::empty() =~= elements);
    }
}

proof fn lemma_runs_append(runs: Seq<HfRun>, n: int, elements: Seq<HFInlineView>, state: HfFieldState)
    ensures
        hf_runs_upto(runs, n, elements, state).0 == elements + hf_runs_upto(runs, n, Seq::empty(), state).0,
        hf_runs_upto(runs, n, elements, state).1 == hf_runs_upto(runs, n, Seq::empty(), state).1,
    decreases n,
{
    if !(n <= 0 || n > runs.len()) {
        lemma_runs_append(runs, n - 1, elements, state);
        let (e, s) = hf_runs_upto(runs, n - 1, Seq::empty(), state);
        let run = runs[n - 1];
        lemma_children_append(run.children@, run.children@.len() as int, elements + e, s, run.style);
        lemma_children_append(run.children@, run.children@.len() as int, e, s, run.style);
        assert((elements + e) + hf_children_upto(run.children@, run.children@.len() as int, Seq::empty(), s, run.style).0
            =~= elements + (e + hf_children_upto(run.children@, run.children@.len() as int, Seq::empty(), s, run.style).0));
    } else {
        assert(elements + Seq::<HFInlineView>::empty() =~= elements);
    }
}

/// A child of a header/footer paragraph as read: a run, a content control
/// (`<w:sdt>`, Word's quick-field building blocks wrap their field runs in
/// one) or a paragraph nested in a content control, given by its children,
/// or anything else.
pub enum HfInlineChild {
    Run(HfRun),
    Group(Vec<HfInlineChild>),
    Other,
}

/// The runs of `children` in document order, descending into groups.
pub open spec fn flat_runs(children: Seq<HfInlineChild>) -> Seq<HfRun>
    decreases children,
{
    if children.len() == 0 {
        Seq::empty()
    } else {
        let last = children[children.len() - 1];
        let rest = children.subrange(0, children.len() - 1);
        flat_runs(rest) + match last {
            HfInlineChild::Run(r) => seq![r],
            HfInlineChild::Group(nested) => flat_runs(nested@),
            HfInlineChild::Other => Seq::empty(),
        }
    }
}

/// Moves the runs of `children`, groups descended into, onto `runs`, in
/// document order.
pub fn collect_hf_sdt_children(children: Vec<HfInlineChild>, runs: &mut Vec<HfRun>)
    ensures
        final(runs)@ == old(runs)@ + flat_runs(children@),
    decreases children@,
{
    let ghost all = children@;
    let ghost start = runs@;
    for child in it: children
        invariant
            it.seq() == all,
            runs@ == start + flat_runs(all.subrange(0, it.index() as int)),
    {
        let ghost i = it.index() as int;
        assert(all.subrange(0, i + 1).subrange(0, i) =~= all.subrange(0, i));
        assert(all.subrange(0, i + 1)[i] == child);
        match child {
            HfInlineChild::Run(r) => {
                runs.push(r);
                assert(runs@ =~= start + flat_runs(all.subrange(0, i + 1)));
            },
            HfInlineChild::Group(nested) => {
                let ghost before = runs@;
                collect_hf_sdt_children(nested, runs);
                assert(runs@ =~= start + flat_runs(all.subrange(0, i + 1)));
            },
            HfInlineChild::Other => {
                assert(runs@ =~= start + flat_runs(all.subrange(0, i + 1)));
            },
        }
    }
    assert(all.subrange(0, all.len() as int) =~= all);
}

/// A header/footer paragraph as read: its own paragraph formatting, its tab
/// stop changes, and its runs in document order (runs inside
/// structured-document tags included).
pub struct HfParagraph {
    pub style: ParagraphStyle,
    pub tab_overrides: Option<Vec<TabStopOverride>>,
    pub runs: Vec<HfRun>,
}

/// A paragraph of a header or footer: its formatting resolved without a
/// style, its inlines read with a fresh field state.
pub open spec fn hf_paragraph_view(p: HfParagraph) -> HeaderFooterParagraphView {
    HeaderFooterParagraphView {
        style: merged_paragraph(p.style@, overrides_view(p.tab_overrides), None),
        elements: hf_run_inlines(p.runs@),
    }
}

fn overrides_slice(overrides: &Option<Vec<TabStopOverride>>) -> (slice: Option<&[TabStopOverride]>)
    ensures
        match slice {
            Some(s) => overrides_view(*overrides) == Some(s@),
            None => overrides_view(*overrides) is None,
        },
{
    match overrides {
        Some(o) => Some(o.as_slice()),
        None => None,
    }
}

/// The inlines of a paragraph's runs, read with a fresh field state.
fn paragraph_inlines(runs: &[HfRun], elements: &mut Vec<HFInline>)
    ensures
        inline_views(final(elements)@) == inline_views(old(elements)@) + hf_run_inlines(runs@),
{
    let mut state = HfFieldState::new();
    let ghost before = inline_views(elements@);
    collect_hf_paragraph_children(runs, elements, &mut state);
    proof {
        lemma_runs_append(runs@, runs@.len() as int, before, fresh_field_state());
    }
}

/// Converts a header/footer paragraph.
pub fn convert_hf_paragraph(paragraph: &HfParagraph) -> (p: HeaderFooterParagraph)
    ensures
        p@ == hf_paragraph_view(*paragraph),
{
    let style = merge_paragraph_style(&paragraph.style, overrides_slice(&paragraph.tab_overrides), None);
    let mut elements: Vec<HFInline> = Vec::new();
    assert(inline_views(elements@) =~= Seq::<HFInlineView>::empty());
    paragraph_inlines(paragraph.runs.as_slice(), &mut elements);
    assert(Seq::<HFInlineView>::empty() + hf_run_inlines(paragraph.runs@) =~= hf_run_inlines(paragraph.runs@));
    HeaderFooterParagraph { style, elements }
}

/// A border as a table or cell property gives it: its type and its size in
/// eighths of a point.
pub struct RawBorder {
    pub border_type: String,
    pub size: Option<u64>,
}

/// The border types drawn as two parallel lines.
pub open spec fn is_double_border(t: Seq<char>) -> bool {
    ||| t == "thickThinSmallGap"@
    ||| t == "thinThickSmallGap"@
    ||| t == "thickThinMediumGap"@
    ||| t == "thinThickMediumGap"@
    ||| t == "thickThinLargeGap"@
    ||| t == "thinThickLargeGap"@
    ||| t == "double"@
    ||| t == "doubleWave"@
    ||| t == "triple"@
}

/// The rule a border draws: none for `nil` and `none`; otherwise its size
/// (4 eighths when unset), double or single.
pub open spec fn border_of(raw: RawBorder) -> Option<HFBorder> {
    let t = raw.border_type@;
    if t == "nil"@ || t == "none"@ {
        None
    } else {
        Some(HFBorder {
            thickness_eighths: match raw.size {
                Some(s) => s,
                None => 4,
            },
            style: if is_double_border(t) { HFBorderStyle::Double } else { HFBorderStyle::Single },
        })
    }
}

fn convert_border(raw: &RawBorder) -> (border: Option<HFBorder>)
    ensures
        border == border_of(*raw),
{
    let t = raw.border_type.as_str();
    if str_eq(t, "nil") || str_eq(t, "none") {
        return None;
    }
    let double = str_eq(t, "thickThinSmallGap") || str_eq(t, "thinThickSmallGap") || str_eq(t, "thickThinMediumGap")
        || str_eq(t, "thinThickMediumGap") || str_eq(t, "thickThinLargeGap") || str_eq(t, "thinThickLargeGap")
        || str_eq(t, "double") || str_eq(t, "doubleWave") || str_eq(t, "triple");
    Some(HFBorder {
        thickness_eighths: match raw.size {
            Some(s) => s,
            None => 4,
        },
        style: if double { HFBorderStyle::Double } else { HFBorderStyle::Single },
    })
}

/// A cell of a header/footer layout table: its paragraphs, and its bottom
/// border when its properties set one.
pub struct HfTableCell {
    pub paragraphs: Vec<HfParagraph>,
    pub bottom_border: Option<RawBorder>,
}

/// A header/footer layout table: rows of cells, and the table's top border.
pub struct HfTable {
    pub rows: Vec<Vec<HfTableCell>>,
    pub top_border: Option<RawBorder>,
}

pub open spec fn table_top_border(table: HfTable) -> Option<HFBorder> {
    match table.top_border {
        Some(raw) => border_of(raw),
        None => None,
    }
}

/// The first drawn bottom border among `cells[i..]`.
pub open spec fn cells_bottom_border(cells: Seq<HfTableCell>, i: int) -> Option<HFBorder>
    decreases cells.len() - i,
{
    if i < 0 || i >= cells.len() {
        None
    } else {
        match cells[i].bottom_border {
            Some(raw) => match border_of(raw) {
                Some(b) => Some(b),
                None => cells_bottom_border(cells, i + 1),
            },
            None => cells_bottom_border(cells, i + 1),
        }
    }
}

/// The first drawn cell bottom border, row by row, among `rows[i..]`.
pub open spec fn rows_bottom_border(rows: Seq<Vec<HfTableCell>>, i: int) -> Option<HFBorder>
    decreases rows.len() - i,
{
    if i < 0 || i >= rows.len() {
        None
    } else {
        match cells_bottom_border(rows[i]@, 0) {
            Some(b) => Some(b),
            None => rows_bottom_border(rows, i + 1),
        }
    }
}

pub open spec fn table_bottom_border(table: HfTable) -> Option<HFBorder> {
    rows_bottom_border(table.rows@, 0)
}

/// The number of lines of a row: its tallest cell's paragraph count, over the
/// first `n` cells.
pub open spec fn row_line_count(cells: Seq<HfTableCell>, n: int) -> nat
    decreases n,
{
    if n <= 0 || n > cells.len() {
        0
    } else {
        let rest = row_line_count(cells, n - 1);
        let here = cells[n - 1].paragraphs@.len();
        if here > rest { here } else { rest }
    }
}

/// The inlines of line `line` over the first `n` cells: a spacer between
/// cells, and each cell's paragraph of that line, if it has one.
pub open spec fn line_inlines(cells: Seq<HfTableCell>, line: int, n: int) -> Seq<HFInlineView>
    decreases n,
{
    if n <= 0 || n > cells.len() {
        Seq::empty()
    } else {
        let before = line_inlines(cells, line, n - 1);
        let spaced = if n - 1 > 0 { before.push(HFInlineView::Spacer) } else { before };
        if line < cells[n - 1].paragraphs@.len() {
            spaced + hf_run_inlines(cells[n - 1].paragraphs@[line].runs@)
        } else {
            spaced
        }
    }
}

/// The formatting of line `line`: that of the first cell, at or after `i`,
/// that has a paragraph there.
pub open spec fn line_style(cells: Seq<HfTableCell>, line: int, i: int) -> Option<ParagraphStyleView>
    decreases cells.len() - i,
{
    if i < 0 || i >= cells.len() {
        None
    } else if line < cells[i].paragraphs@.len() {
        Some(cells[i].paragraphs@[line].style@)
    } else {
        line_style(cells, line, i + 1)
    }
}

/// One line of a layout table row as a header/footer paragraph.
pub open spec fn table_line(cells: Seq<HfTableCell>, line: int) -> HeaderFooterParagraphView {
    HeaderFooterParagraphView {
        style: match line_style(cells, line, 0) {
            Some(s) => s,
            None => plain_paragraph_view(),
        },
        elements: line_inlines(cells, line, cells.len() as int),
    }
}

/// The paragraphs of the first `n` rows: one per line of each row.
pub open spec fn table_paragraphs_upto(rows: Seq<Vec<HfTableCell>>, n: int) -> Seq<HeaderFooterParagraphView>
    decreases n,
{
    if n <= 0 || n > rows.len() {
        Seq::empty()
    } else {
        let cells = rows[n - 1]@;
        table_paragraphs_upto(rows, n - 1)
            + Seq::new(row_line_count(cells, cells.len() as int), |line: int| table_line(cells, line))
    }
}

pub open spec fn table_paragraphs(table: HfTable) -> Seq<HeaderFooterParagraphView> {
    table_paragraphs_upto(table.rows@, table.rows@.len() as int)
}

fn row_lines(cells: &Vec<HfTableCell>) -> (count: usize)
    ensures
        count == row_line_count(cells@, cells@.len() as int),
{
    let mut count: usize = 0;
    let mut i: usize = 0;
    while i < cells.len()
        invariant
            i <= cells@.len(),
            count == row_line_count(cells@, i as int),
        decreases cells@.len() - i,
    {
        let here = cells[i].paragraphs.len();
        if here > count {
            count = here;
        }
        i = i + 1;
    }
    count
}

fn convert_table_line(cells: &Vec<HfTableCell>, line: usize) -> (p: HeaderFooterParagraph)
    ensures
        p@ == table_line(cells@, line as int),
{
    let mut elements: Vec<HFInline> = Vec::new();
    let mut row_style: Option<ParagraphStyle> = None;
    let mut i: usize = 0;
    assert(inline_views(elements@) =~= Seq::<HFInlineView>::empty());
    while i < cells.len()
        invariant
            i <= cells@.len(),
            inline_views(elements@) == line_inlines(cells@, line as int, i as int),
            match row_style {
                Some(s) => line_style(cells@, line as int, 0) == Some(s@),
                None => line_style(cells@, line as int, 0) == line_style(cells@, line as int, i as int),
            },
        decreases cells@.len() - i,
    {
        if i > 0 {
            push_inline(&mut elements, HFInline::Spacer);
        }
        let cell = &cells[i];
        if line < cell.paragraphs.len() {
            let paragraph = &cell.paragraphs[line];
            if row_style.is_none() {
                row_style = Some(paragraph.style.duplicate());
            }
            paragraph_inlines(paragraph.runs.as_slice(), &mut elements);
        }
        i = i + 1;
    }
    let style = match row_style {
        Some(s) => s,
        None => {
            let plain = ParagraphStyle::default();
            assert(plain@ == plain_paragraph_view());
            plain
        },
    };
    HeaderFooterParagraph { style, elements }
}

fn first_cell_bottom_border(cells: &Vec<HfTableCell>) -> (border: Option<HFBorder>)
    ensures
        border == cells_bottom_border(cells@, 0),
{
    let mut i: usize = 0;
    while i < cells.len()
        invariant
            i <= cells@.len(),
            cells_bottom_border(cells@, i as int) == cells_bottom_border(cells@, 0),
        decreases cells@.len() - i,
    {
        if let Some(raw) = &cells[i].bottom_border {
            if let Some(b) = convert_border(raw) {
                return Some(b);
            }
        }
        i = i + 1;
    }
    None
}

fn first_row_bottom_border(rows: &Vec<Vec<HfTableCell>>) -> (border: Option<HFBorder>)
    ensures
        border == rows_bottom_border(rows@, 0),
{
    let mut r: usize = 0;
    while r < rows.len()
        invariant
            r <= rows@.len(),
            rows_bottom_border(rows@, r as int) == rows_bottom_border(rows@, 0),
        decreases rows@.len() - r,
    {
        if let Some(b) = first_cell_bottom_border(&rows[r]) {
            return Some(b);
        }
        r = r + 1;
    }
    None
}

/// Converts a header/footer layout table into paragraphs, one per line of
/// each row (cells separated by spacers), with the table's top border and the
/// first cell bottom border it draws.
pub fn convert_hf_table_to_paragraphs(table: &HfTable) -> (converted: (Vec<HeaderFooterParagraph>, Option<HFBorder>, Option<HFBorder>))
    ensures
        hf_paragraph_views(converted.0@) == table_paragraphs(*table),
        converted.1 == table_top_border(*table),
        converted.2 == table_bottom_border(*table),
{
    let mut paragraphs: Vec<HeaderFooterParagraph> = Vec::new();
    let mut r: usize = 0;
    assert(hf_paragraph_views(paragraphs@) =~= Seq::<HeaderFooterParagraphView>::empty());
    while r < table.rows.len()
        invariant
            r <= table.rows@.len(),
            hf_paragraph_views(paragraphs@) == table_paragraphs_upto(table.rows@, r as int),
        decreases table.rows@.len() - r,
    {
        let cells = &table.rows[r];
        let count = row_lines(cells);
        let ghost before = hf_paragraph_views(paragraphs@);
        let mut line: usize = 0;
        while line < count
            invariant
                line <= count,
                count == row_line_count(cells@, cells@.len() as int),
                paragraphs@.len() == before.len() + line,
                forall|k: int| 0 <= k < before.len() ==> (#[trigger] paragraphs@[k])@ == before[k],
                forall|j: int| before.len() <= j < before.len() + line ==> (#[trigger] paragraphs@[j])@ == table_line(cells@, j - before.len()),
            decreases count - line,
        {
            paragraphs.push(convert_table_line(cells, line));
            line = line + 1;
        }
        assert(hf_paragraph_views(paragraphs@) =~= before
            + Seq::new(row_line_count(cells@, cells@.len() as int), |l: int| table_line(cells@, l)));
        r = r + 1;
    }
    let top = extract_hf_table_top_border(table);
    let bottom = extract_hf_table_bottom_border(table);
    (paragraphs, top, bottom)
}

/// The rule above a layout table: its top border, unless that is `nil` or `none`.
pub fn extract_hf_table_top_border(table: &HfTable) -> (border: Option<HFBorder>)
    ensures
        border == table_top_border(*table),
{
    match &table.top_border {
        Some(raw) => convert_border(raw),
        None => None,
    }
}

/// The rule below a layout table: the first cell bottom border that draws,
/// row by row and cell by cell.
pub fn extract_hf_table_bottom_border(table: &HfTable) -> (border: Option<HFBorder>)
    ensures
        border == table_bottom_border(*table),
{
    first_row_bottom_border(&table.rows)
}

/// A child of a header or footer part.
pub enum HfChild {
    Paragraph(HfParagraph),
    Table(HfTable),
    /// Structured-document tags at part level are not rendered.
    Other,
}

/// The paragraphs and borders of the first `n` children: paragraphs in
/// order, tables as their lines; the first table top and bottom borders count.
pub open spec fn header_parts(children: Seq<HfChild>, n: int) -> (Seq<HeaderFooterParagraphView>, Option<HFBorder>, Option<HFBorder>)
    decreases n,
{
    if n <= 0 || n > children.len() {
        (Seq::empty(), None, None)
    } else {
        let (ps, top, bottom) = header_parts(children, n - 1);
        match children[n - 1] {
            HfChild::Paragraph(p) => (ps.push(hf_paragraph_view(p)), top, bottom),
            HfChild::Table(t) => (
                ps + table_paragraphs(t),
                if top is Some { top } else { table_top_border(t) },
                if bottom is Some { bottom } else { table_bottom_border(t) },
            ),
            HfChild::Other => (ps, top, bottom),
        }
    }
}

/// A header or footer part: none when it has no paragraph.
pub open spec fn header_footer_of(children: Seq<HfChild>) -> Option<(Seq<HeaderFooterParagraphView>, Option<HFBorder>, Option<HFBorder>)> {
    let parts = header_parts(children, children.len() as int);
    if parts.0.len() == 0 { None } else { Some(parts) }
}

/// Converts the children of a header or footer part.
pub fn convert_header_footer(children: &[HfChild]) -> (hf: Option<HeaderFooter>)
    ensures
        match hf {
            Some(h) => header_footer_of(children@) == Some((hf_paragraph_views(h.paragraphs@), h.top_border, h.bottom_border)),
            None => header_footer_of(children@) is None,
        },
{
    let mut paragraphs: Vec<HeaderFooterParagraph> = Vec::new();
    let mut top_border: Option<HFBorder> = None;
    let mut bottom_border: Option<HFBorder> = None;
    let mut i: usize = 0;
    assert(hf_paragraph_views(paragraphs@) =~= Seq::<HeaderFooterParagraphView>::empty());
    while i < children.len()
        invariant
            i <= children@.len(),
            (hf_paragraph_views(paragraphs@), top_border, bottom_border) == header_parts(children@, i as int),
        decreases children@.len() - i,
    {
        match &children[i] {
            HfChild::Paragraph(p) => {
                let converted = convert_hf_paragraph(p);
                let ghost before = paragraphs@;
                paragraphs.push(converted);
                assert(hf_paragraph_views(paragraphs@) =~= hf_paragraph_views(before).push(hf_paragraph_view(*p)));
            },
            HfChild::Table(t) => {
                let (lines, table_top, table_bottom) = convert_hf_table_to_paragraphs(t);
                let ghost before = paragraphs@;
                let mut extra = lines;
                paragraphs.append(&mut extra);
                assert(hf_paragraph_views(paragraphs@) =~= hf_paragraph_views(before) + table_paragraphs(*t));
                if top_border.is_none() {
                    top_border = table_top;
                }
                if bottom_border.is_none() {
                    bottom_border = table_bottom;
                }
            },
            HfChild::Other => {},
        }
        i = i + 1;
    }
    if paragraphs.len() == 0 {
        return None;
    }
    Some(HeaderFooter { paragraphs, top_border, bottom_border })
}

/// A header or footer as plain values: paragraphs, top border, bottom border.
pub open spec fn header_footer_view(h: HeaderFooter) -> (Seq<HeaderFooterParagraphView>, Option<HFBorder>, Option<HFBorder>) {
    (hf_paragraph_views(h.paragraphs@), h.top_border, h.bottom_border)
}

/// Where a section's header (or footer) can come from: for the default, the
/// first-page and the even-page variant, the part read inline and the
/// relationship id of the part referenced.
pub struct SectionHfSources {
    pub default_part: Option<Vec<HfChild>>,
    pub default_reference: Option<String>,
    pub first_part: Option<Vec<HfChild>>,
    pub first_reference: Option<String>,
    pub even_part: Option<Vec<HfChild>>,
    pub even_reference: Option<String>,
}

/// The converted part with relationship id `id`, first match.
pub open spec fn asset_lookup(assets: Seq<(String, HeaderFooter)>, id: Seq<char>, i: int) -> Option<HeaderFooter>
    decreases assets.len() - i,
{
    if i < 0 || i >= assets.len() {
        None
    } else if assets[i].0@ == id {
        Some(assets[i].1)
    } else {
        asset_lookup(assets, id, i + 1)
    }
}

pub open spec fn part_choice(part: Option<Vec<HfChild>>) -> Option<(Seq<HeaderFooterParagraphView>, Option<HFBorder>, Option<HFBorder>)> {
    match part {
        Some(children) => header_footer_of(children@),
        None => None,
    }
}

pub open spec fn reference_choice(
    reference: Option<String>,
    assets: Seq<(String, HeaderFooter)>,
) -> Option<(Seq<HeaderFooterParagraphView>, Option<HFBorder>, Option<HFBorder>)> {
    match reference {
        Some(id) => match asset_lookup(assets, id@, 0) {
            Some(h) => Some(header_footer_view(h)),
            None => None,
        },
        None => None,
    }
}

/// The header (or footer) a section shows: the default variant, inline then
/// referenced, else the first-page variant, else the even-page variant.
pub open spec fn section_header_footer(
    sources: SectionHfSources,
    assets: Seq<(String, HeaderFooter)>,
) -> Option<(Seq<HeaderFooterParagraphView>, Option<HFBorder>, Option<HFBorder>)> {
    let candidates = seq![
        part_choice(sources.default_part),
        reference_choice(sources.default_reference, assets),
        part_choice(sources.first_part),
        reference_choice(sources.first_reference, assets),
        part_choice(sources.even_part),
        reference_choice(sources.even_reference, assets),
    ];
    first_some(candidates, 0)
}

pub open spec fn first_some<T>(candidates: Seq<Option<T>>, i: int) -> Option<T>
    decreases candidates.len() - i,
{
    if i < 0 || i >= candidates.len() {
        None
    } else if candidates[i] is Some {
        candidates[i]
    } else {
        first_some(candidates, i + 1)
    }
}

fn convert_part(part: &Option<Vec<HfChild>>) -> (hf: Option<HeaderFooter>)
    ensures
        match hf {
            Some(h) => part_choice(*part) == Some(header_footer_view(h)),
            None => part_choice(*part) is None,
        },
{
    match part {
        Some(children) => convert_header_footer(children.as_slice()),
        None => None,
    }
}

fn referenced_part(reference: &Option<String>, assets: &[(String, HeaderFooter)]) -> (hf: Option<HeaderFooter>)
    ensures
        match hf {
            Some(h) => reference_choice(*reference, assets@) == Some(header_footer_view(h)),
            None => reference_choice(*reference, assets@) is None,
        },
{
    let id = match reference {
        Some(id) => id,
        None => {
            return None;
        },
    };
    let mut i: usize = 0;
    while i < assets.len()
        invariant
            i <= assets@.len(),
            asset_lookup(assets@, id@, i as int) == asset_lookup(assets@, id@, 0),
            *reference == Some(*id),
        decreases assets@.len() - i,
    {
        if str_eq(assets[i].0.as_str(), id.as_str()) {
            assert(asset_lookup(assets@, id@, i as int) == Some(assets@[i as int].1));
            let copy = assets[i].1.duplicate();
            assert(header_footer_view(copy) == header_footer_view(assets@[i as int].1));
            return Some(copy);
        }
        i = i + 1;
    }
    None
}

/// The header (or footer) of a section, from its inline parts and the parts
/// converted from the package (`assets`, by relationship id).
pub fn extract_section_header_footer(sources: &SectionHfSources, assets: &[(String, HeaderFooter)]) -> (hf: Option<HeaderFooter>)
    ensures
        match hf {
            Some(h) => section_header_footer(*sources, assets@) == Some(header_footer_view(h)),
            None => section_header_footer(*sources, assets@) is None,
        },
{
    proof {
        reveal_with_fuel(first_some, 7);
    }
    if let Some(h) = convert_part(&sources.default_part) {
        return Some(h);
    }
    if let Some(h) = referenced_part(&sources.default_reference, assets) {
        return Some(h);
    }
    if let Some(h) = convert_part(&sources.first_part) {
        return Some(h);
    }
    if let Some(h) = referenced_part(&sources.first_reference, assets) {
        return Some(h);
    }
    if let Some(h) = convert_part(&sources.even_part) {
        return Some(h);
    }
    referenced_part(&sources.even_reference, assets)
}

} // verus!
