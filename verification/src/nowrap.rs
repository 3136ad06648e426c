//! No-wrap text for CJK-heavy runs: spaces become no-break spaces and word
//! joiners are placed between visible characters, so Typst keeps the text on
//! one line the way the source application does.

use vstd::prelude::*;
use crate::ir::{Run, RunView, TabStop};
use crate::tabs::{after_runs_with_tabs, generate_runs_with_tabs, opt_slice_view};
use crate::text::{chars_of, is_space_char, is_whitespace, push_char};
use crate::typst_text::{covers_runs, run_views, FontTable, SOFT_LINE_BREAK_CHAR};

verus! {

/// The no-break space that replaces ordinary spaces.
pub const NO_BREAK_SPACE: char = '\u{a0}';
/// The word joiner placed between characters that must not be split.
pub const WORD_JOINER: char = '\u{2060}';

/// What the no-wrap transformation remembers between characters (and runs).
#[derive(Clone, Copy, Debug, PartialEq, Eq)]
pub struct NoWrapState {
    pub previous_visible_char: Option<char>,
    pub previous_non_breaking_space: bool,
}

impl Default for NoWrapState {
    fn default() -> (state: Self)
        ensures
            state == fresh_state(),
    {
        NoWrapState { previous_visible_char: None, previous_non_breaking_space: false }
    }
}

pub open spec fn fresh_state() -> NoWrapState {
    NoWrapState { previous_visible_char: None, previous_non_breaking_space: false }
}

/// A joiner is needed between two characters neither of which is whitespace.
pub open spec fn joiner_needed(previous: char, current: char) -> bool {
    !is_space_char(previous) && !is_space_char(current)
}

pub fn needs_no_wrap_joiner(previous: char, current: char) -> (b: bool)
    ensures
        b == joiner_needed(previous, current),
{
    !is_whitespace(previous) && !is_whitespace(current)
}

/// Hangul, CJK radicals and symbols, kana, CJK ideographs and compatibility
/// forms, and half/full-width forms.
pub open spec fn is_cjk_char(ch: char) -> bool {
    let c = ch as u32;
    ||| (0x1100 <= c && c <= 0x11FF)
    ||| (0x2E80 <= c && c <= 0x2FFF)
    ||| (0x3000 <= c && c <= 0x303F)
    ||| (0x3040 <= c && c <= 0x30FF)
    ||| (0x3130 <= c && c <= 0x318F)
    ||| (0x31F0 <= c && c <= 0x31FF)
    ||| (0x3400 <= c && c <= 0x4DBF)
    ||| (0x4E00 <= c && c <= 0x9FFF)
    ||| (0xAC00 <= c && c <= 0xD7AF)
    ||| (0xF900 <= c && c <= 0xFAFF)
    ||| (0xFF00 <= c && c <= 0xFFEF)
}

pub fn is_cjk_like(ch: char) -> (b: bool)
    ensures
        b == is_cjk_char(ch),
{
    let c = ch as u32;
    (0x1100 <= c && c <= 0x11FF) || (0x2E80 <= c && c <= 0x2FFF) || (0x3000 <= c && c <= 0x303F)
        || (0x3040 <= c && c <= 0x30FF) || (0x3130 <= c && c <= 0x318F) || (0x31F0 <= c && c <= 0x31FF)
        || (0x3400 <= c && c <= 0x4DBF) || (0x4E00 <= c && c <= 0x9FFF) || (0xAC00 <= c && c <= 0xD7AF)
        || (0xF900 <= c && c <= 0xFAFF) || (0xFF00 <= c && c <= 0xFFEF)
}

/// The output and new state for one character.
pub open spec fn no_wrap_step(state: NoWrapState, ch: char) -> (Seq<char>, NoWrapState) {
    if ch == '\t' || ch == SOFT_LINE_BREAK_CHAR {
        (seq![ch], fresh_state())
    } else if ch == ' ' {
        (seq![NO_BREAK_SPACE], NoWrapState { previous_visible_char: None, previous_non_breaking_space: true })
    } else {
        let joined = state.previous_non_breaking_space || (state.previous_visible_char matches Some(p) && joiner_needed(p, ch));
        (if joined { seq![WORD_JOINER, ch] } else { seq![ch] },
            NoWrapState { previous_visible_char: Some(ch), previous_non_breaking_space: false })
    }
}

/// Output and state after the first `k` characters of `t`, from `state`.
pub open spec fn no_wrap_upto(t: Seq<char>, k: int, state: NoWrapState) -> (Seq<char>, NoWrapState)
    decreases k,
{
    if k <= 0 || k > t.len() {
        (Seq::empty(), state)
    } else {
        let (out, s) = no_wrap_upto(t, k - 1, state);
        let (piece, s2) = no_wrap_step(s, t[k - 1]);
        (out + piece, s2)
    }
}

/// The no-wrap form of `text` and the state after it; the text unchanged
/// when the paragraph has no CJK text to preserve.
pub open spec fn no_wrap_spec(text: Seq<char>, preserve: bool, state: NoWrapState) -> (Seq<char>, NoWrapState) {
    if !preserve { (text, state) } else { no_wrap_upto(text, text.len() as int, state) }
}

pub fn no_wrap_text(text: &str, preserve_cjk_no_wrap: bool, state: &mut NoWrapState) -> (out: String)
    ensures
        (out@, *final(state)) == no_wrap_spec(text@, preserve_cjk_no_wrap, *old(state)),
{
    if !preserve_cjk_no_wrap {
        return crate::typst_text::copy_str(text);
    }
    let chars = chars_of(text);
    let mut out = String::new();
    let mut k: usize = 0;
    while k < chars.len()
        invariant
            chars@ == text@,
            k <= chars@.len(),
            (out@, *state) == no_wrap_upto(text@, k as int, *old(state)),
        decreases chars@.len() - k,
    {
        let ch = chars[k];
        if ch == '\t' || ch == SOFT_LINE_BREAK_CHAR {
            push_char(&mut out, ch);
            *state = NoWrapState::default();
        } else if ch == ' ' {
            push_char(&mut out, NO_BREAK_SPACE);
            state.previous_visible_char = None;
            state.previous_non_breaking_space = true;
        } else {
            let joined = state.previous_non_breaking_space || match state.previous_visible_char {
                Some(previous) => needs_no_wrap_joiner(previous, ch),
                None => false,
            };
            if joined {
                push_char(&mut out, WORD_JOINER);
            }
            push_char(&mut out, ch);
            state.previous_visible_char = Some(ch);
            state.previous_non_breaking_space = false;
        }
        k = k + 1;
        assert(out@ =~= no_wrap_upto(text@, k as int, *old(state)).0);
    }
    out
}

/// Some non-footnote run holds CJK text.
pub open spec fn has_cjk_text(runs: Seq<RunView>) -> bool {
    exists|k: int, i: int| 0 <= k < runs.len() && runs[k].footnote is None && 0 <= i < runs[k].text.len()
        && is_cjk_char(#[trigger] runs[k].text[i])
}

/// The runs after the no-wrap transformation of their first `k` members;
/// footnotes are kept and reset the state.
pub open spec fn no_wrap_runs_upto(runs: Seq<RunView>, k: int, preserve: bool) -> (Seq<RunView>, NoWrapState)
    decreases k,
{
    if k <= 0 || k > runs.len() {
        (Seq::empty(), fresh_state())
    } else {
        let (done, state) = no_wrap_runs_upto(runs, k - 1, preserve);
        let run = runs[k - 1];
        if run.footnote is None {
            let (text, s2) = no_wrap_spec(run.text, preserve, state);
            (done.push(RunView { text, ..run }), s2)
        } else {
            (done.push(run), fresh_state())
        }
    }
}

fn run_has_cjk(run: &Run) -> (b: bool)
    ensures
        b == exists|i: int| 0 <= i < run.text@.len() && is_cjk_char(#[trigger] run.text@[i]),
{
    let chars = chars_of(run.text.as_str());
    let mut i: usize = 0;
    while i < chars.len()
        invariant
            chars@ == run.text@,
            i <= chars@.len(),
            forall|j: int| 0 <= j < i ==> !is_cjk_char(#[trigger] run.text@[j]),
        decreases chars@.len() - i,
    {
        if is_cjk_like(chars[i]) {
            assert(is_cjk_char(run.text@[i as int]));
            return true;
        }
        i = i + 1;
    }
    false
}

/// `out` after the no-wrap form of a paragraph's runs.
pub open spec fn after_runs_no_wrap(out: Seq<char>, runs: Seq<RunView>, tab_stops: Option<Seq<TabStop>>, fonts: FontTable) -> Seq<char> {
    after_runs_with_tabs(out, no_wrap_runs_upto(runs, runs.len() as int, has_cjk_text(runs)).0, tab_stops, fonts)
}

/// Write a paragraph's runs with tabs, keeping CJK text from wrapping.
pub fn generate_runs_with_tabs_no_wrap(out: &mut String, runs: &[Run], tab_stops: Option<&[TabStop]>, fonts: &FontTable)
    requires
        covers_runs(*fonts, run_views(runs@)),
    ensures
        final(out)@ == after_runs_no_wrap(old(out)@, run_views(runs@), opt_slice_view(tab_stops), *fonts),
{
    let ghost views = run_views(runs@);
    let mut preserve = false;
    let mut i: usize = 0;
    while i < runs.len()
        invariant
            views == run_views(runs@),
            i <= runs@.len(),
            preserve == exists|k: int, j: int| 0 <= k < i && views[k].footnote is None && 0 <= j < views[k].text.len()
                && is_cjk_char(#[trigger] views[k].text[j]),
        decreases runs@.len() - i,
    {
        assert(views[i as int] == runs@[i as int]@);
        if runs[i].footnote.is_none() && run_has_cjk(&runs[i]) {
            proof {
                let j = choose|j: int| 0 <= j < runs@[i as int].text@.len() && is_cjk_char(#[trigger] runs@[i as int].text@[j]);
                assert(is_cjk_char(views[i as int].text[j]));
            }
            preserve = true;
        } else {
            assert forall|k: int, j: int| 0 <= k < i + 1 && views[k].footnote is None && 0 <= j < views[k].text.len()
                && is_cjk_char(#[trigger] views[k].text[j]) implies k < i by {
                if k == i {
                    assert(is_cjk_char(runs@[i as int].text@[j]));
                }
            }
        }
        i = i + 1;
    }
    let mut state = NoWrapState::default();
    let mut transformed: Vec<Run> = Vec::new();
    let mut k: usize = 0;
    assert(run_views(transformed@) =~= Seq::<RunView>::empty());
    while k < runs.len()
        invariant
            views == run_views(runs@),
            covers_runs(*fonts, views),
            k <= runs@.len(),
            preserve == has_cjk_text(views),
            (run_views(transformed@), state) == no_wrap_runs_upto(views, k as int, preserve),
            covers_runs(*fonts, run_views(transformed@)),
        decreases runs@.len() - k,
    {
        let run = &runs[k];
        assert(views[k as int] == run@);
        assert(fonts.covers(views[k as int].style));
        let ghost before = transformed@;
        let mut next = run.duplicate();
        if next.footnote.is_none() {
            next.text = no_wrap_text(run.text.as_str(), preserve, &mut state);
        } else {
            state = NoWrapState::default();
        }
        transformed.push(next);
        assert(run_views(transformed@) =~= run_views(before).push(next@));
        assert(covers_runs(*fonts, run_views(transformed@))) by {
            assert forall|j: int| 0 <= j < run_views(transformed@).len() implies fonts.covers(#[trigger] run_views(transformed@)[j].style) by {
                if j < before.len() {
                    assert(run_views(transformed@)[j] == run_views(before)[j]);
                }
            }
        }
        k = k + 1;
    }
    generate_runs_with_tabs(out, transformed.as_slice(), tab_stops, fonts);
}

proof fn lemma_no_wrap_runs_unchanged(runs: Seq<RunView>, k: int)
    requires
        0 <= k <= runs.len(),
    ensures
        no_wrap_runs_upto(runs, k, false).0 == runs.take(k),
    decreases k,
{
    if k > 0 {
        lemma_no_wrap_runs_unchanged(runs, k - 1);
        let run = runs[k - 1];
        assert(RunView { text: run.text, ..run } == run);
        assert(runs.take(k - 1).push(run) =~= runs.take(k));
    } else {
        assert(runs.take(0) =~= Seq::<RunView>::empty());
    }
}

/// Without CJK text outside footnotes, the no-wrap writer writes exactly
/// what the tab writer writes for the same runs.
pub proof fn law_no_wrap_without_cjk_is_plain(out: Seq<char>, runs: Seq<RunView>, tab_stops: Option<Seq<TabStop>>, fonts: FontTable)
    requires
        !has_cjk_text(runs),
    ensures
        after_runs_no_wrap(out, runs, tab_stops, fonts) == after_runs_with_tabs(out, runs, tab_stops, fonts),
{
    lemma_no_wrap_runs_unchanged(runs, runs.len() as int);
    assert(runs.take(runs.len() as int) =~= runs);
}

} // verus!
