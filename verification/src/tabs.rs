//! Tab handling in Typst output: runs split at tabs into segments, decimal
//! tab anchors, and the Typst expressions that place each segment at the
//! next tab stop.

use vstd::prelude::*;
use crate::ir::{copy_opt_string, Decimal, Run, RunView, TabAlignment, TabLeader, TabStop};
use crate::text::{byte_offset, byte_offsets, chars_of, is_ascii_digit, is_digit_char, lemma_byte_offset_strict, string_from_chars};
use crate::typst_text::{after_runs, covers_runs, decimal_text, format_decimal, generate_runs, nat_digits, push_u64, run_views, FontTable};
use crate::text::push_str;

verus! {

/// `segs` with `r` added to its last segment.
pub open spec fn push_last(segs: Seq<Seq<RunView>>, r: RunView) -> Seq<Seq<RunView>> {
    segs.update(segs.len() - 1, segs.last().push(r))
}

/// The part `t` of a tab-containing run: same formatting, no footnote.
pub open spec fn part_view(run: RunView, t: Seq<char>) -> RunView {
    RunView { text: t, footnote: None, ..run }
}

pub open spec fn flush_part(segs: Seq<Seq<RunView>>, run: RunView, cur: Seq<char>) -> Seq<Seq<RunView>> {
    if cur.len() > 0 { push_last(segs, part_view(run, cur)) } else { segs }
}

/// Segments after the characters `t[i..]` of a tab-containing run, with the
/// pending part `cur`: each tab closes the part and opens a new segment.
pub open spec fn add_parts(segs: Seq<Seq<RunView>>, run: RunView, t: Seq<char>, i: int, cur: Seq<char>) -> Seq<Seq<RunView>>
    decreases t.len() - i,
{
    if i < 0 || i >= t.len() {
        flush_part(segs, run, cur)
    } else if t[i] == '\t' {
        add_parts(flush_part(segs, run, cur).push(Seq::empty()), run, t, i + 1, Seq::empty())
    } else {
        add_parts(segs, run, t, i + 1, cur.push(t[i]))
    }
}

/// Segments after one more run: footnotes and tab-free runs are kept whole
/// (empty tab-free runs are dropped); tab-containing runs are split.
pub open spec fn add_run_to_segments(segs: Seq<Seq<RunView>>, run: RunView) -> Seq<Seq<RunView>> {
    if run.footnote is Some || !run.text.contains('\t') {
        if run.footnote is Some || run.text.len() > 0 { push_last(segs, run) } else { segs }
    } else {
        add_parts(segs, run, run.text, 0, Seq::empty())
    }
}

pub open spec fn tab_segments_upto(runs: Seq<RunView>, k: int) -> Seq<Seq<RunView>>
    decreases k,
{
    if k <= 0 || k > runs.len() { seq![Seq::empty()] } else { add_run_to_segments(tab_segments_upto(runs, k - 1), runs[k - 1]) }
}

/// The runs of a paragraph split at its tabs into one segment per tab
/// interval (always at least one segment).
pub open spec fn tab_segments(runs: Seq<RunView>) -> Seq<Seq<RunView>> {
    tab_segments_upto(runs, runs.len() as int)
}

/// The views of a list of segments.
pub open spec fn segments_view(segs: Seq<Vec<Run>>) -> Seq<Seq<RunView>> {
    segs.map_values(|v: Vec<Run>| run_views(v@))
}

proof fn lemma_push_last(done: Seq<Vec<Run>>, current: Seq<Run>, r: Run)
    ensures
        push_last(segments_view(done) + seq![run_views(current)], r@) == segments_view(done) + seq![run_views(current.push(r))],
{
    assert(run_views(current.push(r)) =~= run_views(current).push(r@));
    assert(push_last(segments_view(done) + seq![run_views(current)], r@) =~= segments_view(done) + seq![run_views(current.push(r))]);
}

proof fn lemma_new_segment(done: Seq<Vec<Run>>, current: Vec<Run>, fresh: Vec<Run>)
    requires
        fresh@.len() == 0,
    ensures
        (segments_view(done) + seq![run_views(current@)]).push(Seq::empty()) == segments_view(done.push(current)) + seq![run_views(fresh@)],
{
    assert(run_views(fresh@) =~= Seq::<RunView>::empty());
    assert(segments_view(done.push(current)) =~= segments_view(done).push(run_views(current@)));
    assert((segments_view(done) + seq![run_views(current@)]).push(Seq::empty()) =~= segments_view(done.push(current)) + seq![run_views(fresh@)]);
}

/// A run holding `chars` with the formatting and link of `run`.
fn part_run(run: &Run, chars: &Vec<char>) -> (part: Run)
    ensures
        part@ == part_view(run@, chars@),
{
    let text = string_from_chars(chars, 0, chars.len());
    assert(chars@.subrange(0, chars@.len() as int) =~= chars@);
    Run { text, style: run.style.duplicate(), href: copy_opt_string(&run.href), footnote: None }
}

/// Split a paragraph's runs at tab characters (see `tab_segments`).
pub fn split_runs_on_tabs(runs: &[Run]) -> (segments: Vec<Vec<Run>>)
    ensures
        segments_view(segments@) == tab_segments(run_views(runs@)),
{
    let ghost views = run_views(runs@);
    let mut done: Vec<Vec<Run>> = Vec::new();
    let mut current: Vec<Run> = Vec::new();
    assert(segments_view(done@) =~= Seq::<Seq<RunView>>::empty());
    assert(run_views(current@) =~= Seq::<RunView>::empty());
    assert(segments_view(done@) + seq![run_views(current@)] =~= tab_segments_upto(views, 0));
    let mut i: usize = 0;
    while i < runs.len()
        invariant
            views == run_views(runs@),
            i <= runs@.len(),
            segments_view(done@) + seq![run_views(current@)] == tab_segments_upto(views, i as int),
        decreases runs@.len() - i,
    {
        let run = &runs[i];
        assert(views[i as int] == run@);
        let has_tab = crate::typst_text::chars_have(run.text.as_str(), '\t');
        if run.footnote.is_some() || !has_tab {
            if run.footnote.is_some() || !run.text.as_str().is_empty() {
                proof {
                    lemma_push_last(done@, current@, *run);
                }
                current.push(run.duplicate());
            }
        } else {
            let chars = chars_of(run.text.as_str());
            let ghost target = add_parts(segments_view(done@) + seq![run_views(current@)], run@, run@.text, 0, Seq::empty());
            let mut cur: Vec<char> = Vec::new();
            let mut j: usize = 0;
            while j < chars.len()
                invariant
                    chars@ == run@.text,
                    j <= chars@.len(),
                    add_parts(segments_view(done@) + seq![run_views(current@)], run@, run@.text, j as int, cur@) == target,
                decreases chars@.len() - j,
            {
                if chars[j] == '\t' {
                    if cur.len() > 0 {
                        let part = part_run(run, &cur);
                        proof {
                            lemma_push_last(done@, current@, part);
                        }
                        current.push(part);
                    }
                    let fresh: Vec<Run> = Vec::new();
                    proof {
                        lemma_new_segment(done@, current, fresh);
                    }
                    done.push(current);
                    current = fresh;
                    cur = Vec::new();
                } else {
                    cur.push(chars[j]);
                }
                j = j + 1;
            }
            if cur.len() > 0 {
                let part = part_run(run, &cur);
                proof {
                    lemma_push_last(done@, current@, part);
                }
                current.push(part);
            }
        }
        i = i + 1;
    }
    let ghost before = done@;
    let ghost cur_view = current@;
    done.push(current);
    assert(segments_view(done@) =~= segments_view(before) + seq![run_views(cur_view)]);
    done
}

/// The character index at byte offset `offset`, when `offset` is a character
/// boundary of `text`.
fn char_index_at(text: &str, offset: usize) -> (k: usize)
    requires
        exists|k: int| 0 <= k <= text@.len() && byte_offset(text@, k) == offset,
    ensures
        k <= text@.len(),
        byte_offset(text@, k as int) == offset,
        forall|j: int| 0 <= j <= text@.len() && byte_offset(text@, j) == offset ==> j == k,
{
    let offsets = byte_offsets(text);
    let ghost witness = choose|k: int| 0 <= k <= text@.len() && byte_offset(text@, k) == offset;
    let mut k: usize = 0;
    while k < offsets.len() && offsets[k] != offset
        invariant
            offsets@.len() == text@.len() + 1,
            forall|j: int| 0 <= j <= text@.len() ==> #[trigger] offsets@[j] == byte_offset(text@, j),
            0 <= witness <= text@.len(),
            byte_offset(text@, witness) == offset,
            k <= witness,
        decreases offsets@.len() - k,
    {
        k = k + 1;
    }
    proof {
        assert forall|j: int| 0 <= j <= text@.len() && byte_offset(text@, j) == offset implies j == k by {
            if j < k {
                lemma_byte_offset_strict(text@, j, k as int);
            } else if j > k {
                lemma_byte_offset_strict(text@, k as int, j);
            }
        }
    }
    k
}

/// Whether `text[..offset]` holds an ASCII digit; `offset` must be a
/// character boundary (slicing elsewhere panics).
pub fn has_ascii_digit_before(text: &str, offset: usize) -> (found: bool)
    requires
        exists|k: int| 0 <= k <= text@.len() && byte_offset(text@, k) == offset,
    ensures
        forall|k: int| 0 <= k <= text@.len() && byte_offset(text@, k) == offset ==>
            (found == exists|j: int| 0 <= j < k && is_digit_char(#[trigger] text@[j])),
{
    let end = char_index_at(text, offset);
    let chars = chars_of(text);
    let mut j: usize = 0;
    while j < end
        invariant
            chars@ == text@,
            end <= chars@.len(),
            j <= end,
            forall|k: int| 0 <= k <= text@.len() && byte_offset(text@, k) == offset ==> k == end,
            forall|i: int| 0 <= i < j ==> !is_digit_char(#[trigger] text@[i]),
        decreases end - j,
    {
        if is_ascii_digit(chars[j]) {
            assert(is_digit_char(text@[j as int]));
            return true;
        }
        j = j + 1;
    }
    false
}

/// Whether `text[offset..]` holds an ASCII digit; `offset` must be a
/// character boundary (slicing elsewhere panics).
pub fn has_ascii_digit_after(text: &str, offset: usize) -> (found: bool)
    requires
        exists|k: int| 0 <= k <= text@.len() && byte_offset(text@, k) == offset,
    ensures
        forall|k: int| 0 <= k <= text@.len() && byte_offset(text@, k) == offset ==>
            (found == exists|j: int| k <= j < text@.len() && is_digit_char(#[trigger] text@[j])),
{
    let start = char_index_at(text, offset);
    let chars = chars_of(text);
    let mut j: usize = start;
    while j < chars.len()
        invariant
            chars@ == text@,
            start <= j <= chars@.len(),
            forall|k: int| 0 <= k <= text@.len() && byte_offset(text@, k) == offset ==> k == start,
            forall|i: int| start <= i < j ==> !is_digit_char(#[trigger] text@[i]),
        decreases chars@.len() - j,
    {
        if is_ascii_digit(chars[j]) {
            assert(is_digit_char(text@[j as int]));
            return true;
        }
        j = j + 1;
    }
    false
}

pub open spec fn is_separator_char(c: char) -> bool {
    c == '.' || c == ','
}

/// The parts of `s[i..]` between occurrences of `sep`, `cur` pending.
pub open spec fn split_from(s: Seq<char>, sep: char, i: int, cur: Seq<char>) -> Seq<Seq<char>>
    decreases s.len() - i,
{
    if i < 0 || i >= s.len() {
        seq![cur]
    } else if s[i] == sep {
        seq![cur] + split_from(s, sep, i + 1, Seq::empty())
    } else {
        split_from(s, sep, i + 1, cur.push(s[i]))
    }
}

/// `s.split(sep)`: the (possibly empty) parts between separators.
pub open spec fn split_parts(s: Seq<char>, sep: char) -> Seq<Seq<char>> {
    split_from(s, sep, 0, Seq::empty())
}

pub open spec fn all_digits(p: Seq<char>) -> bool {
    forall|i: int| 0 <= i < p.len() ==> is_digit_char(#[trigger] p[i])
}

/// `text` is a digit-grouped integer such as `1,234,567`: the only
/// separator used is `separator`, and it splits the text into at least two
/// non-empty digit groups, all after the first of exactly three digits.
pub open spec fn grouped_integer(text: Seq<char>, separator: char) -> bool {
    let parts = split_parts(text, separator);
    &&& forall|i: int| 0 <= i < text.len() && is_separator_char(#[trigger] text[i]) ==> text[i] == separator
    &&& parts.len() > 1
    &&& forall|i: int| 0 <= i < parts.len() ==> (#[trigger] parts[i]).len() > 0 && all_digits(parts[i])
    &&& forall|i: int| 1 <= i < parts.len() ==> (#[trigger] parts[i]).len() == 3
}

/// Whether a part passes the grouping test at position `index`.
pub open spec fn part_ok(p: Seq<char>, index: int) -> bool {
    p.len() > 0 && all_digits(p) && (index >= 1 ==> p.len() == 3)
}

/// Every part passes the grouping test at its position.
pub open spec fn all_parts_ok(parts: Seq<Seq<char>>) -> bool {
    forall|m: int| 0 <= m < parts.len() ==> part_ok(#[trigger] parts[m], m)
}

proof fn lemma_all_parts_ok_push(seen: Seq<Seq<char>>, p: Seq<char>)
    ensures
        all_parts_ok(seen.push(p)) == (all_parts_ok(seen) && part_ok(p, seen.len() as int)),
{
    if all_parts_ok(seen.push(p)) {
        assert forall|m: int| 0 <= m < seen.len() implies part_ok(#[trigger] seen[m], m) by {
            assert(seen.push(p)[m] == seen[m]);
        }
        assert(seen.push(p)[seen.len() as int] == p);
    }
    if all_parts_ok(seen) && part_ok(p, seen.len() as int) {
        assert forall|m: int| 0 <= m < seen.len() + 1 implies part_ok(#[trigger] seen.push(p)[m], m) by {
            if m < seen.len() {
                assert(seen.push(p)[m] == seen[m]);
            }
        }
    }
}

fn digits_only(p: &Vec<char>) -> (b: bool)
    ensures
        b == all_digits(p@),
{
    let mut i: usize = 0;
    while i < p.len()
        invariant
            i <= p@.len(),
            forall|j: int| 0 <= j < i ==> is_digit_char(#[trigger] p@[j]),
        decreases p@.len() - i,
    {
        if !is_ascii_digit(p[i]) {
            return false;
        }
        i = i + 1;
    }
    true
}

/// Whether `text` is a digit-grouped integer (see `grouped_integer`).
pub fn is_grouped_integer(text: &str, separator: char) -> (grouped: bool)
    ensures
        grouped == grouped_integer(text@, separator),
{
    let chars = chars_of(text);
    let mut i: usize = 0;
    while i < chars.len()
        invariant
            chars@ == text@,
            i <= chars@.len(),
            forall|j: int| 0 <= j < i && is_separator_char(#[trigger] text@[j]) ==> text@[j] == separator,
        decreases chars@.len() - i,
    {
        if (chars[i] == '.' || chars[i] == ',') && chars[i] != separator {
            return false;
        }
        i = i + 1;
    }
    let ghost parts = split_parts(text@, separator);
    let mut ok = true;
    let mut count: usize = 0;
    let mut cur: Vec<char> = Vec::new();
    let mut j: usize = 0;
    let ghost mut seen: Seq<Seq<char>> = Seq::empty();
    while j < chars.len()
        invariant
            chars@ == text@,
            parts == split_parts(text@, separator),
            j <= chars@.len(),
            count == seen.len(),
            count <= j,
            seen + split_from(text@, separator, j as int, cur@) == parts,
            ok == all_parts_ok(seen),
        decreases chars@.len() - j,
    {
        if chars[j] == separator {
            let good = cur.len() > 0 && digits_only(&cur) && (count == 0 || cur.len() == 3);
            proof {
                assert((seen.push(cur@)) + split_from(text@, separator, j + 1, Seq::empty()) =~= seen + split_from(text@, separator, j as int, cur@));
                assert(good == part_ok(cur@, count as int));
                lemma_all_parts_ok_push(seen, cur@);
                seen = seen.push(cur@);
            }
            ok = ok && good;
            count = count + 1;
            cur = Vec::new();
        } else {
            cur.push(chars[j]);
        }
        j = j + 1;
    }
    let good = cur.len() > 0 && digits_only(&cur) && (count == 0 || cur.len() == 3);
    proof {
        assert(seen + split_from(text@, separator, j as int, cur@) =~= seen.push(cur@));
        assert(good == part_ok(cur@, count as int));
        lemma_all_parts_ok_push(seen, cur@);
        seen = seen.push(cur@);
        assert(parts == seen);
    }
    let result = ok && good && count >= 1;
    proof {
        if all_parts_ok(parts) {
            assert forall|m: int| 0 <= m < parts.len() implies (#[trigger] parts[m]).len() > 0 && all_digits(parts[m]) by {
                assert(part_ok(parts[m], m));
            }
            assert forall|m: int| 1 <= m < parts.len() implies (#[trigger] parts[m]).len() == 3 by {
                assert(part_ok(parts[m], m));
            }
        }
        if grouped_integer(text@, separator) {
            assert forall|m: int| 0 <= m < parts.len() implies part_ok(#[trigger] parts[m], m) by {
                assert(parts[m].len() > 0 && all_digits(parts[m]));
                if m >= 1 {
                    assert(parts[m].len() == 3);
                }
            }
        }
    }
    result
}

/// Character `k` is a `.` or `,` with a digit somewhere before and after it.
pub open spec fn is_candidate(t: Seq<char>, k: int) -> bool {
    &&& 0 <= k < t.len()
    &&& is_separator_char(t[k])
    &&& exists|j: int| 0 <= j < k && is_digit_char(#[trigger] t[j])
    &&& exists|j: int| k + 1 <= j < t.len() && is_digit_char(#[trigger] t[j])
}

/// The last candidate separator at or before index `k`.
pub open spec fn last_candidate(t: Seq<char>, k: int) -> Option<int>
    decreases k + 1,
{
    if k < 0 {
        None
    } else if is_candidate(t, k) {
        Some(k)
    } else {
        last_candidate(t, k - 1)
    }
}

proof fn lemma_last_candidate(t: Seq<char>, k: int)
    ensures
        last_candidate(t, k) matches Some(j) ==> is_candidate(t, j) && j <= k,
    decreases k + 1,
{
    if k >= 0 && !is_candidate(t, k) {
        lemma_last_candidate(t, k - 1);
    }
}

/// The digits and separators of `t`, in order.
pub open spec fn number_chars(t: Seq<char>) -> Seq<char>
    decreases t.len(),
{
    if t.len() == 0 {
        Seq::empty()
    } else if is_digit_char(t.last()) || is_separator_char(t.last()) {
        number_chars(t.drop_last()).push(t.last())
    } else {
        number_chars(t.drop_last())
    }
}

/// The index of the decimal separator of `t`: its last candidate separator,
/// unless the number is a digit-grouped integer.
pub open spec fn separator_index(t: Seq<char>) -> Option<int> {
    match last_candidate(t, t.len() - 1) {
        None => None,
        Some(k) => if grouped_integer(number_chars(t), t[k]) { None } else { Some(k) },
    }
}

/// The character index of the decimal separator (see `separator_index`).
fn find_decimal_separator_index(text: &str) -> (index: Option<usize>)
    ensures
        match index {
            Some(k) => separator_index(text@) == Some(k as int),
            None => separator_index(text@) is None,
        },
{
    let chars = chars_of(text);
    let offsets = byte_offsets(text);
    let mut i: usize = chars.len();
    let mut found: Option<usize> = None;
    while i > 0 && found.is_none()
        invariant
            chars@ == text@,
            offsets@.len() == text@.len() + 1,
            forall|j: int| 0 <= j <= text@.len() ==> #[trigger] offsets@[j] == byte_offset(text@, j),
            i <= chars@.len(),
            found is None ==> last_candidate(text@, i - 1) == last_candidate(text@, text@.len() - 1),
            found matches Some(k) ==> last_candidate(text@, text@.len() - 1) == Some(k as int) && k < chars@.len(),
        decreases i,
    {
        let k = i - 1;
        let c = chars[k];
        if c == '.' || c == ',' {
            assert(byte_offset(text@, k as int) == offsets@[k as int]);
            assert(byte_offset(text@, k + 1) == offsets@[k + 1]);
            let before = has_ascii_digit_before(text, offsets[k]);
            let after = has_ascii_digit_after(text, offsets[k + 1]);
            if before && after {
                found = Some(k);
            }
        }
        i = k;
    }
    let k = match found {
        Some(k) => k,
        None => {
            return None;
        },
    };
    let mut numbers: Vec<char> = Vec::new();
    let mut j: usize = 0;
    while j < chars.len()
        invariant
            chars@ == text@,
            j <= chars@.len(),
            numbers@ == number_chars(text@.take(j as int)),
        decreases chars@.len() - j,
    {
        let c = chars[j];
        assert(text@.take(j + 1).drop_last() =~= text@.take(j as int));
        if is_ascii_digit(c) || c == '.' || c == ',' {
            numbers.push(c);
        }
        j = j + 1;
    }
    assert(text@.take(text@.len() as int) =~= text@);
    let number_text = string_from_chars(&numbers, 0, numbers.len());
    assert(numbers@.subrange(0, numbers@.len() as int) =~= numbers@);
    if is_grouped_integer(number_text.as_str(), chars[k]) {
        return None;
    }
    Some(k)
}

/// The byte offset of the decimal separator of `text`, if it has one (see
/// `separator_index`).
pub fn find_decimal_separator_offset(text: &str) -> (offset: Option<usize>)
    ensures
        match offset {
            Some(o) => separator_index(text@) matches Some(k) && o == byte_offset(text@, k),
            None => separator_index(text@) is None,
        },
{
    match find_decimal_separator_index(text) {
        Some(k) => {
            proof {
                lemma_last_candidate(text@, text@.len() - 1);
            }
            let offsets = byte_offsets(text);
            Some(offsets[k])
        },
        None => None,
    }
}

/// The visible (non-footnote) text of the first `k` runs.
pub open spec fn visible_upto(runs: Seq<RunView>, k: int) -> Seq<char>
    decreases k,
{
    if k <= 0 || k > runs.len() {
        Seq::empty()
    } else {
        visible_upto(runs, k - 1) + if runs[k - 1].footnote is None { runs[k - 1].text } else { Seq::empty() }
    }
}

/// The runs of `runs[k..]` that lie before the separator at visible index
/// `sep`, given `offset` visible characters so far and the anchor `acc`.
pub open spec fn anchor_from(runs: Seq<RunView>, k: int, offset: int, acc: Seq<RunView>, sep: int) -> Option<Seq<RunView>>
    decreases runs.len() - k,
{
    if k < 0 || k >= runs.len() {
        None
    } else if runs[k].footnote is Some {
        anchor_from(runs, k + 1, offset, acc.push(runs[k]), sep)
    } else if offset + runs[k].text.len() <= sep {
        anchor_from(runs, k + 1, offset + runs[k].text.len(), if runs[k].text.len() > 0 { acc.push(runs[k]) } else { acc }, sep)
    } else {
        let before = if sep > offset { sep - offset } else { 0 };
        Some(if before > 0 { acc.push(part_view(runs[k], runs[k].text.take(before))) } else { acc })
    }
}

/// The runs a decimal tab aligns on: everything before the decimal separator
/// of the visible text (footnotes included), or `None` without a separator.
pub open spec fn decimal_anchor(runs: Seq<RunView>) -> Option<Seq<RunView>> {
    match separator_index(visible_upto(runs, runs.len() as int)) {
        None => None,
        Some(sep) => anchor_from(runs, 0, 0, Seq::empty(), sep),
    }
}

pub fn extract_decimal_anchor_runs(runs: &[Run]) -> (anchor: Option<Vec<Run>>)
    ensures
        match anchor {
            Some(a) => decimal_anchor(run_views(runs@)) == Some(run_views(a@)),
            None => decimal_anchor(run_views(runs@)) is None,
        },
{
    let ghost views = run_views(runs@);
    let mut visible: Vec<char> = Vec::new();
    let mut i: usize = 0;
    while i < runs.len()
        invariant
            views == run_views(runs@),
            i <= runs@.len(),
            visible@ == visible_upto(views, i as int),
        decreases runs@.len() - i,
    {
        assert(views[i as int] == runs@[i as int]@);
        if runs[i].footnote.is_none() {
            crate::text::extend_chars(&mut visible, runs[i].text.as_str());
        } else {
            assert(visible@ =~= visible@ + Seq::<char>::empty());
        }
        i = i + 1;
    }
    let visible_text = string_from_chars(&visible, 0, visible.len());
    assert(visible@.subrange(0, visible@.len() as int) =~= visible@);
    let sep = match find_decimal_separator_index(visible_text.as_str()) {
        Some(sep) => sep,
        None => {
            return None;
        },
    };
    let mut anchor: Vec<Run> = Vec::new();
    let mut offset: usize = 0;
    let mut k: usize = 0;
    assert(run_views(anchor@) =~= Seq::<RunView>::empty());
    while k < runs.len()
        invariant
            views == run_views(runs@),
            k <= runs@.len(),
            offset <= sep,
            decimal_anchor(views) == anchor_from(views, 0, 0, Seq::empty(), sep as int),
            anchor_from(views, k as int, offset as int, run_views(anchor@), sep as int) == anchor_from(views, 0, 0, Seq::empty(), sep as int),
        decreases runs@.len() - k,
    {
        let run = &runs[k];
        assert(views[k as int] == run@);
        let ghost before_anchor = anchor@;
        if run.footnote.is_some() {
            anchor.push(run.duplicate());
            assert(run_views(anchor@) =~= run_views(before_anchor).push(run@));
        } else {
            let chars = chars_of(run.text.as_str());
            if chars.len() <= sep - offset {
                if chars.len() > 0 {
                    anchor.push(run.duplicate());
                    assert(run_views(anchor@) =~= run_views(before_anchor).push(run@));
                }
                offset = offset + chars.len();
            } else {
                let before = sep - offset;
                if before > 0 {
                    let text = string_from_chars(&chars, 0, before);
                    let part = Run { text, style: run.style.duplicate(), href: copy_opt_string(&run.href), footnote: None };
                    assert(part@ == part_view(run@, run@.text.take(before as int)));
                    anchor.push(part);
                    assert(run_views(anchor@) =~= run_views(before_anchor).push(part@));
                }
                return Some(anchor);
            }
        }
        k = k + 1;
    }
    None
}

/// Word's default tab stop interval in points (half an inch).
pub open spec fn default_tab_width() -> Decimal {
    Decimal::whole_spec(36)
}

/// `prefix` followed by the decimal digits of `n`.
pub open spec fn numbered(prefix: Seq<char>, n: nat) -> Seq<char> {
    prefix + nat_digits(n)
}

fn numbered_name(prefix: &str, n: usize) -> (s: String)
    ensures
        s@ == numbered(prefix@, n as nat),
{
    let mut s = String::new();
    push_str(&mut s, prefix);
    push_u64(&mut s, n as u64);
    s
}

/// Advance to the next default tab stop.
pub open spec fn default_advance_text(index: nat) -> Seq<char> {
    numbered("if tab_default_remainder_"@, index) + " == 0 { "@ + decimal_text(default_tab_width()) + "pt } else { ("@
        + decimal_text(default_tab_width()) + numbered(" - tab_default_remainder_"@, index) + ") * 1pt }"@
}

pub fn build_default_tab_advance_expr(index: usize) -> (expr: String)
    ensures
        expr@ == default_advance_text(index as nat),
{
    let width = Decimal::whole(36);
    let mut expr = numbered_name("if tab_default_remainder_", index);
    push_str(&mut expr, " == 0 { ");
    format_decimal(&mut expr, width);
    push_str(&mut expr, "pt } else { (");
    format_decimal(&mut expr, width);
    let rest = numbered_name(" - tab_default_remainder_", index);
    push_str(&mut expr, rest.as_str());
    push_str(&mut expr, ") * 1pt }");
    assert(expr@ =~= default_advance_text(index as nat));
    expr
}

/// The content filling the space up to a tab stop: empty space, or a
/// repeated leader character.
pub open spec fn fill_content_text(index: nat, leader: TabLeader) -> Seq<char> {
    match leader {
        TabLeader::Blank => numbered("h(tab_advance_"@, index) + ")"@,
        TabLeader::Dot => numbered("box(width: tab_advance_"@, index) + ", repeat["@ + "."@ + "])"@,
        TabLeader::Hyphen => numbered("box(width: tab_advance_"@, index) + ", repeat["@ + "-"@ + "])"@,
        TabLeader::Underscore => numbered("box(width: tab_advance_"@, index) + ", repeat["@ + "\\_"@ + "])"@,
    }
}

pub fn tab_fill_content_expr(index: usize, leader: TabLeader) -> (expr: String)
    ensures
        expr@ == fill_content_text(index as nat, leader),
{
    let markup = match leader {
        TabLeader::Blank => {
            let mut expr = numbered_name("h(tab_advance_", index);
            push_str(&mut expr, ")");
            return expr;
        },
        TabLeader::Dot => ".",
        TabLeader::Hyphen => "-",
        TabLeader::Underscore => "\\_",
    };
    let mut expr = numbered_name("box(width: tab_advance_", index);
    push_str(&mut expr, ", repeat[");
    push_str(&mut expr, markup);
    push_str(&mut expr, "])");
    expr
}

/// How far a stop's alignment pulls the segment back from the stop.
pub open spec fn alignment_offset_text(stop: TabStop, segment_width: Seq<char>, decimal_width: Option<Seq<char>>) -> Seq<char> {
    match stop.alignment {
        TabAlignment::Left => "0pt"@,
        TabAlignment::Center => segment_width + " / 2"@,
        TabAlignment::Right => segment_width,
        TabAlignment::Decimal => match decimal_width {
            Some(d) => d,
            None => segment_width,
        },
    }
}

pub fn tab_alignment_offset_expr(stop: &TabStop, segment_width_var: &str, decimal_width_var: Option<&str>) -> (expr: String)
    ensures
        expr@ == alignment_offset_text(*stop, segment_width_var@, match decimal_width_var { Some(d) => Some(d@), None => None }),
{
    let mut expr = String::new();
    match stop.alignment {
        TabAlignment::Left => push_str(&mut expr, "0pt"),
        TabAlignment::Center => {
            push_str(&mut expr, segment_width_var);
            push_str(&mut expr, " / 2");
        },
        TabAlignment::Right => push_str(&mut expr, segment_width_var),
        TabAlignment::Decimal => match decimal_width_var {
            Some(d) => push_str(&mut expr, d),
            None => push_str(&mut expr, segment_width_var),
        },
    }
    assert(expr@ =~= alignment_offset_text(*stop, segment_width_var@, match decimal_width_var { Some(d) => Some(d@), None => None }));
    expr
}

/// One `if`/`else if` arm of a tab-stop chain: taken when the text so far
/// ends before the stop.
pub open spec fn stop_arm(first: bool, prefix_var: Seq<char>, stop: TabStop, branch: Seq<char>) -> Seq<char> {
    (if first { "if "@ } else { " else if "@ }) + prefix_var + " < "@ + decimal_text(stop.position) + "pt { "@ + branch + " }"@
}

/// The advance to a stop: from the end of the text so far to the stop,
/// less the alignment offset, never negative.
pub open spec fn advance_branch(prefix_var: Seq<char>, stop: TabStop, segment_var: Seq<char>, decimal_var: Option<Seq<char>>) -> Seq<char> {
    "calc.max(0pt, "@ + decimal_text(stop.position) + "pt - "@ + prefix_var + " - "@
        + alignment_offset_text(stop, segment_var, decimal_var) + ")"@
}

/// The arms for the stops `stops[..k]`.
pub open spec fn advance_arms(stops: Seq<TabStop>, k: int, prefix_var: Seq<char>, segment_var: Seq<char>, decimal_var: Option<Seq<char>>) -> Seq<char>
    decreases k,
{
    if k <= 0 || k > stops.len() {
        Seq::empty()
    } else {
        advance_arms(stops, k - 1, prefix_var, segment_var, decimal_var)
            + stop_arm(k == 1, prefix_var, stops[k - 1], advance_branch(prefix_var, stops[k - 1], segment_var, decimal_var))
    }
}

/// The Typst expression for the advance of tab segment `index`: a chain
/// over the stops picking the first stop past the text so far, falling back
/// to the next default stop.
pub open spec fn advance_text(index: nat, segment: Seq<RunView>, tab_stops: Option<Seq<TabStop>>) -> Seq<char> {
    let prefix_var = numbered("tab_prefix_width_"@, index);
    let segment_var = numbered("tab_segment_width_"@, index);
    let decimal_var = if decimal_anchor(segment) is Some { Some(numbered("tab_decimal_width_"@, index)) } else { None };
    match tab_stops {
        Some(stops) => if stops.len() == 0 {
            default_advance_text(index)
        } else {
            advance_arms(stops, stops.len() as int, prefix_var, segment_var, decimal_var) + " else { "@
                + default_advance_text(index) + " }"@
        },
        None => default_advance_text(index),
    }
}

pub open spec fn opt_slice_view(stops: Option<&[TabStop]>) -> Option<Seq<TabStop>> {
    match stops {
        Some(s) => Some(s@),
        None => None,
    }
}

pub fn build_tab_advance_expr(index: usize, segment: &[Run], tab_stops: Option<&[TabStop]>) -> (expr: String)
    ensures
        expr@ == advance_text(index as nat, run_views(segment@), opt_slice_view(tab_stops)),
{
    let prefix_var = numbered_name("tab_prefix_width_", index);
    let segment_var = numbered_name("tab_segment_width_", index);
    let decimal_var: Option<String> = if extract_decimal_anchor_runs(segment).is_some() {
        Some(numbered_name("tab_decimal_width_", index))
    } else {
        None
    };
    let default_expr = build_default_tab_advance_expr(index);
    let stops = match tab_stops {
        Some(stops) => stops,
        None => {
            return default_expr;
        },
    };
    if stops.len() == 0 {
        return default_expr;
    }
    let ghost dv = crate::typst_text::opt_view(&decimal_var);
    let dref: Option<&str> = match &decimal_var {
        Some(d) => Some(d.as_str()),
        None => None,
    };
    assert(dv == match dref { Some(d) => Some(d@), None => None::<Seq<char>> });
    let mut expr = String::new();
    let mut k: usize = 0;
    while k < stops.len()
        invariant
            k <= stops@.len(),
            dv == match dref { Some(d) => Some(d@), None => None::<Seq<char>> },
            expr@ == advance_arms(stops@, k as int, prefix_var@, segment_var@, dv),
        decreases stops@.len() - k,
    {
        let stop = &stops[k];
        let offset = tab_alignment_offset_expr(stop, segment_var.as_str(), dref);
        let mut branch = String::new();
        push_str(&mut branch, "calc.max(0pt, ");
        format_decimal(&mut branch, stop.position);
        push_str(&mut branch, "pt - ");
        push_str(&mut branch, prefix_var.as_str());
        push_str(&mut branch, " - ");
        push_str(&mut branch, offset.as_str());
        push_str(&mut branch, ")");
        let ghost before = expr@;
        if k == 0 {
            push_str(&mut expr, "if ");
        } else {
            push_str(&mut expr, " else if ");
        }
        push_str(&mut expr, prefix_var.as_str());
        push_str(&mut expr, " < ");
        format_decimal(&mut expr, stop.position);
        push_str(&mut expr, "pt { ");
        push_str(&mut expr, branch.as_str());
        push_str(&mut expr, " }");
        assert(branch@ =~= advance_branch(prefix_var@, *stop, segment_var@, dv));
        assert(expr@ =~= before + stop_arm(k == 0, prefix_var@, *stop, branch@));
        k = k + 1;
    }
    push_str(&mut expr, " else { ");
    push_str(&mut expr, default_expr.as_str());
    push_str(&mut expr, " }");
    proof {
        let pv = numbered("tab_prefix_width_"@, index as nat);
        assert(expr@ =~= advance_arms(stops@, stops@.len() as int, prefix_var@, segment_var@, dv) + " else { "@
            + default_expr@ + " }"@);
    }
    expr
}

/// The arms of the fill chain for `stops[..k]`.
pub open spec fn fill_arms(stops: Seq<TabStop>, k: int, index: nat) -> Seq<char>
    decreases k,
{
    if k <= 0 || k > stops.len() {
        Seq::empty()
    } else {
        fill_arms(stops, k - 1, index)
            + stop_arm(k == 1, numbered("tab_prefix_width_"@, index), stops[k - 1], fill_content_text(index, stops[k - 1].leader))
    }
}

/// The Typst expression filling the advance of tab segment `index` with the
/// leader of the stop it reaches.
pub open spec fn fill_text(index: nat, tab_stops: Option<Seq<TabStop>>) -> Seq<char> {
    let plain = numbered("h(tab_advance_"@, index) + ")"@;
    match tab_stops {
        Some(stops) => if stops.len() == 0 {
            plain
        } else {
            fill_arms(stops, stops.len() as int, index) + " else { "@ + plain + " }"@
        },
        None => plain,
    }
}

pub fn build_tab_fill_expr(index: usize, tab_stops: Option<&[TabStop]>) -> (expr: String)
    ensures
        expr@ == fill_text(index as nat, opt_slice_view(tab_stops)),
{
    let mut plain = numbered_name("h(tab_advance_", index);
    push_str(&mut plain, ")");
    let stops = match tab_stops {
        Some(stops) => stops,
        None => {
            return plain;
        },
    };
    if stops.len() == 0 {
        return plain;
    }
    let prefix_var = numbered_name("tab_prefix_width_", index);
    let mut expr = String::new();
    let mut k: usize = 0;
    while k < stops.len()
        invariant
            k <= stops@.len(),
            prefix_var@ == numbered("tab_prefix_width_"@, index as nat),
            expr@ == fill_arms(stops@, k as int, index as nat),
        decreases stops@.len() - k,
    {
        let stop = &stops[k];
        let branch = tab_fill_content_expr(index, stop.leader);
        let ghost before = expr@;
        if k == 0 {
            push_str(&mut expr, "if ");
        } else {
            push_str(&mut expr, " else if ");
        }
        push_str(&mut expr, prefix_var.as_str());
        push_str(&mut expr, " < ");
        format_decimal(&mut expr, stop.position);
        push_str(&mut expr, "pt { ");
        push_str(&mut expr, branch.as_str());
        push_str(&mut expr, " }");
        assert(expr@ =~= before + stop_arm(k == 0, prefix_var@, *stop, branch@));
        k = k + 1;
    }
    push_str(&mut expr, " else { ");
    push_str(&mut expr, plain.as_str());
    push_str(&mut expr, " }");
    assert(expr@ =~= fill_arms(stops@, stops@.len() as int, index as nat) + " else { "@ + plain@ + " }"@);
    expr
}

proof fn lemma_anchor_covered(fonts: FontTable, runs: Seq<RunView>, k: int, offset: int, acc: Seq<RunView>, sep: int)
    requires
        covers_runs(fonts, runs),
        covers_runs(fonts, acc),
    ensures
        anchor_from(runs, k, offset, acc, sep) matches Some(a) ==> covers_runs(fonts, a),
    decreases runs.len() - k,
{
    if 0 <= k < runs.len() {
        assert(fonts.covers(runs[k].style));
        let pushed = acc.push(runs[k]);
        assert(covers_runs(fonts, pushed)) by {
            assert forall|j: int| 0 <= j < pushed.len() implies fonts.covers(#[trigger] pushed[j].style) by {
                if j < acc.len() {
                    assert(pushed[j] == acc[j]);
                }
            }
        }
        let part = part_view(runs[k], runs[k].text.take(if sep > offset { sep - offset } else { 0 }));
        let with_part = acc.push(part);
        assert(covers_runs(fonts, with_part)) by {
            assert forall|j: int| 0 <= j < with_part.len() implies fonts.covers(#[trigger] with_part[j].style) by {
                if j < acc.len() {
                    assert(with_part[j] == acc[j]);
                }
            }
        }
        if runs[k].footnote is Some {
            lemma_anchor_covered(fonts, runs, k + 1, offset, pushed, sep);
        } else if offset + runs[k].text.len() <= sep {
            lemma_anchor_covered(fonts, runs, k + 1, offset + runs[k].text.len(), if runs[k].text.len() > 0 { pushed } else { acc }, sep);
        }
    }
}

/// Every run of every segment of `segs` is covered by the font table.
pub open spec fn covers_segments(fonts: FontTable, segs: Seq<Seq<RunView>>) -> bool {
    forall|i: int| 0 <= i < segs.len() ==> covers_runs(fonts, #[trigger] segs[i])
}

proof fn lemma_push_last_covered(fonts: FontTable, segs: Seq<Seq<RunView>>, r: RunView)
    requires
        segs.len() > 0,
        covers_segments(fonts, segs),
        fonts.covers(r.style),
    ensures
        covers_segments(fonts, push_last(segs, r)),
{
    let last = segs.last().push(r);
    assert(covers_runs(fonts, last)) by {
        assert forall|j: int| 0 <= j < last.len() implies fonts.covers(#[trigger] last[j].style) by {
            if j < segs.last().len() {
                assert(last[j] == segs.last()[j]);
                assert(covers_runs(fonts, segs[segs.len() - 1]));
            }
        }
    }
    assert forall|i: int| 0 <= i < push_last(segs, r).len() implies covers_runs(fonts, #[trigger] push_last(segs, r)[i]) by {
        if i < segs.len() - 1 {
            assert(push_last(segs, r)[i] == segs[i]);
        }
    }
}

proof fn lemma_add_parts_covered(fonts: FontTable, segs: Seq<Seq<RunView>>, run: RunView, t: Seq<char>, i: int, cur: Seq<char>)
    requires
        segs.len() > 0,
        covers_segments(fonts, segs),
        fonts.covers(run.style),
    ensures
        add_parts(segs, run, t, i, cur).len() > 0,
        covers_segments(fonts, add_parts(segs, run, t, i, cur)),
    decreases t.len() - i,
{
    if cur.len() > 0 {
        lemma_push_last_covered(fonts, segs, part_view(run, cur));
    }
    let flushed = flush_part(segs, run, cur);
    if 0 <= i < t.len() {
        if t[i] == '\t' {
            let opened = flushed.push(Seq::empty());
            assert(covers_segments(fonts, opened)) by {
                assert forall|j: int| 0 <= j < opened.len() implies covers_runs(fonts, #[trigger] opened[j]) by {
                    if j < flushed.len() {
                        assert(opened[j] == flushed[j]);
                    }
                }
            }
            lemma_add_parts_covered(fonts, opened, run, t, i + 1, Seq::empty());
        } else {
            lemma_add_parts_covered(fonts, segs, run, t, i + 1, cur.push(t[i]));
        }
    }
}

/// Splitting covered runs at tabs yields covered segments.
proof fn lemma_segments_covered(fonts: FontTable, runs: Seq<RunView>, k: int)
    requires
        covers_runs(fonts, runs),
        0 <= k <= runs.len(),
    ensures
        tab_segments_upto(runs, k).len() > 0,
        covers_segments(fonts, tab_segments_upto(runs, k)),
    decreases k,
{
    if k == 0 {
        assert(covers_runs(fonts, Seq::<RunView>::empty()));
        assert(covers_segments(fonts, seq![Seq::<RunView>::empty()])) by {
            assert forall|i: int| 0 <= i < 1 implies covers_runs(fonts, #[trigger] seq![Seq::<RunView>::empty()][i]) by {
                assert(seq![Seq::<RunView>::empty()][i] == Seq::<RunView>::empty());
            }
        }
    } else {
        lemma_segments_covered(fonts, runs, k - 1);
        let segs = tab_segments_upto(runs, k - 1);
        let run = runs[k - 1];
        assert(fonts.covers(run.style));
        if run.footnote is Some || !run.text.contains('\t') {
            if run.footnote is Some || run.text.len() > 0 {
                lemma_push_last_covered(fonts, segs, run);
            }
        } else {
            lemma_add_parts_covered(fonts, segs, run, run.text, 0, Seq::empty());
        }
    }
}

/// `out` after the bindings of tab segment `index` (>= 1): widths, decimal
/// anchor, default remainder, advance, fill and the new prefix.
pub open spec fn after_bindings(out: Seq<char>, index: nat, segment: Seq<RunView>, tab_stops: Option<Seq<TabStop>>, fonts: FontTable) -> Seq<char> {
    let o1 = out + numbered("  let tab_prefix_width_"@, index) + " = measure(tab_prefix_"@ + nat_digits((index - 1) as nat)
        + ").width\n"@ + numbered("  let tab_segment_width_"@, index) + " = measure(tab_segment_"@ + nat_digits(index)
        + ").width\n"@;
    let o2 = match decimal_anchor(segment) {
        Some(a) => after_runs(o1 + numbered("  let tab_decimal_anchor_"@, index) + " = ["@, a, a.len() as int, fonts) + "]\n"@
            + numbered("  let tab_decimal_width_"@, index) + " = measure(tab_decimal_anchor_"@ + nat_digits(index) + ").width\n"@,
        None => o1,
    };
    o2 + numbered("  let tab_default_remainder_"@, index) + " = calc.rem-euclid(tab_prefix_width_"@ + nat_digits(index)
        + ".abs.pt(), "@ + decimal_text(default_tab_width()) + ")\n"@ + numbered("  let tab_advance_"@, index) + " = "@
        + advance_text(index, segment, tab_stops) + "\n"@ + numbered("  let tab_fill_"@, index) + " = "@
        + fill_text(index, tab_stops) + "\n"@ + numbered("  let tab_prefix_"@, index) + " = [#tab_prefix_"@
        + nat_digits((index - 1) as nat) + "#tab_fill_"@ + nat_digits(index) + "#tab_segment_"@ + nat_digits(index)
        + "]\n"@
}

fn push_numbered(out: &mut String, prefix: &str, n: usize)
    ensures
        final(out)@ == old(out)@ + numbered(prefix@, n as nat),
{
    let ghost start = out@;
    push_str(out, prefix);
    push_u64(out, n as u64);
    assert(out@ =~= start + numbered(prefix@, n as nat));
}

/// Write the Typst bindings of tab segment `index` (see `after_bindings`).
pub fn write_tab_segment_bindings(out: &mut String, index: usize, segment: &[Run], tab_stops: Option<&[TabStop]>, fonts: &FontTable)
    requires
        index >= 1,
        covers_runs(*fonts, run_views(segment@)),
    ensures
        final(out)@ == after_bindings(old(out)@, index as nat, run_views(segment@), opt_slice_view(tab_stops), *fonts),
{
    let ghost start = out@;
    push_numbered(out, "  let tab_prefix_width_", index);
    push_str(out, " = measure(tab_prefix_");
    push_u64(out, (index - 1) as u64);
    push_str(out, ").width\n");
    push_numbered(out, "  let tab_segment_width_", index);
    push_str(out, " = measure(tab_segment_");
    push_u64(out, index as u64);
    push_str(out, ").width\n");
    let ghost o1 = out@;
    assert(o1 =~= start + numbered("  let tab_prefix_width_"@, index as nat) + " = measure(tab_prefix_"@ + nat_digits((index - 1) as nat)
        + ").width\n"@ + numbered("  let tab_segment_width_"@, index as nat) + " = measure(tab_segment_"@ + nat_digits(index as nat)
        + ").width\n"@);
    if let Some(anchor_runs) = extract_decimal_anchor_runs(segment) {
        proof {
            assert(run_views(Seq::<Run>::empty()) =~= Seq::<RunView>::empty());
            lemma_anchor_covered(*fonts, run_views(segment@), 0, 0, Seq::empty(),
                separator_index(visible_upto(run_views(segment@), run_views(segment@).len() as int))->0);
        }
        push_numbered(out, "  let tab_decimal_anchor_", index);
        push_str(out, " = [");
        generate_runs(out, anchor_runs.as_slice(), fonts);
        push_str(out, "]\n");
        push_numbered(out, "  let tab_decimal_width_", index);
        push_str(out, " = measure(tab_decimal_anchor_");
        push_u64(out, index as u64);
        push_str(out, ").width\n");
    }
    let ghost o2 = out@;
    let width = Decimal::whole(36);
    push_numbered(out, "  let tab_default_remainder_", index);
    push_str(out, " = calc.rem-euclid(tab_prefix_width_");
    push_u64(out, index as u64);
    push_str(out, ".abs.pt(), ");
    format_decimal(out, width);
    push_str(out, ")\n");
    let advance = build_tab_advance_expr(index, segment, tab_stops);
    push_numbered(out, "  let tab_advance_", index);
    push_str(out, " = ");
    push_str(out, advance.as_str());
    push_str(out, "\n");
    let fill = build_tab_fill_expr(index, tab_stops);
    push_numbered(out, "  let tab_fill_", index);
    push_str(out, " = ");
    push_str(out, fill.as_str());
    push_str(out, "\n");
    push_numbered(out, "  let tab_prefix_", index);
    push_str(out, " = [#tab_prefix_");
    push_u64(out, (index - 1) as u64);
    push_str(out, "#tab_fill_");
    push_u64(out, index as u64);
    push_str(out, "#tab_segment_");
    push_u64(out, index as u64);
    push_str(out, "]\n");
    assert(out@ =~= o2 + numbered("  let tab_default_remainder_"@, index as nat) + " = calc.rem-euclid(tab_prefix_width_"@ + nat_digits(index as nat)
        + ".abs.pt(), "@ + decimal_text(default_tab_width()) + ")\n"@ + numbered("  let tab_advance_"@, index as nat) + " = "@
        + advance_text(index as nat, run_views(segment@), opt_slice_view(tab_stops)) + "\n"@ + numbered("  let tab_fill_"@, index as nat) + " = "@
        + fill_text(index as nat, opt_slice_view(tab_stops)) + "\n"@ + numbered("  let tab_prefix_"@, index as nat) + " = [#tab_prefix_"@
        + nat_digits((index - 1) as nat) + "#tab_fill_"@ + nat_digits(index as nat) + "#tab_segment_"@ + nat_digits(index as nat)
        + "]\n"@);
}

/// `out` after the bindings of segment `index`.
pub open spec fn after_segment_binding(out: Seq<char>, index: nat, segment: Seq<RunView>, tab_stops: Option<Seq<TabStop>>, fonts: FontTable) -> Seq<char> {
    let o = after_runs(out + numbered("  let tab_segment_"@, index) + " = ["@, segment, segment.len() as int, fonts) + "]\n"@;
    if index == 0 { o + "  let tab_prefix_0 = tab_segment_0\n"@ } else { after_bindings(o, index, segment, tab_stops, fonts) }
}

/// `out` after the bindings of the first `k` segments.
pub open spec fn after_segment_bindings(out: Seq<char>, segs: Seq<Seq<RunView>>, k: int, tab_stops: Option<Seq<TabStop>>, fonts: FontTable) -> Seq<char>
    decreases k,
{
    if k <= 0 || k > segs.len() {
        out
    } else {
        after_segment_binding(after_segment_bindings(out, segs, k - 1, tab_stops, fonts), (k - 1) as nat, segs[k - 1], tab_stops, fonts)
    }
}

/// Some run of `runs` holds a tab.
pub open spec fn runs_have_tab(runs: Seq<RunView>) -> bool {
    exists|k: int| 0 <= k < runs.len() && (#[trigger] runs[k]).text.contains('\t')
}

/// `out` after a paragraph's runs: plain runs, or a Typst `#context` block
/// that measures each tab segment and advances it to its tab stop.
pub open spec fn after_runs_with_tabs(out: Seq<char>, runs: Seq<RunView>, tab_stops: Option<Seq<TabStop>>, fonts: FontTable) -> Seq<char> {
    if !runs_have_tab(runs) {
        after_runs(out, runs, runs.len() as int, fonts)
    } else {
        let segs = tab_segments(runs);
        after_segment_bindings(out + "#context {\n"@, segs, segs.len() as int, tab_stops, fonts)
            + numbered("  tab_prefix_"@, (segs.len() - 1) as nat) + "\n"@ + "}"@
    }
}

#[verifier::spinoff_prover]
#[verifier::rlimit(40)]
pub fn generate_runs_with_tabs(out: &mut String, runs: &[Run], tab_stops: Option<&[TabStop]>, fonts: &FontTable)
    requires
        covers_runs(*fonts, run_views(runs@)),
    ensures
        final(out)@ == after_runs_with_tabs(old(out)@, run_views(runs@), opt_slice_view(tab_stops), *fonts),
{
    let ghost views = run_views(runs@);
    let has_tabs = crate::typst_text::paragraph_contains_tabs(runs);
    assert(has_tabs == runs_have_tab(views)) by {
        if has_tabs {
            let k = choose|k: int| 0 <= k < runs@.len() && (#[trigger] runs@[k]).text@.contains('\t');
            assert(views[k].text.contains('\t'));
        }
        if runs_have_tab(views) {
            let k = choose|k: int| 0 <= k < views.len() && (#[trigger] views[k]).text.contains('\t');
            assert(runs@[k].text@.contains('\t'));
        }
    }
    if !has_tabs {
        generate_runs(out, runs, fonts);
        return;
    }
    let segments = split_runs_on_tabs(runs);
    proof {
        lemma_segments_covered(*fonts, views, views.len() as int);
    }
    let ghost segs = tab_segments(views);
    let ghost start = out@ + "#context {\n"@;
    push_str(out, "#context {\n");
    let mut index: usize = 0;
    while index < segments.len()
        invariant
            segments_view(segments@) == segs,
            covers_segments(*fonts, segs),
            segs.len() > 0,
            index <= segments@.len(),
            out@ == after_segment_bindings(start, segs, index as int, opt_slice_view(tab_stops), *fonts),
        decreases segments@.len() - index,
    {
        let segment = segments[index].as_slice();
        assert(run_views(segment@) == segs[index as int]);
        assert(covers_runs(*fonts, segs[index as int]));
        let ghost before = out@;
        push_numbered(out, "  let tab_segment_", index);
        push_str(out, " = [");
        generate_runs(out, segment, fonts);
        push_str(out, "]\n");
        if index == 0 {
            push_str(out, "  let tab_prefix_0 = tab_segment_0\n");
        } else {
            write_tab_segment_bindings(out, index, segment, tab_stops, fonts);
        }
        index = index + 1;
    }
    push_numbered(out, "  tab_prefix_", segments.len() - 1);
    push_str(out, "\n");
    push_str(out, "}");
}

/// A run placed in a segment holds no tab, unless it is a footnote (kept whole).
pub open spec fn tab_free(r: RunView) -> bool {
    r.footnote is Some || !r.text.contains('\t')
}

pub open spec fn segments_tab_free(segs: Seq<Seq<RunView>>) -> bool {
    forall|i: int, j: int| 0 <= i < segs.len() && 0 <= j < segs[i].len() ==> tab_free(#[trigger] segs[i][j])
}

proof fn lemma_push_last_tab_free(segs: Seq<Seq<RunView>>, r: RunView)
    requires
        segs.len() >= 1,
        segments_tab_free(segs),
        tab_free(r),
    ensures
        push_last(segs, r).len() == segs.len(),
        segments_tab_free(push_last(segs, r)),
{
    let p = push_last(segs, r);
    assert forall|i: int, j: int| 0 <= i < p.len() && 0 <= j < p[i].len() implies tab_free(#[trigger] p[i][j]) by {
        if i == segs.len() - 1 && j == segs.last().len() {
            assert(p[i][j] == r);
        } else {
            assert(p[i][j] == segs[i][j]);
        }
    }
}

proof fn lemma_flush_part_tab_free(segs: Seq<Seq<RunView>>, run: RunView, cur: Seq<char>)
    requires
        segs.len() >= 1,
        segments_tab_free(segs),
        !cur.contains('\t'),
    ensures
        flush_part(segs, run, cur).len() == segs.len(),
        segments_tab_free(flush_part(segs, run, cur)),
{
    if cur.len() > 0 {
        lemma_push_last_tab_free(segs, part_view(run, cur));
    }
}

proof fn lemma_add_parts_tab_free(segs: Seq<Seq<RunView>>, run: RunView, t: Seq<char>, i: int, cur: Seq<char>)
    requires
        segs.len() >= 1,
        segments_tab_free(segs),
        !cur.contains('\t'),
        0 <= i <= t.len(),
    ensures
        add_parts(segs, run, t, i, cur).len() >= 1,
        segments_tab_free(add_parts(segs, run, t, i, cur)),
    decreases t.len() - i,
{
    if i >= t.len() {
        lemma_flush_part_tab_free(segs, run, cur);
    } else if t[i] == '\t' {
        lemma_flush_part_tab_free(segs, run, cur);
        let flushed = flush_part(segs, run, cur);
        let opened = flushed.push(Seq::<RunView>::empty());
        assert forall|a: int, b: int| 0 <= a < opened.len() && 0 <= b < opened[a].len() implies tab_free(#[trigger] opened[a][b]) by {
            assert(a < flushed.len());
            assert(opened[a] == flushed[a]);
        }
        assert(!Seq::<char>::empty().contains('\t'));
        lemma_add_parts_tab_free(opened, run, t, i + 1, Seq::empty());
    } else {
        let next = cur.push(t[i]);
        assert(!next.contains('\t')) by {
            if next.contains('\t') {
                let k = choose|k: int| 0 <= k < next.len() && next[k] == '\t';
                if k < cur.len() {
                    assert(cur[k] == '\t');
                }
            }
        }
        lemma_add_parts_tab_free(segs, run, t, i + 1, next);
    }
}

proof fn lemma_tab_segments_upto_tab_free(runs: Seq<RunView>, k: int)
    ensures
        tab_segments_upto(runs, k).len() >= 1,
        segments_tab_free(tab_segments_upto(runs, k)),
    decreases k,
{
    if k <= 0 || k > runs.len() {
        assert(tab_segments_upto(runs, k) == seq![Seq::<RunView>::empty()]);
    } else {
        lemma_tab_segments_upto_tab_free(runs, k - 1);
        let segs = tab_segments_upto(runs, k - 1);
        let run = runs[k - 1];
        if run.footnote is Some || !run.text.contains('\t') {
            if run.footnote is Some || run.text.len() > 0 {
                lemma_push_last_tab_free(segs, run);
            }
        } else {
            assert(!Seq::<char>::empty().contains('\t'));
            lemma_add_parts_tab_free(segs, run, run.text, 0, Seq::empty());
        }
    }
}

/// Splitting at tabs always yields at least one segment, and no run placed in
/// a segment holds a tab (footnote runs, kept whole, aside).
pub proof fn law_tab_segments_hold_no_tabs(runs: Seq<RunView>)
    ensures
        tab_segments(runs).len() >= 1,
        segments_tab_free(tab_segments(runs)),
{
    lemma_tab_segments_upto_tab_free(runs, runs.len() as int);
}

} // verus!
