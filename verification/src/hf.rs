//! Excel header/footer format strings.
//!
//! A format string is split into left/center/right sections by `&L`, `&C` and
//! `&R` (text before any of them belongs to the center). `&P` and `&N` stand
//! for the page number and the page count, `&&` is a literal ampersand, and
//! font (`&"Name"`), font-size (`&12`) and unknown codes are dropped.

use vstd::prelude::*;
use crate::ir::{Alignment, HFInline, HeaderFooter, HeaderFooterParagraph, ParagraphStyle, Run, TextStyle};
use crate::text::{chars_of, is_ascii_digit, is_digit_char, string_from_chars, trim_spec, trimmed_chars};

verus! {

/// Marker a section carries for the current page number.
pub const PAGE_NUMBER_MARK: char = '\u{1}';
/// Marker a section carries for the total page count.
pub const TOTAL_PAGES_MARK: char = '\u{2}';

/// The three sections of a format string, in left, center, right order.
pub struct Sections {
    pub left: Seq<char>,
    pub center: Seq<char>,
    pub right: Seq<char>,
}

/// `secs` with `c` appended to section `cur` (0 left, 1 center, 2 right).
pub open spec fn push_to_section(secs: Sections, cur: int, c: char) -> Sections {
    if cur == 0 {
        Sections { left: secs.left.push(c), ..secs }
    } else if cur == 1 {
        Sections { center: secs.center.push(c), ..secs }
    } else {
        Sections { right: secs.right.push(c), ..secs }
    }
}

/// Scanning mode: 0 plain text, 1 inside a `&"font name"` code, 2 inside the
/// digits of a `&NN` font-size code.
pub open spec fn scan_sections(chars: Seq<char>, i: int, mode: int, cur: int, secs: Sections) -> Sections
    decreases chars.len() - i, mode,
{
    if i < 0 || i >= chars.len() {
        secs
    } else if mode == 1 {
        if chars[i] == '"' { scan_sections(chars, i + 1, 0, cur, secs) } else { scan_sections(chars, i + 1, 1, cur, secs) }
    } else if mode == 2 {
        if is_digit_char(chars[i]) { scan_sections(chars, i + 1, 2, cur, secs) } else { scan_sections(chars, i, 0, cur, secs) }
    } else if chars[i] == '&' && i + 1 < chars.len() {
        let code = chars[i + 1];
        if code == 'L' {
            scan_sections(chars, i + 2, 0, 0, secs)
        } else if code == 'C' {
            scan_sections(chars, i + 2, 0, 1, secs)
        } else if code == 'R' {
            scan_sections(chars, i + 2, 0, 2, secs)
        } else if code == 'P' {
            scan_sections(chars, i + 2, 0, cur, push_to_section(secs, cur, PAGE_NUMBER_MARK))
        } else if code == 'N' {
            scan_sections(chars, i + 2, 0, cur, push_to_section(secs, cur, TOTAL_PAGES_MARK))
        } else if code == '&' {
            scan_sections(chars, i + 2, 0, cur, push_to_section(secs, cur, '&'))
        } else if code == '"' {
            scan_sections(chars, i + 2, 1, cur, secs)
        } else if is_digit_char(code) {
            scan_sections(chars, i + 2, 2, cur, secs)
        } else {
            scan_sections(chars, i + 2, 0, cur, secs)
        }
    } else {
        scan_sections(chars, i + 1, 0, cur, push_to_section(secs, cur, chars[i]))
    }
}

pub open spec fn empty_sections() -> Sections {
    Sections { left: Seq::empty(), center: Seq::empty(), right: Seq::empty() }
}

/// The sections of a (trimmed) format string.
pub open spec fn format_sections(chars: Seq<char>) -> Sections {
    scan_sections(chars, 0, 0, 1, empty_sections())
}

/// A piece of a header/footer line.
pub enum HFPiece {
    Text(Seq<char>),
    PageNumber,
    TotalPages,
}

/// `[Text(cur)]` when `cur` is non-empty, else nothing.
pub open spec fn flush_text(cur: Seq<char>) -> Seq<HFPiece> {
    if cur.len() > 0 { seq![HFPiece::Text(cur)] } else { Seq::empty() }
}

/// The pieces of `s[i..]` when the text `cur` is pending.
pub open spec fn pieces_from(s: Seq<char>, i: int, cur: Seq<char>) -> Seq<HFPiece>
    decreases s.len() - i,
{
    if i < 0 || i >= s.len() {
        flush_text(cur)
    } else if s[i] == PAGE_NUMBER_MARK {
        flush_text(cur).push(HFPiece::PageNumber) + pieces_from(s, i + 1, Seq::empty())
    } else if s[i] == TOTAL_PAGES_MARK {
        flush_text(cur).push(HFPiece::TotalPages) + pieces_from(s, i + 1, Seq::empty())
    } else {
        pieces_from(s, i + 1, cur.push(s[i]))
    }
}

/// A section split at its markers: maximal texts, page numbers and page counts.
pub open spec fn hf_pieces(s: Seq<char>) -> Seq<HFPiece> {
    pieces_from(s, 0, Seq::empty())
}

/// `el` is the inline that stands for `piece`.
pub open spec fn inline_matches(el: HFInline, piece: HFPiece) -> bool {
    match piece {
        HFPiece::Text(t) => match el {
            HFInline::Run(run) => run.text@ == t && run.style.is_plain() && run.href is None
                && run.footnote is None,
            _ => false,
        },
        HFPiece::PageNumber => el is PageNumber,
        HFPiece::TotalPages => el is TotalPages,
    }
}

pub open spec fn inlines_match(els: Seq<HFInline>, pieces: Seq<HFPiece>) -> bool {
    &&& els.len() == pieces.len()
    &&& forall|k: int| 0 <= k < els.len() ==> #[trigger] inline_matches(els[k], pieces[k])
}

proof fn lemma_inlines_match_push(els: Seq<HFInline>, pieces: Seq<HFPiece>, el: HFInline, piece: HFPiece)
    requires
        inlines_match(els, pieces),
        inline_matches(el, piece),
    ensures
        inlines_match(els.push(el), pieces.push(piece)),
{
    assert forall|k: int| 0 <= k < els.len() + 1 implies #[trigger] inline_matches(els.push(el)[k], pieces.push(piece)[k]) by {
        if k < els.len() {
            assert(els.push(el)[k] == els[k]);
            assert(pieces.push(piece)[k] == pieces[k]);
        }
    }
}

/// A header/footer text run with the default style.
fn plain_run(text: String) -> (run: Run)
    ensures
        run.text == text,
        run.style.is_plain(),
        run.href is None,
        run.footnote is None,
{
    Run { text, style: TextStyle::default(), href: None, footnote: None }
}

/// Split a section into runs, page numbers and page counts: every maximal
/// stretch of text between markers becomes one run with the default style.
pub fn build_hf_elements(section: &str) -> (elements: Vec<HFInline>)
    ensures
        inlines_match(elements@, hf_pieces(section@)),
{
    let chars = chars_of(section);
    let mut elements: Vec<HFInline> = Vec::new();
    let mut current: Vec<char> = Vec::new();
    let ghost mut done: Seq<HFPiece> = Seq::empty();
    let mut i: usize = 0;
    while i < chars.len()
        invariant
            i <= chars@.len(),
            chars@ == section@,
            inlines_match(elements@, done),
            done + pieces_from(chars@, i as int, current@) == hf_pieces(chars@),
        decreases chars@.len() - i,
    {
        let ch = chars[i];
        if ch == PAGE_NUMBER_MARK || ch == TOTAL_PAGES_MARK {
            let ghost before = done;
            let ghost rest = pieces_from(chars@, i + 1, Seq::empty());
            if current.len() > 0 {
                let text = string_from_chars(&current, 0, current.len());
                assert(current@.subrange(0, current@.len() as int) =~= current@);
                let run = plain_run(text);
                proof {
                    lemma_inlines_match_push(elements@, done, HFInline::Run(run), HFPiece::Text(current@));
                    done = done.push(HFPiece::Text(current@));
                }
                elements.push(HFInline::Run(run));
            }
            let marker = if ch == PAGE_NUMBER_MARK { HFInline::PageNumber } else { HFInline::TotalPages };
            let ghost piece = if ch == PAGE_NUMBER_MARK { HFPiece::PageNumber } else { HFPiece::TotalPages };
            proof {
                lemma_inlines_match_push(elements@, done, marker, piece);
                done = done.push(piece);
                assert(done =~= before + flush_text(current@).push(piece));
                assert(before + pieces_from(chars@, i as int, current@) =~= done + rest);
            }
            elements.push(marker);
            current = Vec::new();
            assert(current@ =~= Seq::<char>::empty());
        } else {
            current.push(ch);
        }
        i = i + 1;
    }
    if current.len() > 0 {
        let text = string_from_chars(&current, 0, current.len());
        assert(current@.subrange(0, current@.len() as int) =~= current@);
        let run = plain_run(text);
        proof {
            lemma_inlines_match_push(elements@, done, HFInline::Run(run), HFPiece::Text(current@));
            done = done.push(HFPiece::Text(current@));
        }
        elements.push(HFInline::Run(run));
    }
    assert(done =~= hf_pieces(section@));
    elements
}

/// One header/footer line: its alignment and the text of its section.
pub struct HFLine {
    pub alignment: Alignment,
    pub text: Seq<char>,
}

/// The line of a section, if the section yields any element.
pub open spec fn section_line(text: Seq<char>, alignment: Alignment) -> Seq<HFLine> {
    if hf_pieces(text).len() > 0 { seq![HFLine { alignment, text }] } else { Seq::empty() }
}

/// The lines a format string yields, left, center, right, skipping empty sections.
pub open spec fn hf_lines(format: Seq<char>) -> Seq<HFLine> {
    let secs = format_sections(trim_spec(format));
    section_line(secs.left, Alignment::Left) + section_line(secs.center, Alignment::Center)
        + section_line(secs.right, Alignment::Right)
}

/// `style` sets the alignment and nothing else.
pub open spec fn is_aligned_only(style: ParagraphStyle, alignment: Alignment) -> bool {
    &&& style.alignment == Some(alignment)
    &&& ParagraphStyle { alignment: None, ..style }.is_plain()
}

/// `p` is the paragraph that stands for `line`.
pub open spec fn paragraph_matches(p: HeaderFooterParagraph, line: HFLine) -> bool {
    &&& is_aligned_only(p.style, line.alignment)
    &&& inlines_match(p.elements@, hf_pieces(line.text))
}

pub open spec fn paragraphs_match(ps: Seq<HeaderFooterParagraph>, lines: Seq<HFLine>) -> bool {
    &&& ps.len() == lines.len()
    &&& forall|k: int| 0 <= k < ps.len() ==> #[trigger] paragraph_matches(ps[k], lines[k])
}

proof fn lemma_paragraphs_match_append(ps: Seq<HeaderFooterParagraph>, lines: Seq<HFLine>, more: Seq<HeaderFooterParagraph>, more_lines: Seq<HFLine>)
    requires
        paragraphs_match(ps, lines),
        paragraphs_match(more, more_lines),
    ensures
        paragraphs_match(ps + more, lines + more_lines),
{
    assert forall|k: int| 0 <= k < ps.len() + more.len() implies #[trigger] paragraph_matches((ps + more)[k], (lines + more_lines)[k]) by {
        if k < ps.len() {
            assert((ps + more)[k] == ps[k]);
            assert((lines + more_lines)[k] == lines[k]);
        } else {
            assert((ps + more)[k] == more[k - ps.len()]);
            assert((lines + more_lines)[k] == more_lines[k - lines.len()]);
        }
    }
}

/// The paragraph of one section, if the section yields any element.
fn section_paragraph(text: &Vec<char>, alignment: Alignment) -> (paragraph: Option<HeaderFooterParagraph>)
    ensures
        match paragraph {
            Some(p) => section_line(text@, alignment) == seq![HFLine { alignment, text: text@ }]
                && paragraph_matches(p, HFLine { alignment, text: text@ }),
            None => section_line(text@, alignment) == Seq::<HFLine>::empty(),
        },
{
    if text.len() == 0 {
        assert(hf_pieces(text@) =~= Seq::<HFPiece>::empty());
        return None;
    }
    let section = string_from_chars(text, 0, text.len());
    assert(text@.subrange(0, text@.len() as int) =~= text@);
    let elements = build_hf_elements(section.as_str());
    if elements.len() == 0 {
        return None;
    }
    let mut style = ParagraphStyle::default();
    style.alignment = Some(alignment);
    Some(HeaderFooterParagraph { style, elements })
}

/// The sections of an already trimmed format string.
fn split_sections(chars: &Vec<char>) -> (sections: (Vec<char>, Vec<char>, Vec<char>))
    ensures
        format_sections(chars@) == (Sections { left: sections.0@, center: sections.1@, right: sections.2@ }),
{
    let mut left: Vec<char> = Vec::new();
    let mut center: Vec<char> = Vec::new();
    let mut right: Vec<char> = Vec::new();
    let mut cur: u8 = 1;
    let mut i: usize = 0;
    let len = chars.len();
    while i < len
        invariant
            len == chars@.len(),
            i <= len,
            cur <= 2,
            scan_sections(chars@, i as int, 0, cur as int, Sections { left: left@, center: center@, right: right@ })
                == format_sections(chars@),
        decreases len - i,
    {
        let ghost start = i;
        if chars[i] == '&' && i + 1 < len {
            let code = chars[i + 1];
            if code == 'L' {
                cur = 0;
                i = i + 2;
            } else if code == 'C' {
                cur = 1;
                i = i + 2;
            } else if code == 'R' {
                cur = 2;
                i = i + 2;
            } else if code == 'P' || code == 'N' || code == '&' {
                let mark = if code == 'P' { PAGE_NUMBER_MARK } else if code == 'N' { TOTAL_PAGES_MARK } else { '&' };
                if cur == 0 { left.push(mark); } else if cur == 1 { center.push(mark); } else { right.push(mark); }
                i = i + 2;
            } else if code == '"' {
                i = i + 2;
                while i < len && chars[i] != '"'
                    invariant
                        len == chars@.len(),
                        start + 2 <= i <= len,
                        cur <= 2,
                        scan_sections(chars@, i as int, 1, cur as int, Sections { left: left@, center: center@, right: right@ })
                            == format_sections(chars@),
                    decreases len - i,
                {
                    i = i + 1;
                }
                if i < len {
                    i = i + 1;
                }
            } else if is_ascii_digit(code) {
                i = i + 1;
                while i < len && is_ascii_digit(chars[i])
                    invariant
                        len == chars@.len(),
                        start + 1 <= i <= len,
                        cur <= 2,
                        scan_sections(chars@, i as int, 2, cur as int, Sections { left: left@, center: center@, right: right@ })
                            == format_sections(chars@),
                    decreases len - i,
                {
                    i = i + 1;
                }
            } else {
                i = i + 2;
            }
        } else {
            let c = chars[i];
            if cur == 0 { left.push(c); } else if cur == 1 { center.push(c); } else { right.push(c); }
            i = i + 1;
        }
    }
    (left, center, right)
}

/// Parse an Excel header/footer format string into header/footer lines, one
/// per non-empty section in left, center, right order, each aligned like its
/// section. Yields `None` when no section has content.
pub fn parse_hf_format_string(format_str: &str) -> (hf: Option<HeaderFooter>)
    ensures
        match hf {
            None => hf_lines(format_str@).len() == 0,
            Some(hf) => {
                &&& hf_lines(format_str@).len() > 0
                &&& paragraphs_match(hf.paragraphs@, hf_lines(format_str@))
                &&& hf.top_border is None
                &&& hf.bottom_border is None
            },
        },
{
    let chars = trimmed_chars(format_str);
    let (left, center, right) = split_sections(&chars);
    let mut paragraphs: Vec<HeaderFooterParagraph> = Vec::new();
    let ghost mut lines: Seq<HFLine> = Seq::empty();
    let parts = [(left, Alignment::Left), (center, Alignment::Center), (right, Alignment::Right)];
    let ghost expected = hf_lines(format_str@);
    assert(expected == section_line(parts[0].0@, Alignment::Left) + section_line(parts[1].0@, Alignment::Center)
        + section_line(parts[2].0@, Alignment::Right));
    let mut k: usize = 0;
    while k < 3
        invariant
            k <= 3,
            paragraphs_match(paragraphs@, lines),
            parts[0].1 == Alignment::Left,
            parts[1].1 == Alignment::Center,
            parts[2].1 == Alignment::Right,
            expected == section_line(parts[0].0@, Alignment::Left) + section_line(parts[1].0@, Alignment::Center)
                + section_line(parts[2].0@, Alignment::Right),
            k == 0 ==> lines == Seq::<HFLine>::empty(),
            k == 1 ==> lines == section_line(parts[0].0@, Alignment::Left),
            k == 2 ==> lines == section_line(parts[0].0@, Alignment::Left) + section_line(parts[1].0@, Alignment::Center),
            k == 3 ==> lines == expected,
        decreases 3 - k,
    {
        let ghost before = lines;
        match section_paragraph(&parts[k].0, parts[k].1) {
            Some(p) => {
                let ghost old_ps = paragraphs@;
                proof {
                    let line = HFLine { alignment: parts[k as int].1, text: parts[k as int].0@ };
                    assert(paragraphs_match(seq![p], seq![line]));
                    lemma_paragraphs_match_append(paragraphs@, lines, seq![p], seq![line]);
                    lines = lines + seq![line];
                }
                paragraphs.push(p);
                assert(paragraphs@ =~= old_ps + seq![p]);
            },
            None => {},
        }
        assert(lines =~= before + section_line(parts[k as int].0@, parts[k as int].1));
        k = k + 1;
    }
    if paragraphs.len() == 0 {
        None
    } else {
        Some(HeaderFooter { paragraphs, top_border: None, bottom_border: None })
    }
}

/// The characters a piece stands for inside a section.
pub open spec fn piece_chars(piece: HFPiece) -> Seq<char> {
    match piece {
        HFPiece::Text(t) => t,
        HFPiece::PageNumber => seq![PAGE_NUMBER_MARK],
        HFPiece::TotalPages => seq![TOTAL_PAGES_MARK],
    }
}

/// The section text that a sequence of pieces spells out.
pub open spec fn reassemble(pieces: Seq<HFPiece>) -> Seq<char>
    decreases pieces.len(),
{
    if pieces.len() == 0 { Seq::empty() } else { piece_chars(pieces[0]) + reassemble(pieces.drop_first()) }
}

proof fn lemma_reassemble_append(a: Seq<HFPiece>, b: Seq<HFPiece>)
    ensures
        reassemble(a + b) == reassemble(a) + reassemble(b),
    decreases a.len(),
{
    if a.len() == 0 {
        assert(a + b =~= b);
    } else {
        assert((a + b).drop_first() =~= a.drop_first() + b);
        lemma_reassemble_append(a.drop_first(), b);
    }
}

proof fn lemma_reassemble_one(p: HFPiece)
    ensures
        reassemble(seq![p]) == piece_chars(p),
{
    assert(seq![p].drop_first() =~= Seq::<HFPiece>::empty());
    assert(reassemble(Seq::<HFPiece>::empty()) == Seq::<char>::empty());
    assert(piece_chars(p) + Seq::<char>::empty() =~= piece_chars(p));
}

proof fn lemma_pieces_from_reassemble(s: Seq<char>, i: int, cur: Seq<char>)
    requires
        0 <= i <= s.len(),
    ensures
        reassemble(pieces_from(s, i, cur)) == cur + s.skip(i),
    decreases s.len() - i,
{
    if cur.len() > 0 {
        lemma_reassemble_one(HFPiece::Text(cur));
    } else {
        assert(reassemble(flush_text(cur)) =~= cur);
    }
    if i == s.len() {
        assert(s.skip(i) =~= Seq::<char>::empty());
        assert(cur + s.skip(i) =~= cur);
    } else {
        assert(s.skip(i) =~= seq![s[i]] + s.skip(i + 1));
        if s[i] == PAGE_NUMBER_MARK || s[i] == TOTAL_PAGES_MARK {
            let piece = if s[i] == PAGE_NUMBER_MARK { HFPiece::PageNumber } else { HFPiece::TotalPages };
            lemma_pieces_from_reassemble(s, i + 1, Seq::empty());
            assert(flush_text(cur).push(piece) =~= flush_text(cur) + seq![piece]);
            lemma_reassemble_append(flush_text(cur), seq![piece]);
            lemma_reassemble_one(piece);
            lemma_reassemble_append(flush_text(cur).push(piece), pieces_from(s, i + 1, Seq::empty()));
            assert(Seq::<char>::empty() + s.skip(i + 1) =~= s.skip(i + 1));
            assert(cur + s.skip(i) =~= cur + seq![s[i]] + s.skip(i + 1));
        } else {
            lemma_pieces_from_reassemble(s, i + 1, cur.push(s[i]));
            assert(cur.push(s[i]) + s.skip(i + 1) =~= cur + s.skip(i));
        }
    }
}

/// Splitting a section loses nothing: the pieces of any section, spelled out
/// again with their markers, give back the section.
pub proof fn law_hf_pieces_spell_section(section: Seq<char>)
    ensures
        reassemble(hf_pieces(section)) == section,
{
    lemma_pieces_from_reassemble(section, 0, Seq::empty());
    assert(section.skip(0) =~= section);
    assert(Seq::<char>::empty() + section =~= section);
}

proof fn lemma_scan_plain_text(chars: Seq<char>, i: int, secs: Sections)
    requires
        0 <= i <= chars.len(),
        forall|j: int| 0 <= j < chars.len() ==> chars[j] != '&',
    ensures
        scan_sections(chars, i, 0, 1, secs) == (Sections { center: secs.center + chars.skip(i), ..secs }),
    decreases chars.len() - i,
{
    if i == chars.len() {
        assert(secs.center + chars.skip(i) =~= secs.center);
    } else {
        lemma_scan_plain_text(chars, i + 1, push_to_section(secs, 1, chars[i]));
        assert(secs.center.push(chars[i]) + chars.skip(i + 1) =~= secs.center + chars.skip(i));
    }
}

proof fn lemma_pieces_nonempty(s: Seq<char>, i: int, cur: Seq<char>)
    requires
        0 <= i <= s.len(),
        cur.len() > 0 || i < s.len(),
    ensures
        pieces_from(s, i, cur).len() > 0,
    decreases s.len() - i,
{
    if i < s.len() && s[i] != PAGE_NUMBER_MARK && s[i] != TOTAL_PAGES_MARK {
        lemma_pieces_nonempty(s, i + 1, cur.push(s[i]));
    }
}

/// A format string without any `&` code is one centered line holding the
/// whole trimmed text; a blank one yields no line at all.
pub proof fn law_plain_format_is_centered(format: Seq<char>)
    requires
        forall|j: int| 0 <= j < trim_spec(format).len() ==> trim_spec(format)[j] != '&',
    ensures
        trim_spec(format).len() == 0 ==> hf_lines(format).len() == 0,
        trim_spec(format).len() > 0 ==> hf_lines(format) == seq![HFLine { alignment: Alignment::Center, text: trim_spec(format) }],
{
    let t = trim_spec(format);
    lemma_scan_plain_text(t, 0, empty_sections());
    assert(Seq::<char>::empty() + t.skip(0) =~= t);
    let secs = format_sections(t);
    assert(secs.left == Seq::<char>::empty());
    assert(secs.right == Seq::<char>::empty());
    assert(hf_pieces(Seq::<char>::empty()) =~= Seq::<HFPiece>::empty());
    if t.len() > 0 {
        lemma_pieces_nonempty(t, 0, Seq::empty());
        assert(hf_lines(format) =~= seq![HFLine { alignment: Alignment::Center, text: t }]);
    } else {
        assert(hf_lines(format) =~= Seq::<HFLine>::empty());
    }
}

/// Section `k` of `secs` (0 left, 1 center, 2 right).
pub open spec fn section_text(secs: Sections, k: int) -> Seq<char> {
    if k == 0 { secs.left } else if k == 1 { secs.center } else { secs.right }
}

/// `secs` with `t` appended to section `cur`.
pub open spec fn append_to_section(secs: Sections, cur: int, t: Seq<char>) -> Sections {
    if cur == 0 {
        Sections { left: secs.left + t, ..secs }
    } else if cur == 1 {
        Sections { center: secs.center + t, ..secs }
    } else {
        Sections { right: secs.right + t, ..secs }
    }
}

/// The section a `&L`, `&C` or `&R` code selects.
pub open spec fn selected_section(code: char) -> int {
    if code == 'L' { 0 } else if code == 'C' { 1 } else { 2 }
}

/// The character a `&P`, `&N` or `&&` code stands for.
pub open spec fn code_character(code: char) -> char {
    if code == 'P' { PAGE_NUMBER_MARK } else if code == 'N' { TOTAL_PAGES_MARK } else { '&' }
}

/// The format string `&<section>text1&<code>text2`.
pub open spec fn coded_format(section: char, text1: Seq<char>, code: char, text2: Seq<char>) -> Seq<char> {
    seq!['&', section] + text1 + seq!['&', code] + text2
}

proof fn lemma_scan_plain_stretch(chars: Seq<char>, i: int, k: int, cur: int, secs: Sections)
    requires
        0 <= i <= k <= chars.len(),
        forall|j: int| i <= j < k ==> chars[j] != '&',
    ensures
        scan_sections(chars, i, 0, cur, secs) == scan_sections(chars, k, 0, cur, append_to_section(secs, cur, chars.subrange(i, k))),
    decreases k - i,
{
    if i == k {
        assert(chars.subrange(i, k) =~= Seq::<char>::empty());
        assert(secs.left + Seq::<char>::empty() =~= secs.left);
        assert(secs.center + Seq::<char>::empty() =~= secs.center);
        assert(secs.right + Seq::<char>::empty() =~= secs.right);
        assert(append_to_section(secs, cur, chars.subrange(i, k)) == secs);
    } else {
        let c = chars[i];
        lemma_scan_plain_stretch(chars, i + 1, k, cur, push_to_section(secs, cur, c));
        let rest = chars.subrange(i + 1, k);
        assert(chars.subrange(i, k) =~= seq![c] + rest);
        assert(secs.left.push(c) + rest =~= secs.left + chars.subrange(i, k));
        assert(secs.center.push(c) + rest =~= secs.center + chars.subrange(i, k));
        assert(secs.right.push(c) + rest =~= secs.right + chars.subrange(i, k));
        assert(append_to_section(push_to_section(secs, cur, c), cur, rest) == append_to_section(secs, cur, chars.subrange(i, k)));
    }
}

/// A page-number, page-count or `&&` code lands in the section that the last
/// `&L`, `&C` or `&R` selected, between the text around it: after
/// `&<section>text1&<code>text2` that section holds text1, the code's
/// character and text2, and the other sections stay empty.
pub proof fn law_codes_land_in_selected_section(section: char, code: char, text1: Seq<char>, text2: Seq<char>)
    requires
        section == 'L' || section == 'C' || section == 'R',
        code == 'P' || code == 'N' || code == '&',
        forall|j: int| 0 <= j < text1.len() ==> text1[j] != '&',
        forall|j: int| 0 <= j < text2.len() ==> text2[j] != '&',
    ensures
        forall|k: int| 0 <= k < 3 ==> #[trigger] section_text(format_sections(coded_format(section, text1, code, text2)), k)
            == if k == selected_section(section) { text1.push(code_character(code)) + text2 } else { Seq::<char>::empty() },
{
    let s = coded_format(section, text1, code, text2);
    let n1 = text1.len() as int;
    let len = s.len() as int;
    let c = selected_section(section);
    assert(len == 4 + n1 + text2.len());
    assert(s[0] == '&' && s[1] == section);
    assert forall|j: int| 2 <= j < 2 + n1 implies s[j] != '&' by {
        assert(s[j] == text1[j - 2]);
    }
    assert(s[2 + n1] == '&' && s[3 + n1] == code);
    assert forall|j: int| 4 + n1 <= j < len implies s[j] != '&' by {
        assert(s[j] == text2[j - 4 - n1]);
    }
    assert(s.subrange(2, 2 + n1) =~= text1);
    assert(s.subrange(4 + n1, len) =~= text2);
    let e = empty_sections();
    assert(format_sections(s) == scan_sections(s, 2, 0, c, e));
    lemma_scan_plain_stretch(s, 2, 2 + n1, c, e);
    let a = append_to_section(e, c, text1);
    let m = code_character(code);
    assert(scan_sections(s, 2 + n1, 0, c, a) == scan_sections(s, 4 + n1, 0, c, push_to_section(a, c, m)));
    lemma_scan_plain_stretch(s, 4 + n1, len, c, push_to_section(a, c, m));
    let fin = append_to_section(push_to_section(a, c, m), c, text2);
    assert(scan_sections(s, len, 0, c, fin) == fin);
    assert(Seq::<char>::empty() + text1 =~= text1);
    assert forall|k: int| 0 <= k < 3 implies #[trigger] section_text(format_sections(s), k)
        == if k == c { text1.push(m) + text2 } else { Seq::<char>::empty() } by {
        assert(format_sections(s) == fin);
    }
}

} // verus!
