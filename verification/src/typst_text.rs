//! Typst markup for text runs: escaping, character formatting, soft line
//! breaks, tab stops and no-wrap text.

use unicode_normalization::UnicodeNormalization;
use vstd::prelude::*;
use crate::ir::{pow10, Color, Decimal, Run, RunView, TextStyle, MAX_DECIMAL_SCALE};
use crate::text::{
    chars_of, is_space_char, is_whitespace, push_char, push_str, seq_ends_with, str_ends_with, str_eq, trim_spec,
    trimmed_chars,
};

verus! {

/// The decimal digits of `n`.
pub open spec fn nat_digits(n: nat) -> Seq<char>
    decreases n,
{
    if n < 10 {
        seq![digit_char(n)]
    } else {
        nat_digits(n / 10).push(digit_char(n % 10))
    }
}

pub open spec fn digit_char(d: nat) -> char {
    ((d + ('0' as nat)) as u32) as char
}

/// Appends the decimal digits of `n` to `out`.
pub fn push_u64(out: &mut String, n: u64)
    ensures
        final(out)@ == old(out)@ + nat_digits(n as nat),
    decreases n,
{
    if n >= 10 {
        push_u64(out, n / 10);
    }
    let d = (n % 10) as u32;
    let c = char_from_digit(d);
    push_char(out, c);
    assert(nat_digits(n as nat) =~= if n < 10 { seq![digit_char(n as nat)] } else { nat_digits((n / 10) as nat).push(digit_char((n % 10) as nat)) });
}

/// The character of a decimal digit.
pub fn char_from_digit(d: u32) -> (c: char)
    requires
        d < 10,
    ensures
        c == digit_char(d as nat),
{
    if d == 0 { '0' } else if d == 1 { '1' } else if d == 2 { '2' } else if d == 3 { '3' } else if d == 4 { '4' }
    else if d == 5 { '5' } else if d == 6 { '6' } else if d == 7 { '7' } else if d == 8 { '8' } else { '9' }
}

/// `s` without its trailing '0' characters.
pub open spec fn strip_trailing_zeros(s: Seq<char>) -> Seq<char>
    decreases s.len(),
{
    if s.len() > 0 && s.last() == '0' { strip_trailing_zeros(s.drop_last()) } else { s }
}

/// The fractional digits of `frac / 10^scale`, without trailing zeros.
pub open spec fn fraction_digits(frac: nat, scale: nat) -> Seq<char> {
    let digits = nat_digits(frac);
    strip_trailing_zeros(Seq::new((scale - digits.len()) as nat, |i: int| '0') + digits)
}

/// How Typst source prints a decimal: whole numbers without a fractional
/// part, others with their significant fractional digits only.
pub open spec fn decimal_text(d: Decimal) -> Seq<char> {
    let units = d.units_spec();
    let scale = d.scale_spec();
    let magnitude: nat = if units < 0 { (-units) as nat } else { units as nat };
    let p = pow10(scale as nat) as nat;
    let whole = magnitude / p;
    let frac = magnitude % p;
    let sign: Seq<char> = if units < 0 { seq!['-'] } else { Seq::empty() };
    if frac == 0 {
        sign + nat_digits(whole)
    } else {
        sign + nat_digits(whole) + seq!['.'] + fraction_digits(frac, scale as nat)
    }
}

pub(crate) proof fn lemma_pow10_positive(n: nat)
    ensures
        pow10(n) >= 1,
    decreases n,
{
    if n > 0 {
        lemma_pow10_positive((n - 1) as nat);
    }
}

pub(crate) proof fn lemma_pow10_monotonic(a: nat, b: nat)
    requires
        a <= b,
    ensures
        pow10(a) <= pow10(b),
    decreases b,
{
    lemma_pow10_positive(b);
    if a < b {
        lemma_pow10_monotonic(a, (b - 1) as nat);
        lemma_pow10_positive((b - 1) as nat);
    }
}

/// `10^n` for `n <= 18`.
pub(crate) fn pow10_u64(n: u32) -> (p: u64)
    requires
        n <= MAX_DECIMAL_SCALE,
    ensures
        p as int == pow10(n as nat),
        p >= 1,
{
    proof {
        lemma_pow10_monotonic(n as nat, 18);
        reveal_with_fuel(pow10, 19);
        assert(pow10(18) == 1000000000000000000);
    }
    let mut p: u64 = 1;
    let mut k: u32 = 0;
    while k < n
        invariant
            k <= n <= 18,
            p as int == pow10(k as nat),
            pow10(n as nat) <= 1000000000000000000,
        decreases n - k,
    {
        proof {
            lemma_pow10_monotonic((k + 1) as nat, n as nat);
        }
        p = p * 10;
        k = k + 1;
    }
    proof {
        lemma_pow10_positive(n as nat);
    }
    p
}

proof fn lemma_digits_len(n: nat, k: nat)
    requires
        k >= 1,
        n < pow10(k),
    ensures
        1 <= nat_digits(n).len() <= k,
    decreases n,
{
    if n >= 10 {
        if k == 1 {
            reveal_with_fuel(pow10, 2);
            assert(pow10(1) == 10);
        } else {
            assert(pow10(k) == 10 * pow10((k - 1) as nat));
            let q = pow10((k - 1) as nat);
            assert(n / 10 < q) by (nonlinear_arith)
                requires n < 10 * q;
            lemma_digits_len(n / 10, (k - 1) as nat);
        }
    }
}

/// The digits of `frac` left-padded with zeros to `scale` digits, without
/// trailing zeros.
fn push_fraction(out: &mut String, frac: u64, scale: u32)
    requires
        1 <= scale,
        (frac as int) < pow10(scale as nat),
    ensures
        final(out)@ == old(out)@ + fraction_digits(frac as nat, scale as nat),
{
    let mut digits_text = String::new();
    push_u64(&mut digits_text, frac);
    let digits = chars_of(digits_text.as_str());
    proof {
        lemma_digits_len(frac as nat, scale as nat);
    }
    let mut padded: Vec<char> = Vec::new();
    let pad = (scale as usize) - digits.len();
    let mut i: usize = 0;
    while i < pad
        invariant
            i <= pad,
            padded@ == Seq::new(i as nat, |j: int| '0'),
        decreases pad - i,
    {
        padded.push('0');
        i = i + 1;
        assert(padded@ =~= Seq::new(i as nat, |j: int| '0'));
    }
    let mut k: usize = 0;
    while k < digits.len()
        invariant
            k <= digits@.len(),
            padded@ == Seq::new(pad as nat, |j: int| '0') + digits@.take(k as int),
        decreases digits@.len() - k,
    {
        padded.push(digits[k]);
        k = k + 1;
    }
    assert(digits@.take(digits@.len() as int) =~= digits@);
    let mut end = padded.len();
    assert(padded@.take(end as int) =~= padded@);
    while end > 0 && padded[end - 1] == '0'
        invariant
            end <= padded@.len(),
            strip_trailing_zeros(padded@.take(end as int)) == fraction_digits(frac as nat, scale as nat),
        decreases end,
    {
        assert(padded@.take(end as int).drop_last() =~= padded@.take(end - 1));
        end = end - 1;
    }
    let mut m: usize = 0;
    while m < end
        invariant
            m <= end <= padded@.len(),
            out@ == old(out)@ + padded@.take(m as int),
        decreases end - m,
    {
        push_char(out, padded[m]);
        m = m + 1;
        assert(padded@.take(m as int) =~= padded@.take(m - 1).push(padded@[m - 1]));
    }
}

/// Typst source text of a decimal (see `decimal_text`).
pub fn format_decimal(out: &mut String, d: Decimal)
    ensures
        final(out)@ == old(out)@ + decimal_text(d),
{
    let units = d.units();
    let scale = d.scale();
    let magnitude: u64 = if units < 0 { (-(units as i128)) as u64 } else { units as u64 };
    let p = pow10_u64(scale);
    let whole = magnitude / p;
    let frac = magnitude % p;
    let ghost start = out@;
    if units < 0 {
        push_char(out, '-');
    }
    let ghost sign: Seq<char> = if units < 0 { seq!['-'] } else { Seq::empty() };
    assert(out@ == start + sign);
    push_u64(out, whole);
    if frac != 0 {
        push_char(out, '.');
        proof {
            if scale == 0 {
                assert(pow10(0) == 1);
            }
        }
        push_fraction(out, frac, scale);
        assert(out@ =~= start + (sign + nat_digits(whole as nat) + seq!['.'] + fraction_digits(frac as nat, scale as nat)));
    } else {
        assert(out@ =~= start + (sign + nat_digits(whole as nat)));
    }
}

/// Unicode canonical composition (NFC) of a character sequence.
pub uninterp spec fn nfc_of(s: Seq<char>) -> Seq<char>;

/// The NFC normal form of `text`, computed by `unicode_normalization`'s
/// `nfc()` iterator; the contract only names the result.
#[verifier::external_body]
fn nfc_normalize(text: &str) -> (normalized: String)
    ensures
        normalized@ == nfc_of(text@),
{
    text.nfc().collect()
}

/// Characters with a meaning in Typst markup.
pub open spec fn is_markup_char(c: char) -> bool {
    c == '#' || c == '*' || c == '_' || c == '`' || c == '<' || c == '>' || c == '@' || c == '\\'
        || c == '~' || c == '/' || c == '$' || c == '[' || c == ']' || c == '{' || c == '}'
}

/// A leading `-` or `+` followed by whitespace would start a Typst list.
pub open spec fn is_list_prefix(s: Seq<char>, k: int) -> bool {
    k == 0 && (s[k] == '-' || s[k] == '+') && s.len() > 1 && is_space_char(s[1])
}

/// Markup for character `k` of `s`: a hard line break for `\n`, nothing
/// for `\r`, a backslash escape for markup characters and list prefixes.
pub open spec fn escaped_char_at(s: Seq<char>, k: int) -> Seq<char> {
    let c = s[k];
    if c == '\n' {
        "#linebreak()"@
    } else if c == '\r' {
        Seq::empty()
    } else if is_markup_char(c) || is_list_prefix(s, k) {
        seq!['\\', c]
    } else {
        seq![c]
    }
}

/// Markup for the first `k` characters of `s`.
pub open spec fn escape_upto(s: Seq<char>, k: int) -> Seq<char>
    decreases k,
{
    if k <= 0 { Seq::empty() } else { escape_upto(s, k - 1) + escaped_char_at(s, k - 1) }
}

/// Typst markup that shows `text` literally (after NFC normalization).
pub open spec fn escape_typst_spec(text: Seq<char>) -> Seq<char> {
    escape_upto(nfc_of(text), nfc_of(text).len() as int)
}

proof fn lemma_concat_lacks(a: Seq<char>, b: Seq<char>, x: char)
    requires
        !a.contains(x),
        !b.contains(x),
    ensures
        !(a + b).contains(x),
{
    if (a + b).contains(x) {
        let k = choose|k: int| 0 <= k < (a + b).len() && (a + b)[k] == x;
        if k < a.len() {
            assert(a[k] == x);
        } else {
            assert(b[k - a.len()] == x);
        }
    }
}

proof fn lemma_escaped_char_no_line_end(s: Seq<char>, k: int)
    ensures
        !escaped_char_at(s, k).contains('\n'),
        !escaped_char_at(s, k).contains('\r'),
{
    reveal_strlit("#linebreak()");
    let piece = escaped_char_at(s, k);
    assert forall|i: int| 0 <= i < piece.len() implies piece[i] != '\n' && piece[i] != '\r' by {
    }
}

proof fn lemma_escape_upto_no_line_end(s: Seq<char>, k: int)
    ensures
        !escape_upto(s, k).contains('\n'),
        !escape_upto(s, k).contains('\r'),
    decreases k,
{
    if k > 0 {
        lemma_escape_upto_no_line_end(s, k - 1);
        lemma_escaped_char_no_line_end(s, k - 1);
        lemma_concat_lacks(escape_upto(s, k - 1), escaped_char_at(s, k - 1), '\n');
        lemma_concat_lacks(escape_upto(s, k - 1), escaped_char_at(s, k - 1), '\r');
    } else {
        assert(escape_upto(s, k) =~= Seq::<char>::empty());
    }
}

/// Escaped text never holds a raw line end: a line break becomes
/// `#linebreak()` and a carriage return is dropped.
pub proof fn law_escaped_text_has_no_line_ends(text: Seq<char>)
    ensures
        !escape_typst_spec(text).contains('\n'),
        !escape_typst_spec(text).contains('\r'),
{
    lemma_escape_upto_no_line_end(nfc_of(text), nfc_of(text).len() as int);
}

fn is_markup(c: char) -> (b: bool)
    ensures
        b == is_markup_char(c),
{
    c == '#' || c == '*' || c == '_' || c == '`' || c == '<' || c == '>' || c == '@' || c == '\\'
        || c == '~' || c == '/' || c == '$' || c == '[' || c == ']' || c == '{' || c == '}'
}

/// Typst markup that shows `normalized`, text already in NFC form, literally
/// (see `escaped_char_at`).
pub fn escape_normalized_typst(normalized: &str) -> (escaped: String)
    ensures
        escaped@ == escape_upto(normalized@, normalized@.len() as int),
{
    let chars = chars_of(normalized);
    let mut result = String::new();
    let mut k: usize = 0;
    while k < chars.len()
        invariant
            chars@ == normalized@,
            k <= chars@.len(),
            result@ == escape_upto(chars@, k as int),
        decreases chars@.len() - k,
    {
        let ch = chars[k];
        let list_prefix = k == 0 && (ch == '-' || ch == '+') && chars.len() > 1 && is_whitespace(chars[1]);
        if ch == '\n' {
            push_str(&mut result, "#linebreak()");
        } else if ch == '\r' {
        } else if is_markup(ch) || list_prefix {
            push_char(&mut result, '\\');
            push_char(&mut result, ch);
        } else {
            push_char(&mut result, ch);
        }
        assert(result@ =~= escape_upto(chars@, k as int) + escaped_char_at(chars@, k as int));
        k = k + 1;
    }
    result
}

/// Escape `text` for Typst markup (see `escape_typst_spec`).
pub fn escape_typst(text: &str) -> (escaped: String)
    ensures
        escaped@ == escape_typst_spec(text@),
{
    let normalized = nfc_normalize(text);
    escape_normalized_typst(normalized.as_str())
}

/// `param` appended to a comma-separated parameter list.
pub open spec fn param_text(first: bool, param: Seq<char>) -> Seq<char> {
    if first { param } else { ", "@ + param }
}

/// Append one parameter to a Typst argument list, with a comma separator
/// unless it is the first.
pub fn write_param(out: &mut String, first: &mut bool, param: &str)
    ensures
        final(out)@ == old(out)@ + param_text(*old(first), param@),
        *final(first) == false,
{
    let ghost start = out@;
    if !*first {
        push_str(out, ", ");
    }
    push_str(out, param);
    *first = false;
    assert(out@ =~= start + param_text(*old(first), param@));
}

/// `fill: rgb(r, g, b)`.
pub open spec fn color_text(color: Color) -> Seq<char> {
    "fill: "@ + rgb_text(color)
}

/// `rgb(r, g, b)`.
pub open spec fn rgb_text(color: Color) -> Seq<char> {
    "rgb("@ + nat_digits(color.r as nat) + ", "@ + nat_digits(color.g as nat) + ", "@
        + nat_digits(color.b as nat) + ")"@
}

/// `rgb(r, g, b)` appended to `out`.
fn push_rgb(out: &mut String, color: &Color)
    ensures
        final(out)@ == old(out)@ + rgb_text(*color),
{
    let ghost start = out@;
    push_str(out, "rgb(");
    push_u64(out, color.r as u64);
    push_str(out, ", ");
    push_u64(out, color.g as u64);
    push_str(out, ", ");
    push_u64(out, color.b as u64);
    push_str(out, ")");
    assert(out@ =~= start + rgb_text(*color));
}

/// The Typst fill parameter of a color.
pub fn format_color(color: &Color) -> (text: String)
    ensures
        text@ == color_text(*color),
{
    let mut text = String::new();
    push_str(&mut text, "fill: ");
    push_rgb(&mut text, color);
    assert(text@ =~= color_text(*color));
    text
}

/// Whether a style needs a `#text(...)` wrapper.
pub open spec fn has_text_properties_spec(style: TextStyle) -> bool {
    style.bold == Some(true) || style.italic == Some(true) || style.font_size is Some || style.color is Some
        || style.font_family is Some || style.letter_spacing is Some
}

pub fn has_text_properties(style: &TextStyle) -> (b: bool)
    ensures
        b == has_text_properties_spec(*style),
{
    matches!(style.bold, Some(true)) || matches!(style.italic, Some(true)) || style.font_size.is_some()
        || style.color.is_some() || style.font_family.is_some() || style.letter_spacing.is_some()
}

/// ASCII letters lowered, everything else kept (`to_ascii_lowercase`).
pub open spec fn ascii_lower(s: Seq<char>) -> Seq<char> {
    s.map_values(|c: char| lower_ascii_char(c))
}

/// The lowercase form of an ASCII capital, any other character unchanged.
pub open spec fn lower_ascii_char(c: char) -> char {
    if 'A' <= c && c <= 'Z' { (((c as u8) + 32) as u8) as char } else { c }
}

pub(crate) fn lower_char(c: char) -> (l: char)
    ensures
        l == lower_ascii_char(c),
{
    if 'A' <= c && c <= 'Z' { ((c as u8) + 32) as char } else { c }
}

/// `needle` occurs in `hay`.
pub open spec fn contains_seq(hay: Seq<char>, needle: Seq<char>) -> bool {
    exists|i: int| 0 <= i && i + needle.len() <= hay.len() && #[trigger] hay.subrange(i, i + needle.len()) == needle
}

/// Whether `needle` occurs in `hay`.
pub fn chars_contain(hay: &Vec<char>, needle: &str) -> (found: bool)
    ensures
        found == contains_seq(hay@, needle@),
{
    let nc = chars_of(needle);
    if nc.len() == 0 {
        assert(hay@.subrange(0int, 0int + needle@.len()) =~= needle@);
        return true;
    }
    if nc.len() > hay.len() {
        return false;
    }
    let last = hay.len() - nc.len();
    let mut i: usize = 0;
    while i <= last
        invariant
            nc@ == needle@,
            last + nc@.len() == hay@.len(),
            i <= last + 1,
            forall|j: int| 0 <= j < i ==> #[trigger] hay@.subrange(j, j + nc@.len()) != nc@,
        decreases last + 1 - i,
    {
        let mut k: usize = 0;
        let mut matched = true;
        while k < nc.len()
            invariant
                nc@ == needle@,
                i <= last,
                last + nc@.len() == hay@.len(),
                hay@.len() == hay.len(),
                k <= nc@.len(),
                matched == (forall|m: int| 0 <= m < k ==> hay@[i + m] == nc@[m]),
            decreases nc@.len() - k,
        {
            if hay[i + k] != nc[k] {
                matched = false;
            }
            k = k + 1;
        }
        if matched {
            assert(hay@.subrange(i as int, i + nc@.len()) =~= nc@);
            return true;
        }
        assert(hay@.subrange(i as int, i + nc@.len())[(choose|m: int| 0 <= m < nc@.len() && hay@[i + m] != nc@[m])] != nc@[(choose|m: int| 0 <= m < nc@.len() && hay@[i + m] != nc@[m])]);
        i = i + 1;
    }
    false
}

/// The font weight a family name announces (e.g. "Segoe UI Semibold").
pub open spec fn inferred_weight(font_family: Seq<char>) -> Option<Seq<char>> {
    let lower = ascii_lower(trim_spec(font_family));
    if contains_seq(lower, "extrabold"@) || contains_seq(lower, "extra bold"@) {
        Some("extrabold"@)
    } else if contains_seq(lower, "semibold"@) || contains_seq(lower, "semi bold"@) {
        Some("semibold"@)
    } else if contains_seq(lower, "medium"@) {
        Some("medium"@)
    } else if contains_seq(lower, "light"@) {
        Some("light"@)
    } else {
        None
    }
}

pub fn inferred_font_weight(font_family: &str) -> (weight: Option<&'static str>)
    ensures
        match weight {
            Some(w) => inferred_weight(font_family@) == Some(w@),
            None => inferred_weight(font_family@) is None,
        },
{
    let trimmed = trimmed_chars(font_family);
    let mut lower: Vec<char> = Vec::new();
    let mut i: usize = 0;
    while i < trimmed.len()
        invariant
            i <= trimmed@.len(),
            lower@ == ascii_lower(trimmed@.take(i as int)),
        decreases trimmed@.len() - i,
    {
        let c = trimmed[i];
        let l = lower_char(c);
        lower.push(l);
        i = i + 1;
        assert(lower@ =~= ascii_lower(trimmed@.take(i as int)));
    }
    assert(trimmed@.take(trimmed@.len() as int) =~= trimmed@);
    if chars_contain(&lower, "extrabold") || chars_contain(&lower, "extra bold") {
        Some("extrabold")
    } else if chars_contain(&lower, "semibold") || chars_contain(&lower, "semi bold") {
        Some("semibold")
    } else if chars_contain(&lower, "medium") {
        Some("medium")
    } else if chars_contain(&lower, "light") {
        Some("light")
    } else {
        None
    }
}

/// How heavy a Typst weight name is (0 for unknown names).
pub open spec fn weight_rank(weight: Seq<char>) -> u8 {
    if weight == "light"@ {
        1
    } else if weight == "medium"@ {
        2
    } else if weight == "semibold"@ {
        3
    } else if weight == "bold"@ {
        4
    } else if weight == "extrabold"@ {
        5
    } else if weight == "black"@ {
        6
    } else {
        0
    }
}

pub fn font_weight_rank(weight: &str) -> (rank: u8)
    ensures
        rank == weight_rank(weight@),
{
    if str_eq(weight, "light") {
        1
    } else if str_eq(weight, "medium") {
        2
    } else if str_eq(weight, "semibold") {
        3
    } else if str_eq(weight, "bold") {
        4
    } else if str_eq(weight, "extrabold") {
        5
    } else if str_eq(weight, "black") {
        6
    } else {
        0
    }
}

/// What font substitution decided for one font family: the Typst font value
/// to use (the family with its fallbacks) and whether the family itself is
/// installed.
pub struct FontChoice {
    pub family: String,
    pub value: String,
    pub primary_available: bool,
}

/// Font substitution decisions for the families a document uses.
pub struct FontTable {
    pub entries: Vec<FontChoice>,
}

/// The first choice at or after `i` made for `family`.
pub open spec fn first_choice(entries: Seq<FontChoice>, family: Seq<char>, i: int) -> Option<FontChoice>
    decreases entries.len() - i,
{
    if i < 0 || i >= entries.len() {
        None
    } else if entries[i].family@ == family {
        Some(entries[i])
    } else {
        first_choice(entries, family, i + 1)
    }
}

impl FontTable {
    pub open spec fn choice(&self, family: Seq<char>) -> Option<FontChoice> {
        first_choice(self.entries@, family, 0)
    }

    /// The table has a decision for the family of `style`, if it names one.
    pub open spec fn covers(&self, style: TextStyle) -> bool {
        style.font_family matches Some(f) ==> self.choice(f@) is Some
    }

    /// The decision made for `family`.
    pub fn lookup(&self, family: &str) -> (choice: Option<&FontChoice>)
        ensures
            match choice {
                Some(c) => self.choice(family@) == Some(*c),
                None => self.choice(family@) is None,
            },
    {
        let mut i: usize = 0;
        while i < self.entries.len()
            invariant
                i <= self.entries@.len(),
                first_choice(self.entries@, family@, i as int) == self.choice(family@),
            decreases self.entries@.len() - i,
        {
            if str_eq(self.entries[i].family.as_str(), family) {
                return Some(&self.entries[i]);
            }
            i = i + 1;
        }
        None
    }
}

/// The weight a family name announces, when that family is installed.
pub open spec fn available_inferred_weight(style: TextStyle, fonts: FontTable) -> Option<Seq<char>> {
    match style.font_family {
        Some(f) => match fonts.choice(f@) {
            Some(c) => if c.primary_available { inferred_weight(f@) } else { None },
            None => None,
        },
        None => None,
    }
}

/// The weight a run is drawn with: the heavier of explicit bold and the
/// weight an installed family's name announces.
pub open spec fn effective_weight(style: TextStyle, fonts: FontTable) -> Option<Seq<char>> {
    let explicit: Option<Seq<char>> = if style.bold == Some(true) { Some("bold"@) } else { None };
    match (explicit, available_inferred_weight(style, fonts)) {
        (Some(e), Some(i)) => if weight_rank(e) >= weight_rank(i) { Some(e) } else { Some(i) },
        (Some(e), None) => Some(e),
        (None, Some(i)) => Some(i),
        (None, None) => None,
    }
}

pub fn effective_font_weight(style: &TextStyle, fonts: &FontTable) -> (weight: Option<&'static str>)
    ensures
        match weight {
            Some(w) => effective_weight(*style, *fonts) == Some(w@),
            None => effective_weight(*style, *fonts) is None,
        },
{
    let inferred: Option<&'static str> = match &style.font_family {
        Some(family) => match fonts.lookup(family.as_str()) {
            Some(choice) => if choice.primary_available { inferred_font_weight(family.as_str()) } else { None },
            None => None,
        },
        None => None,
    };
    let explicit: Option<&'static str> = if matches!(style.bold, Some(true)) { Some("bold") } else { None };
    match (explicit, inferred) {
        (Some(explicit), Some(inferred)) => {
            if font_weight_rank(explicit) >= font_weight_rank(inferred) {
                Some(explicit)
            } else {
                Some(inferred)
            }
        },
        (Some(explicit), None) => Some(explicit),
        (None, Some(inferred)) => Some(inferred),
        (None, None) => None,
    }
}

/// A comma-separated parameter list.
pub open spec fn join_params(params: Seq<Seq<char>>, first: bool) -> Seq<char>
    decreases params.len(),
{
    if params.len() == 0 { Seq::empty() } else { param_text(first, params[0]) + join_params(params.drop_first(), false) }
}

proof fn lemma_join_params_push(params: Seq<Seq<char>>, first: bool, p: Seq<char>)
    ensures
        join_params(params.push(p), first) == join_params(params, first) + param_text(first && params.len() == 0, p),
    decreases params.len(),
{
    if params.len() == 0 {
        assert(params.push(p).drop_first() =~= Seq::<Seq<char>>::empty());
        assert(params.push(p)[0] == p);
        assert(join_params(Seq::<Seq<char>>::empty(), false) == Seq::<char>::empty());
        assert(join_params(params.push(p), first) =~= param_text(first, p));
        assert(join_params(params, first) == Seq::<char>::empty());
    } else {
        assert(params.push(p).drop_first() =~= params.drop_first().push(p));
        lemma_join_params_push(params.drop_first(), false, p);
    }
}

/// `[p]` when present, else nothing.
pub open spec fn opt_param(p: Option<Seq<char>>) -> Seq<Seq<char>> {
    match p {
        Some(p) => seq![p],
        None => Seq::empty(),
    }
}

/// The `#text(...)` parameters of a style, in order: font, size, weight,
/// style, fill and tracking.
pub open spec fn text_param_list(style: TextStyle, fonts: FontTable) -> Seq<Seq<char>> {
    opt_param(match style.font_family {
        Some(f) => Some("font: "@ + fonts.choice(f@)->0.value@),
        None => None,
    }) + opt_param(match style.font_size {
        Some(d) => Some("size: "@ + decimal_text(d) + "pt"@),
        None => None,
    }) + opt_param(match effective_weight(style, fonts) {
        Some(w) => Some("weight: \""@ + w + "\""@),
        None => None,
    }) + opt_param(if style.italic == Some(true) { Some("style: \"italic\""@) } else { None })
        + opt_param(match style.color {
        Some(c) => Some(color_text(c)),
        None => None,
    }) + opt_param(match style.letter_spacing {
        Some(d) => Some("tracking: "@ + decimal_text(d) + "pt"@),
        None => None,
    })
}

/// The characters of an optional string.
pub open spec fn opt_view(s: &Option<String>) -> Option<Seq<char>> {
    match s {
        Some(p) => Some(p@),
        None => None,
    }
}

/// Appends `param` to the list when present, tracking the list so far.
fn write_opt_param(out: &mut String, first: &mut bool, param: Option<String>, Ghost(done): Ghost<Seq<Seq<char>>>, Ghost(start): Ghost<Seq<char>>)
    requires
        old(out)@ == start + join_params(done, true),
        *old(first) == (done.len() == 0),
    ensures
        final(out)@ == start + join_params(done + opt_param(opt_view(&param)), true),
        *final(first) == ((done + opt_param(opt_view(&param))).len() == 0),
{
    match param {
        Some(p) => {
            proof {
                lemma_join_params_push(done, true, p@);
                assert(done + opt_param(Some(p@)) =~= done.push(p@));
            }
            write_param(out, first, p.as_str());
        },
        None => {
            assert(done + opt_param(None) =~= done);
        },
    }
}

/// `prefix`, the decimal and `pt`.
fn points_param(prefix: &str, d: Decimal) -> (p: String)
    ensures
        p@ == prefix@ + decimal_text(d) + "pt"@,
{
    let mut p = String::new();
    push_str(&mut p, prefix);
    format_decimal(&mut p, d);
    push_str(&mut p, "pt");
    p
}

/// Write the `#text(...)` parameters of a style (see `text_param_list`).
pub fn write_text_params(out: &mut String, style: &TextStyle, fonts: &FontTable)
    requires
        fonts.covers(*style),
    ensures
        final(out)@ == old(out)@ + join_params(text_param_list(*style, *fonts), true),
{
    let ghost start = out@;
    let mut first = true;
    let ghost mut done: Seq<Seq<char>> = Seq::empty();
    assert(out@ =~= start + join_params(done, true));
    let font: Option<String> = match &style.font_family {
        Some(family) => match fonts.lookup(family.as_str()) {
            Some(choice) => {
                let mut p = String::new();
                push_str(&mut p, "font: ");
                push_str(&mut p, choice.value.as_str());
                Some(p)
            },
            None => None,
        },
        None => None,
    };
    let ghost font_v = opt_view(&font);
    write_opt_param(out, &mut first, font, Ghost(done), Ghost(start));
    proof { done = done + opt_param(font_v); }
    let size: Option<String> = match style.font_size {
        Some(d) => Some(points_param("size: ", d)),
        None => None,
    };
    let ghost size_v = opt_view(&size);
    write_opt_param(out, &mut first, size, Ghost(done), Ghost(start));
    proof { done = done + opt_param(size_v); }
    let weight: Option<String> = match effective_font_weight(style, fonts) {
        Some(w) => {
            let mut p = String::new();
            push_str(&mut p, "weight: \"");
            push_str(&mut p, w);
            push_str(&mut p, "\"");
            Some(p)
        },
        None => None,
    };
    let ghost weight_v = opt_view(&weight);
    write_opt_param(out, &mut first, weight, Ghost(done), Ghost(start));
    proof { done = done + opt_param(weight_v); }
    let italic: Option<String> = if matches!(style.italic, Some(true)) {
        let mut p = String::new();
        push_str(&mut p, "style: \"italic\"");
        Some(p)
    } else {
        None
    };
    let ghost italic_v = opt_view(&italic);
    write_opt_param(out, &mut first, italic, Ghost(done), Ghost(start));
    proof { done = done + opt_param(italic_v); }
    let fill: Option<String> = match &style.color {
        Some(c) => Some(format_color(c)),
        None => None,
    };
    let ghost fill_v = opt_view(&fill);
    write_opt_param(out, &mut first, fill, Ghost(done), Ghost(start));
    proof { done = done + opt_param(fill_v); }
    let tracking: Option<String> = match style.letter_spacing {
        Some(d) => Some(points_param("tracking: ", d)),
        None => None,
    };
    let ghost tracking_v = opt_view(&tracking);
    write_opt_param(out, &mut first, tracking, Ghost(done), Ghost(start));
    proof {
        done = done + opt_param(tracking_v);
        assert(done =~= text_param_list(*style, *fonts));
    }
}

/// The run-break character PPTX uses for soft line breaks (vertical tab).
pub const SOFT_LINE_BREAK_CHAR: char = '\u{b}';

/// Full Unicode uppercase mapping of a character sequence.
pub uninterp spec fn uppercase_of(s: Seq<char>) -> Seq<char>;

/// An owned copy of a string slice.
pub fn copy_str(text: &str) -> (s: String)
    ensures
        s@ == text@,
{
    let mut s = String::new();
    push_str(&mut s, text);
    s
}

/// `str::to_uppercase`; the contract only names the result.
#[verifier::external_body]
fn to_uppercase(text: &str) -> (upper: String)
    ensures
        upper@ == uppercase_of(text@),
{
    text.to_uppercase()
}

/// `[p]` when `cond` holds, else nothing.
pub open spec fn opt_piece(cond: bool, p: Seq<char>) -> Seq<Seq<char>> {
    if cond { seq![p] } else { Seq::empty() }
}

/// The `#command[` openers wrapping a run's content, outermost first: link,
/// highlight, strike, underline, super/subscript, small caps.
pub open spec fn wrappers_spec(run: RunView) -> Seq<Seq<char>> {
    let style = run.style;
    opt_piece(run.href is Some, "#link(\""@ + run.href->0 + "\")["@)
        + opt_piece(style.highlight is Some, "#highlight("@ + color_text(style.highlight->0) + ")["@)
        + opt_piece(style.strikethrough == Some(true), "#strike["@)
        + opt_piece(style.underline == Some(true), "#underline["@)
        + opt_piece(style.vertical_align == Some(crate::ir::VerticalTextAlign::Superscript), "#super["@)
        + opt_piece(style.vertical_align == Some(crate::ir::VerticalTextAlign::Subscript), "#sub["@)
        + opt_piece(style.small_caps == Some(true), "#smallcaps["@)
}

proof fn lemma_contains_opt_piece(a: Seq<Seq<char>>, cond: bool, p: Seq<char>, x: Seq<char>)
    ensures
        (a + opt_piece(cond, p)).contains(x) <==> (a.contains(x) || (cond && p == x)),
{
    if cond {
        assert(a + opt_piece(cond, p) =~= a.push(p));
        if a.push(p).contains(x) && !a.contains(x) {
            let k = choose|k: int| 0 <= k < a.push(p).len() && a.push(p)[k] == x;
            if k < a.len() {
                assert(a[k] == x);
            }
        }
        if a.contains(x) {
            let k = choose|k: int| 0 <= k < a.len() && a[k] == x;
            assert(a.push(p)[k] == x);
        }
        if p == x {
            assert(a.push(p)[a.len() as int] == x);
        }
    } else {
        assert(a + opt_piece(cond, p) =~= a);
    }
}

/// A run is wrapped in `#sub[` exactly when it is subscript, and in `#super[`
/// exactly when it is superscript; no other wrapper is either of them.
pub proof fn law_vertical_align_wrappers(run: RunView)
    ensures
        wrappers_spec(run).contains("#sub["@) <==> run.style.vertical_align == Some(crate::ir::VerticalTextAlign::Subscript),
        wrappers_spec(run).contains("#super["@) <==> run.style.vertical_align == Some(crate::ir::VerticalTextAlign::Superscript),
{
    reveal_strlit("#sub[");
    reveal_strlit("#super[");
    reveal_strlit("#link(\"");
    reveal_strlit("\")[");
    reveal_strlit("#highlight(");
    reveal_strlit(")[");
    reveal_strlit("#strike[");
    reveal_strlit("#underline[");
    reveal_strlit("#smallcaps[");
    let style = run.style;
    let p1 = "#link(\""@ + run.href->0 + "\")["@;
    let p2 = "#highlight("@ + color_text(style.highlight->0) + ")["@;
    let c1 = run.href is Some;
    let c2 = style.highlight is Some;
    let c3 = style.strikethrough == Some(true);
    let c4 = style.underline == Some(true);
    let c5 = style.vertical_align == Some(crate::ir::VerticalTextAlign::Superscript);
    let c6 = style.vertical_align == Some(crate::ir::VerticalTextAlign::Subscript);
    let c7 = style.small_caps == Some(true);
    let s0 = Seq::<Seq<char>>::empty();
    let s1 = s0 + opt_piece(c1, p1);
    let s2 = s1 + opt_piece(c2, p2);
    let s3 = s2 + opt_piece(c3, "#strike["@);
    let s4 = s3 + opt_piece(c4, "#underline["@);
    let s5 = s4 + opt_piece(c5, "#super["@);
    let s6 = s5 + opt_piece(c6, "#sub["@);
    let s7 = s6 + opt_piece(c7, "#smallcaps["@);
    assert(s1 =~= opt_piece(c1, p1));
    assert(s7 == wrappers_spec(run));
    assert(p1.len() >= 10);
    assert(p2.len() >= 13);
    assert(!s0.contains("#sub["@) && !s0.contains("#super["@));
    let x = "#sub["@;
    let y = "#super["@;
    assert(x.len() == 5 && y.len() == 7);
    assert(p1 != x && p1 != y);
    assert(p2 != x && p2 != y);
    assert("#strike["@ != x && "#strike["@ != y);
    assert("#underline["@ != x && "#underline["@ != y);
    assert("#smallcaps["@ != x && "#smallcaps["@ != y);
    assert(x != y);
    lemma_contains_opt_piece(s0, c1, p1, x);
    lemma_contains_opt_piece(s1, c2, p2, x);
    lemma_contains_opt_piece(s2, c3, "#strike["@, x);
    lemma_contains_opt_piece(s3, c4, "#underline["@, x);
    lemma_contains_opt_piece(s4, c5, "#super["@, x);
    lemma_contains_opt_piece(s5, c6, "#sub["@, x);
    lemma_contains_opt_piece(s6, c7, "#smallcaps["@, x);
    lemma_contains_opt_piece(s0, c1, p1, y);
    lemma_contains_opt_piece(s1, c2, p2, y);
    lemma_contains_opt_piece(s2, c3, "#strike["@, y);
    lemma_contains_opt_piece(s3, c4, "#underline["@, y);
    lemma_contains_opt_piece(s4, c5, "#super["@, y);
    lemma_contains_opt_piece(s5, c6, "#sub["@, y);
    lemma_contains_opt_piece(s6, c7, "#smallcaps["@, y);
}

fn push_piece(wrappers: &mut Vec<String>, cond: bool, piece: String)
    ensures
        final(wrappers)@.map_values(|w: String| w@) == old(wrappers)@.map_values(|w: String| w@) + opt_piece(cond, piece@),
{
    let ghost before = wrappers@;
    if cond {
        wrappers.push(piece);
        assert(wrappers@.map_values(|w: String| w@) =~= before.map_values(|w: String| w@) + seq![piece@]);
    } else {
        assert(wrappers@.map_values(|w: String| w@) =~= before.map_values(|w: String| w@) + Seq::<Seq<char>>::empty());
    }
}

fn literal(text: &str) -> (s: String)
    ensures
        s@ == text@,
{
    let mut s = String::new();
    push_str(&mut s, text);
    s
}

/// The ordered `#command[` openers of a run (see `wrappers_spec`).
pub fn collect_formatting_wrappers(run: &Run) -> (wrappers: Vec<String>)
    ensures
        wrappers@.map_values(|w: String| w@) == wrappers_spec(run@),
{
    let style = &run.style;
    let mut wrappers: Vec<String> = Vec::new();
    assert(wrappers@.map_values(|w: String| w@) =~= Seq::<Seq<char>>::empty());
    let link = match &run.href {
        Some(href) => {
            let mut p = String::new();
            push_str(&mut p, "#link(\"");
            push_str(&mut p, href.as_str());
            push_str(&mut p, "\")[");
            p
        },
        None => String::new(),
    };
    push_piece(&mut wrappers, run.href.is_some(), link);
    let highlight = match &style.highlight {
        Some(color) => {
            let mut p = String::new();
            push_str(&mut p, "#highlight(");
            let fill = format_color(color);
            push_str(&mut p, fill.as_str());
            push_str(&mut p, ")[");
            p
        },
        None => String::new(),
    };
    push_piece(&mut wrappers, style.highlight.is_some(), highlight);
    push_piece(&mut wrappers, matches!(style.strikethrough, Some(true)), literal("#strike["));
    push_piece(&mut wrappers, matches!(style.underline, Some(true)), literal("#underline["));
    push_piece(&mut wrappers, matches!(style.vertical_align, Some(crate::ir::VerticalTextAlign::Superscript)), literal("#super["));
    push_piece(&mut wrappers, matches!(style.vertical_align, Some(crate::ir::VerticalTextAlign::Subscript)), literal("#sub["));
    push_piece(&mut wrappers, matches!(style.small_caps, Some(true)), literal("#smallcaps["));
    assert(wrappers@.map_values(|w: String| w@) =~= wrappers_spec(run@));
    wrappers
}

/// `out` after writing a run's innermost content: `#text(params)[escaped]`
/// for styled text, otherwise the escaped text, wrapped in `#[...]` when it
/// would otherwise continue a preceding `]` as call arguments.
pub open spec fn after_content(out: Seq<char>, escaped: Seq<char>, style: TextStyle, fonts: FontTable) -> Seq<char> {
    if has_text_properties_spec(style) {
        out + "#text("@ + join_params(text_param_list(style, fonts), true) + ")["@ + escaped + seq![']']
    } else if escaped.len() > 0 && seq_ends_with(out, seq![']']) && !seq_ends_with(out, seq!['\\', ']'])
        && (escaped[0] == '(' || escaped[0] == '.' || escaped[0] == '[') {
        out + "#["@ + escaped + seq![']']
    } else {
        out + escaped
    }
}

pub fn write_run_content(out: &mut String, escaped: &str, style: &TextStyle, fonts: &FontTable)
    requires
        fonts.covers(*style),
    ensures
        final(out)@ == after_content(old(out)@, escaped@, *style, *fonts),
{
    let ghost start = out@;
    if has_text_properties(style) {
        push_str(out, "#text(");
        write_text_params(out, style, fonts);
        push_str(out, ")[");
        push_str(out, escaped);
        push_char(out, ']');
        assert(out@ =~= after_content(start, escaped@, *style, *fonts));
        return;
    }
    let chars = chars_of(escaped);
    let needs_safety_wrap: bool = chars.len() > 0 && str_ends_with(out.as_str(), "]")
        && !str_ends_with(out.as_str(), "\\]") && (chars[0] == '(' || chars[0] == '.' || chars[0] == '[');
    proof {
        reveal_strlit("]");
        reveal_strlit("\\]");
        assert("]"@ =~= seq![']']);
        assert("\\]"@ =~= seq!['\\', ']']);
    }
    if needs_safety_wrap {
        push_str(out, "#[");
        push_str(out, escaped);
        push_char(out, ']');
        assert(out@ =~= after_content(start, escaped@, *style, *fonts));
    } else {
        push_str(out, escaped);
    }
}

/// `n` closing brackets.
pub open spec fn closers(n: nat) -> Seq<char> {
    Seq::new(n, |i: int| ']')
}

/// All openers of a list, concatenated.
pub open spec fn concat_all(ss: Seq<Seq<char>>) -> Seq<char>
    decreases ss.len(),
{
    if ss.len() == 0 { Seq::empty() } else { concat_all(ss.drop_last()) + ss.last() }
}

/// The escaped text of a run segment, uppercased first for all-caps runs.
pub open spec fn segment_escaped(run: RunView, text: Seq<char>) -> Seq<char> {
    if run.style.all_caps == Some(true) { escape_typst_spec(uppercase_of(text)) } else { escape_typst_spec(text) }
}

/// `out` after writing `text` with the formatting of `run`.
pub open spec fn after_segment(out: Seq<char>, run: RunView, text: Seq<char>, fonts: FontTable) -> Seq<char> {
    after_escaped_segment(out, run, segment_escaped(run, text), fonts)
}

/// `out` after writing markup `escaped` inside the formatting wrappers of `run`.
pub open spec fn after_escaped_segment(out: Seq<char>, run: RunView, escaped: Seq<char>, fonts: FontTable) -> Seq<char> {
    let wrappers = wrappers_spec(run);
    after_content(out + concat_all(wrappers), escaped, run.style, fonts) + closers(wrappers.len())
}

/// Writes markup that is already escaped inside the formatting wrappers of `run`.
pub fn write_escaped_run_segment(out: &mut String, run: &Run, escaped: &str, fonts: &FontTable)
    requires
        fonts.covers(run.style),
    ensures
        final(out)@ == after_escaped_segment(old(out)@, run@, escaped@, *fonts),
{
    let ghost start = out@;
    let wrappers: Vec<String> = collect_formatting_wrappers(run);
    let ghost ws = wrappers@.map_values(|w: String| w@);
    let mut i: usize = 0;
    while i < wrappers.len()
        invariant
            ws == wrappers@.map_values(|w: String| w@),
            i <= wrappers@.len(),
            out@ == start + concat_all(ws.take(i as int)),
        decreases wrappers@.len() - i,
    {
        push_str(out, wrappers[i].as_str());
        i = i + 1;
        assert(ws.take(i as int).drop_last() =~= ws.take(i - 1));
    }
    assert(ws.take(ws.len() as int) =~= ws);
    write_run_content(out, escaped, &run.style, fonts);
    let ghost mid = out@;
    let mut j: usize = 0;
    while j < wrappers.len()
        invariant
            j <= wrappers@.len(),
            out@ == mid + closers(j as nat),
        decreases wrappers@.len() - j,
    {
        push_char(out, ']');
        j = j + 1;
        assert(out@ =~= mid + closers(j as nat));
    }
}

/// Writes `text` with the formatting of `run`, uppercased first for an
/// all-caps run.
pub fn write_run_segment(out: &mut String, run: &Run, text: &str, fonts: &FontTable)
    requires
        fonts.covers(run.style),
    ensures
        final(out)@ == after_segment(old(out)@, run@, text@, *fonts),
{
    let escaped: String = if matches!(run.style.all_caps, Some(true)) {
        let upper = to_uppercase(text);
        escape_typst(upper.as_str())
    } else {
        escape_typst(text)
    };
    write_escaped_run_segment(out, run, escaped.as_str(), fonts);
}

/// `out` after writing the text of `run` from index `i` on, when the
/// current segment started at `seg_start`: every soft line break becomes
/// `#linebreak()` and every non-empty stretch between them a segment.
pub open spec fn soft_breaks_from(out: Seq<char>, run: RunView, t: Seq<char>, i: int, seg_start: int, fonts: FontTable) -> Seq<char>
    decreases t.len() - i,
{
    if i < 0 || i >= t.len() {
        if 0 <= seg_start < t.len() { after_segment(out, run, t.subrange(seg_start, t.len() as int), fonts) } else { out }
    } else if t[i] == SOFT_LINE_BREAK_CHAR {
        let flushed = if 0 <= seg_start < i { after_segment(out, run, t.subrange(seg_start, i), fonts) } else { out };
        soft_breaks_from(flushed + "#linebreak()"@, run, t, i + 1, i + 1, fonts)
    } else {
        soft_breaks_from(out, run, t, i + 1, seg_start, fonts)
    }
}

pub open spec fn after_soft_breaks(out: Seq<char>, run: RunView, fonts: FontTable) -> Seq<char> {
    soft_breaks_from(out, run, run.text, 0, 0, fonts)
}

fn write_run_with_soft_line_breaks(out: &mut String, run: &Run, fonts: &FontTable)
    requires
        fonts.covers(run.style),
    ensures
        final(out)@ == after_soft_breaks(old(out)@, run@, *fonts),
{
    let chars = chars_of(run.text.as_str());
    let ghost t = run.text@;
    let ghost goal = after_soft_breaks(old(out)@, run@, *fonts);
    let mut segment_start: usize = 0;
    let mut i: usize = 0;
    while i < chars.len()
        invariant
            chars@ == t,
            t == run.text@,
            fonts.covers(run.style),
            goal == after_soft_breaks(old(out)@, run@, *fonts),
            segment_start <= i <= chars@.len(),
            soft_breaks_from(out@, run@, t, i as int, segment_start as int, *fonts) == goal,
        decreases chars@.len() - i,
    {
        if chars[i] == SOFT_LINE_BREAK_CHAR {
            if segment_start < i {
                let segment = crate::text::string_from_chars(&chars, segment_start, i);
                write_run_segment(out, run, segment.as_str(), fonts);
            }
            push_str(out, "#linebreak()");
            segment_start = i + 1;
        }
        i = i + 1;
    }
    if segment_start < chars.len() {
        let segment = crate::text::string_from_chars(&chars, segment_start, chars.len());
        write_run_segment(out, run, segment.as_str(), fonts);
    }
}

/// Whether `s` contains `c`.
pub fn chars_have(s: &str, c: char) -> (found: bool)
    ensures
        found == s@.contains(c),
{
    let chars = chars_of(s);
    let mut i: usize = 0;
    while i < chars.len()
        invariant
            chars@ == s@,
            i <= chars@.len(),
            forall|k: int| 0 <= k < i ==> chars@[k] != c,
        decreases chars@.len() - i,
    {
        if chars[i] == c {
            assert(s@[i as int] == c);
            return true;
        }
        i = i + 1;
    }
    false
}

/// `out` after writing one run: a footnote reference, a run with soft line
/// breaks, or one formatted segment.
pub open spec fn after_run(out: Seq<char>, run: RunView, fonts: FontTable) -> Seq<char> {
    match run.footnote {
        Some(content) => out + "#footnote["@ + escape_typst_spec(content) + "]"@,
        None => if run.text.contains(SOFT_LINE_BREAK_CHAR) {
            after_soft_breaks(out, run, fonts)
        } else {
            after_segment(out, run, run.text, fonts)
        },
    }
}

pub fn generate_run(out: &mut String, run: &Run, fonts: &FontTable)
    requires
        fonts.covers(run.style),
    ensures
        final(out)@ == after_run(old(out)@, run@, *fonts),
{
    if let Some(content) = &run.footnote {
        let escaped_content = escape_typst(content.as_str());
        push_str(out, "#footnote[");
        push_str(out, escaped_content.as_str());
        push_str(out, "]");
        return;
    }
    if chars_have(run.text.as_str(), SOFT_LINE_BREAK_CHAR) {
        write_run_with_soft_line_breaks(out, run, fonts);
        return;
    }
    write_run_segment(out, run, run.text.as_str(), fonts);
}

/// The font table covers every run of `runs`.
pub open spec fn covers_runs(fonts: FontTable, runs: Seq<RunView>) -> bool {
    forall|k: int| 0 <= k < runs.len() ==> fonts.covers(#[trigger] runs[k].style)
}

/// `out` after writing the first `k` runs.
pub open spec fn after_runs(out: Seq<char>, runs: Seq<RunView>, k: int, fonts: FontTable) -> Seq<char>
    decreases k,
{
    if k <= 0 || k > runs.len() { out } else { after_run(after_runs(out, runs, k - 1, fonts), runs[k - 1], fonts) }
}

/// The views of a slice of runs.
pub open spec fn run_views(runs: Seq<Run>) -> Seq<RunView> {
    runs.map_values(|r: Run| r@)
}

pub fn generate_runs(out: &mut String, runs: &[Run], fonts: &FontTable)
    requires
        covers_runs(*fonts, run_views(runs@)),
    ensures
        final(out)@ == after_runs(old(out)@, run_views(runs@), runs@.len() as int, *fonts),
{
    let mut i: usize = 0;
    while i < runs.len()
        invariant
            covers_runs(*fonts, run_views(runs@)),
            i <= runs@.len(),
            out@ == after_runs(old(out)@, run_views(runs@), i as int, *fonts),
        decreases runs@.len() - i,
    {
        assert(run_views(runs@)[i as int] == runs@[i as int]@);
        assert(fonts.covers(run_views(runs@)[i as int].style));
        generate_run(out, &runs[i], fonts);
        i = i + 1;
    }
}

/// Whether any run's text holds a tab.
pub fn paragraph_contains_tabs(runs: &[Run]) -> (found: bool)
    ensures
        found == exists|k: int| 0 <= k < runs@.len() && (#[trigger] runs@[k]).text@.contains('\t'),
{
    let mut i: usize = 0;
    while i < runs.len()
        invariant
            i <= runs@.len(),
            forall|k: int| 0 <= k < i ==> !(#[trigger] runs@[k]).text@.contains('\t'),
        decreases runs@.len() - i,
    {
        if chars_have(runs[i].text.as_str(), '\t') {
            return true;
        }
        i = i + 1;
    }
    false
}

} // verus!
