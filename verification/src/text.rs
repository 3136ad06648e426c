//! Character-level helpers shared by the parsers and the renderer: strings as
//! character sequences, Unicode whitespace, ASCII digits and trimming.

use vstd::prelude::*;
use vstd::string::StringExecFns;
use vstd::utf8::{encode_scalar, encode_utf8};

verus! {

/// Appends one character to a `String` (`String::push`).
#[verifier::external_body]
pub fn push_char(s: &mut String, c: char)
    ensures
        final(s)@ == old(s)@.push(c),
{
    s.push(c);
}

/// Appends a string slice to a `String`.
pub fn push_str(s: &mut String, tail: &str)
    ensures
        final(s)@ == old(s)@ + tail@,
{
    s.append(tail);
}

/// The characters of a string slice.
pub fn chars_of(s: &str) -> (chars: Vec<char>)
    ensures
        chars@ == s@,
{
    let mut chars: Vec<char> = Vec::new();
    for c in it: s.chars()
        invariant
            chars@ == it.seq().take(it.index() as int),
            it.seq() == s@,
    {
        chars.push(c);
    }
    chars
}

/// A `String` holding the characters `chars[from..to]`.
pub fn string_from_chars(chars: &Vec<char>, from: usize, to: usize) -> (s: String)
    requires
        from <= to <= chars@.len(),
    ensures
        s@ == chars@.subrange(from as int, to as int),
{
    let mut s = String::new();
    let mut i = from;
    while i < to
        invariant
            from <= i <= to <= chars@.len(),
            s@ == chars@.subrange(from as int, i as int),
        decreases to - i,
    {
        push_char(&mut s, chars[i]);
        i = i + 1;
    }
    s
}

/// Unicode `White_Space`, the property `char::is_whitespace` reports.
pub open spec fn is_space_char(c: char) -> bool {
    ||| ('\u{9}' <= c && c <= '\u{d}')
    ||| c == ' '
    ||| c == '\u{85}'
    ||| c == '\u{a0}'
    ||| c == '\u{1680}'
    ||| ('\u{2000}' <= c && c <= '\u{200a}')
    ||| c == '\u{2028}'
    ||| c == '\u{2029}'
    ||| c == '\u{202f}'
    ||| c == '\u{205f}'
    ||| c == '\u{3000}'
}

pub fn is_whitespace(c: char) -> (b: bool)
    ensures
        b == is_space_char(c),
{
    ('\u{9}' <= c && c <= '\u{d}') || c == ' ' || c == '\u{85}' || c == '\u{a0}' || c == '\u{1680}'
        || ('\u{2000}' <= c && c <= '\u{200a}') || c == '\u{2028}' || c == '\u{2029}'
        || c == '\u{202f}' || c == '\u{205f}' || c == '\u{3000}'
}

pub open spec fn is_digit_char(c: char) -> bool {
    '0' <= c && c <= '9'
}

pub fn is_ascii_digit(c: char) -> (b: bool)
    ensures
        b == is_digit_char(c),
{
    '0' <= c && c <= '9'
}

/// The value of a run of decimal digits.
pub open spec fn digits_value(ds: Seq<char>) -> nat
    decreases ds.len(),
{
    if ds.len() == 0 { 0 } else { digits_value(ds.drop_last()) * 10 + ((ds.last() as nat) - ('0' as nat)) as nat }
}

/// Appending a digit shifts the value one decimal place.
pub proof fn lemma_digits_value_push(ds: Seq<char>, c: char)
    ensures
        digits_value(ds.push(c)) == digits_value(ds) * 10 + ((c as nat) - ('0' as nat)) as nat,
{
    assert(ds.push(c).drop_last() =~= ds);
}

/// A longer run of digits never has a smaller value.
pub proof fn lemma_digits_value_grows(t: Seq<char>, from: int, mid: int, to: int)
    requires
        0 <= from <= mid <= to <= t.len(),
        forall|k: int| from <= k < to ==> is_digit_char(#[trigger] t[k]),
    ensures
        digits_value(t.subrange(from, mid)) <= digits_value(t.subrange(from, to)),
    decreases to - mid,
{
    if mid < to {
        lemma_digits_value_grows(t, from, mid, to - 1);
        assert(t.subrange(from, to).drop_last() =~= t.subrange(from, to - 1));
        assert(t.subrange(from, to).last() == t[to - 1]);
        let v = digits_value(t.subrange(from, to - 1));
        assert(v * 10 >= v) by (nonlinear_arith);
    }
}

/// `s` without its leading whitespace.
pub open spec fn trim_start_spec(s: Seq<char>) -> Seq<char>
    decreases s.len(),
{
    if s.len() > 0 && is_space_char(s[0]) { trim_start_spec(s.drop_first()) } else { s }
}

/// `s` without its trailing whitespace.
pub open spec fn trim_end_spec(s: Seq<char>) -> Seq<char>
    decreases s.len(),
{
    if s.len() > 0 && is_space_char(s.last()) { trim_end_spec(s.drop_last()) } else { s }
}

/// `s` without leading and trailing whitespace (`str::trim`).
pub open spec fn trim_spec(s: Seq<char>) -> Seq<char> {
    trim_end_spec(trim_start_spec(s))
}

/// The characters of `s` with leading and trailing whitespace removed.
pub fn trimmed_chars(s: &str) -> (chars: Vec<char>)
    ensures
        chars@ == trim_spec(s@),
{
    let all = chars_of(s);
    let mut start: usize = 0;
    assert(all@.skip(0) =~= all@);
    while start < all.len() && is_whitespace(all[start])
        invariant
            start <= all@.len(),
            trim_start_spec(all@.skip(start as int)) == trim_start_spec(all@),
        decreases all@.len() - start,
    {
        assert(all@.skip(start as int).drop_first() =~= all@.skip(start + 1));
        start = start + 1;
    }
    assert(trim_start_spec(all@.skip(start as int)) == all@.skip(start as int));
    let mut end: usize = all.len();
    while end > start && is_whitespace(all[end - 1])
        invariant
            start <= end <= all@.len(),
            trim_end_spec(all@.subrange(start as int, end as int)) == trim_spec(all@),
        decreases end,
    {
        assert(all@.subrange(start as int, end as int).drop_last() =~= all@.subrange(start as int, end - 1));
        end = end - 1;
    }
    assert(all@.skip(start as int) =~= all@.subrange(start as int, all@.len() as int));
    let mut chars: Vec<char> = Vec::new();
    let mut i = start;
    while i < end
        invariant
            start <= i <= end <= all@.len(),
            chars@ == all@.subrange(start as int, i as int),
        decreases end - i,
    {
        chars.push(all[i]);
        i = i + 1;
    }
    chars
}

/// Whether two string slices hold the same characters.
pub fn str_eq(a: &str, b: &str) -> (eq: bool)
    ensures
        eq == (a@ == b@),
{
    let ac = chars_of(a);
    let bc = chars_of(b);
    if ac.len() != bc.len() {
        return false;
    }
    let mut i: usize = 0;
    while i < ac.len()
        invariant
            ac@ == a@,
            bc@ == b@,
            ac@.len() == bc@.len(),
            i <= ac@.len(),
            forall|k: int| 0 <= k < i ==> ac@[k] == bc@[k],
        decreases ac@.len() - i,
    {
        if ac[i] != bc[i] {
            return false;
        }
        i = i + 1;
    }
    assert(ac@ =~= bc@);
    true
}

/// Appends the characters of `tail` to `chars`.
pub fn extend_chars(chars: &mut Vec<char>, tail: &str)
    ensures
        final(chars)@ == old(chars)@ + tail@,
{
    let tc = chars_of(tail);
    let mut i: usize = 0;
    while i < tc.len()
        invariant
            tc@ == tail@,
            i <= tc@.len(),
            chars@ == old(chars)@ + tc@.take(i as int),
        decreases tc@.len() - i,
    {
        chars.push(tc[i]);
        i = i + 1;
    }
    assert(tc@.take(tc@.len() as int) =~= tc@);
}

/// The UTF-8 byte offset of character `k` of `s`.
pub open spec fn byte_offset(s: Seq<char>, k: int) -> nat {
    encode_utf8(s.take(k)).len()
}

proof fn lemma_encode_utf8_append(a: Seq<char>, b: Seq<char>)
    ensures
        encode_utf8(a + b) == encode_utf8(a) + encode_utf8(b),
    decreases a.len(),
{
    if a.len() == 0 {
        assert(a + b =~= b);
        assert(encode_utf8(a) =~= Seq::<u8>::empty());
        assert(encode_utf8(a) + encode_utf8(b) =~= encode_utf8(b));
    } else {
        assert((a + b).drop_first() =~= a.drop_first() + b);
        assert((a + b)[0] == a[0]);
        lemma_encode_utf8_append(a.drop_first(), b);
        assert(encode_utf8(a + b) =~= encode_utf8(a) + encode_utf8(b));
    }
}

/// The byte offset of character `k + 1` is that of `k` plus the width of
/// character `k`; offsets never exceed the encoded length.
pub proof fn lemma_byte_offset_step(s: Seq<char>, k: int)
    requires
        0 <= k < s.len(),
    ensures
        byte_offset(s, k + 1) == byte_offset(s, k) + encode_scalar(s[k] as u32).len(),
        byte_offset(s, k + 1) <= encode_utf8(s).len(),
{
    assert(s.take(k + 1) =~= s.take(k) + seq![s[k]]);
    lemma_encode_utf8_append(s.take(k), seq![s[k]]);
    assert(seq![s[k]].drop_first() =~= Seq::<char>::empty());
    assert(seq![s[k]][0] == s[k]);
    assert(encode_utf8(Seq::<char>::empty()) =~= Seq::<u8>::empty());
    assert(encode_utf8(seq![s[k]]) =~= encode_scalar(s[k] as u32) + encode_utf8(Seq::<char>::empty()));
    assert(encode_utf8(seq![s[k]]) =~= encode_scalar(s[k] as u32));
    assert(s =~= s.take(k + 1) + s.skip(k + 1));
    lemma_encode_utf8_append(s.take(k + 1), s.skip(k + 1));
}

/// Byte offsets grow strictly with the character index.
pub proof fn lemma_byte_offset_strict(s: Seq<char>, a: int, b: int)
    requires
        0 <= a < b <= s.len(),
    ensures
        byte_offset(s, a) < byte_offset(s, b),
    decreases b - a,
{
    lemma_byte_offset_step(s, b - 1);
    vstd::utf8::char_is_scalar(s[b - 1]);
    if a < b - 1 {
        lemma_byte_offset_strict(s, a, b - 1);
    }
}

/// The number of UTF-8 bytes of a character (`char::len_utf8`).
pub fn utf8_width(c: char) -> (w: usize)
    ensures
        w == encode_scalar(c as u32).len(),
        1 <= w <= 4,
{
    proof {
        vstd::utf8::char_is_scalar(c);
    }
    let v = c as u32;
    if v <= 0x7f {
        1
    } else if v <= 0x7ff {
        2
    } else if v <= 0xffff {
        3
    } else {
        4
    }
}

/// The byte offset of every character boundary of `s`, from 0 to `s.len()`.
pub fn byte_offsets(s: &str) -> (offsets: Vec<usize>)
    ensures
        offsets@.len() == s@.len() + 1,
        forall|k: int| 0 <= k <= s@.len() ==> #[trigger] offsets@[k] == byte_offset(s@, k),
{
    let chars = chars_of(s);
    let total = s.as_bytes().len();
    let mut offsets: Vec<usize> = Vec::new();
    let mut at: usize = 0;
    offsets.push(0);
    assert(encode_utf8(s@.take(0)) =~= Seq::<u8>::empty());
    let mut k: usize = 0;
    while k < chars.len()
        invariant
            chars@ == s@,
            total == encode_utf8(s@).len(),
            k <= chars@.len(),
            offsets@.len() == k + 1,
            at == byte_offset(s@, k as int),
            forall|j: int| 0 <= j <= k ==> #[trigger] offsets@[j] == byte_offset(s@, j),
        decreases chars@.len() - k,
    {
        proof {
            lemma_byte_offset_step(s@, k as int);
        }
        at = at + utf8_width(chars[k]);
        offsets.push(at);
        k = k + 1;
    }
    offsets
}

/// The value an optionally signed run of decimal digits denotes: the text
/// `str::parse` accepts for a signed integer, before its range is checked.
pub open spec fn numeral_value(s: Seq<char>) -> Option<int> {
    let negative = s.len() > 0 && s[0] == '-';
    let digits = unsigned_part(s);
    if digits.len() > 0 && all_digits(digits) {
        Some(if negative { -(digits_value(digits) as int) } else { digits_value(digits) as int })
    } else {
        None
    }
}

/// `s` without a leading `+` or `-`.
pub open spec fn unsigned_part(s: Seq<char>) -> Seq<char> {
    if s.len() > 0 && (s[0] == '-' || s[0] == '+') { s.drop_first() } else { s }
}

/// Every character of `s` is an ASCII digit.
pub open spec fn all_digits(s: Seq<char>) -> bool {
    forall|k: int| 0 <= k < s.len() ==> is_digit_char(#[trigger] s[k])
}

/// The `i64` that `str::parse::<i64>` reads from `s`, if any.
pub open spec fn parse_i64_spec(s: Seq<char>) -> Option<i64> {
    match numeral_value(s) {
        Some(v) => if i64::MIN <= v <= i64::MAX { Some(v as i64) } else { None },
        None => None,
    }
}

/// Parses a signed decimal integer: an optional `+` or `-`, then one or more
/// ASCII digits, nothing else, and a value that fits in `i64`.
pub fn parse_i64(s: &str) -> (value: Option<i64>)
    ensures
        value == parse_i64_spec(s@),
{
    let cs = chars_of(s);
    let n = cs.len();
    let negative = n > 0 && cs[0] == '-';
    let start: usize = if n > 0 && (cs[0] == '-' || cs[0] == '+') { 1 } else { 0 };
    let ghost digits = unsigned_part(s@);
    assert(digits =~= cs@.subrange(start as int, n as int));
    if start >= n {
        return None;
    }
    let limit: u64 = 0x8000_0000_0000_0000;
    let mut magnitude: u64 = 0;
    let mut i: usize = start;
    while i < n
        invariant
            cs@ == s@,
            n == cs@.len(),
            start <= i <= n,
            digits =~= cs@.subrange(start as int, n as int),
            forall|k: int| start <= k < i ==> is_digit_char(#[trigger] cs@[k]),
            magnitude == digits_value(cs@.subrange(start as int, i as int)),
            magnitude <= limit,
            limit == 0x8000_0000_0000_0000u64,
            digits == unsigned_part(s@),
            negative == (s@.len() > 0 && s@[0] == '-'),
        decreases n - i,
    {
        if !is_ascii_digit(cs[i]) {
            assert(digits[i - start] == cs@[i as int]);
            assert(!is_digit_char(digits[i - start]));
            assert(!all_digits(digits));
            return None;
        }
        let d: u64 = (cs[i] as u32 - '0' as u32) as u64;
        assert(d <= 9 && d == (cs@[i as int] as nat) - ('0' as nat));
        proof {
            lemma_digits_value_push(cs@.subrange(start as int, i as int), cs@[i as int]);
            assert(cs@.subrange(start as int, i as int).push(cs@[i as int]) =~= cs@.subrange(start as int, i + 1));
        }
        if magnitude > (limit - d) / 10 {
            proof {
                assert(magnitude * 10 + d > limit) by (nonlinear_arith)
                    requires magnitude > (limit - d) / 10, d <= 9, limit == 0x8000_0000_0000_0000u64;
                if all_digits(digits) {
                    assert forall|k: int| start <= k < n implies is_digit_char(#[trigger] cs@[k]) by {
                        assert(cs@[k] == digits[k - start]);
                    }
                    lemma_digits_value_grows(cs@, start as int, i + 1, n as int);
                    assert(digits_value(cs@.subrange(start as int, i + 1)) == magnitude * 10 + d);
                    assert(digits_value(digits) > limit);
                    if negative {
                        assert(numeral_value(s@) == Some(-(digits_value(digits) as int)));
                    } else {
                        assert(numeral_value(s@) == Some(digits_value(digits) as int));
                    }
                }
            }
            return None;
        }
        magnitude = magnitude * 10 + d;
        i = i + 1;
    }
    assert(cs@.subrange(start as int, n as int) =~= digits);
    assert forall|k: int| 0 <= k < digits.len() implies is_digit_char(#[trigger] digits[k]) by {
        assert(digits[k] == cs@[k + start]);
    }
    if negative {
        if magnitude == limit {
            Some(i64::MIN)
        } else {
            Some(-(magnitude as i64))
        }
    } else if magnitude > i64::MAX as u64 {
        None
    } else {
        Some(magnitude as i64)
    }
}

/// The value of an ASCII hexadecimal digit.
pub open spec fn hex_digit_value(c: char) -> Option<u8> {
    if '0' <= c && c <= '9' {
        Some((c as u32 - '0' as u32) as u8)
    } else if 'a' <= c && c <= 'f' {
        Some((c as u32 - 'a' as u32 + 10) as u8)
    } else if 'A' <= c && c <= 'F' {
        Some((c as u32 - 'A' as u32 + 10) as u8)
    } else {
        None
    }
}

pub fn hex_digit(c: char) -> (value: Option<u8>)
    ensures
        value == hex_digit_value(c),
{
    if '0' <= c && c <= '9' {
        Some((c as u32 - '0' as u32) as u8)
    } else if 'a' <= c && c <= 'f' {
        Some((c as u32 - 'a' as u32 + 10) as u8)
    } else if 'A' <= c && c <= 'F' {
        Some((c as u32 - 'A' as u32 + 10) as u8)
    } else {
        None
    }
}

/// `suffix` is a suffix of `s`.
pub open spec fn seq_ends_with(s: Seq<char>, suffix: Seq<char>) -> bool {
    suffix.len() <= s.len() && s.subrange(s.len() - suffix.len(), s.len() as int) == suffix
}

/// Whether `suffix` is a suffix of `s`.
pub fn str_ends_with(s: &str, suffix: &str) -> (b: bool)
    ensures
        b == seq_ends_with(s@, suffix@),
{
    let sc = chars_of(s);
    let tc = chars_of(suffix);
    if tc.len() > sc.len() {
        return false;
    }
    let slen = sc.len();
    let offset = slen - tc.len();
    let mut i: usize = 0;
    while i < tc.len()
        invariant
            sc@ == s@,
            tc@ == suffix@,
            slen == sc@.len(),
            offset + tc@.len() == slen,
            tc@.len() <= sc@.len(),
            i <= tc@.len(),
            forall|j: int| 0 <= j < i ==> sc@[offset + j] == tc@[j],
        decreases tc@.len() - i,
    {
        if sc[offset + i] != tc[i] {
            assert(s@.subrange(s@.len() - suffix@.len(), s@.len() as int)[i as int] != suffix@[i as int]);
            return false;
        }
        i = i + 1;
    }
    assert(s@.subrange(s@.len() - suffix@.len(), s@.len() as int) =~= suffix@);
    true
}

} // verus!
