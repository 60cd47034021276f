//! Scanning text: whitespace, words, lines and decimal numbers, over
//! sequences of characters.

use vstd::prelude::*;
use vstd::utf8::{decode_utf8, valid_utf8};

verus! {

/// Whether `c` has the Unicode property `White_Space`.
pub open spec fn is_space(c: char) -> bool {
    let u = c as u32;
    ||| 0x09 <= u <= 0x0D
    ||| u == 0x20
    ||| u == 0x85
    ||| u == 0xA0
    ||| u == 0x1680
    ||| 0x2000 <= u <= 0x200A
    ||| u == 0x2028
    ||| u == 0x2029
    ||| u == 0x202F
    ||| u == 0x205F
    ||| u == 0x3000
}

/// The least index `i >= from` with `s[i] == c`, or `s.len()` where there is none.
pub open spec fn find_char(s: Seq<char>, from: int, c: char) -> int
    decreases s.len() - from,
{
    if from >= s.len() {
        s.len() as int
    } else if from >= 0 && s[from] == c {
        from
    } else {
        find_char(s, from + 1, c)
    }
}

/// The least index `i >= from` at which `s` has whitespace (`space`) or has
/// none (`!space`), or `s.len()` where there is no such index.
pub open spec fn find_space(s: Seq<char>, from: int, space: bool) -> int
    decreases s.len() - from,
{
    if from >= s.len() {
        s.len() as int
    } else if from >= 0 && is_space(s[from]) == space {
        from
    } else {
        find_space(s, from + 1, space)
    }
}

/// The words of `s` that begin at or after `from`: the maximal runs of
/// characters that are not whitespace, in the order in which they stand.
pub open spec fn words_from(s: Seq<char>, from: int) -> Seq<Seq<char>>
    decreases s.len() - from,
    via words_from_decreases
{
    let start = find_space(s, from, false);
    let end = find_space(s, start + 1, true);
    if from < 0 || start >= s.len() {
        Seq::empty()
    } else {
        seq![s.subrange(start, end)] + words_from(s, end)
    }
}

#[via_fn]
proof fn words_from_decreases(s: Seq<char>, from: int) {
    if 0 <= from <= s.len() {
        let start = find_space(s, from, false);
        lemma_find_space(s, from, false);
        if start < s.len() {
            lemma_find_space(s, start + 1, true);
        }
    }
}

/// The whitespace-separated words of `s`.
pub open spec fn words(s: Seq<char>) -> Seq<Seq<char>> {
    words_from(s, 0)
}

/// The lines of `s` that begin at or after `from`: the pieces between line
/// feeds. A text that ends in a line feed has an empty last line.
pub open spec fn lines_from(s: Seq<char>, from: int) -> Seq<Seq<char>>
    decreases s.len() - from,
    via lines_from_decreases
{
    let end = find_char(s, from, '\n');
    if from < 0 || from > s.len() {
        Seq::empty()
    } else if end >= s.len() {
        seq![s.subrange(from, s.len() as int)]
    } else {
        seq![s.subrange(from, end)] + lines_from(s, end + 1)
    }
}

#[via_fn]
proof fn lines_from_decreases(s: Seq<char>, from: int) {
    if 0 <= from <= s.len() {
        lemma_find_char(s, from, '\n');
    }
}

/// The lines of `s`.
pub open spec fn lines(s: Seq<char>) -> Seq<Seq<char>> {
    lines_from(s, 0)
}

/// `find_char` stays within `from..=s.len()`, stops on `c`, and passes over
/// nothing that is `c`.
pub proof fn lemma_find_char(s: Seq<char>, from: int, c: char)
    requires
        0 <= from <= s.len(),
    ensures
        from <= find_char(s, from, c) <= s.len(),
        find_char(s, from, c) < s.len() ==> s[find_char(s, from, c)] == c,
        forall|i: int| from <= i < find_char(s, from, c) ==> s[i] != c,
    decreases s.len() - from,
{
    if from < s.len() && s[from] != c {
        lemma_find_char(s, from + 1, c);
    }
}

/// `find_space` stays within `from..=s.len()`, stops on a character of the
/// kind asked for, and passes over none of that kind.
pub proof fn lemma_find_space(s: Seq<char>, from: int, space: bool)
    requires
        0 <= from <= s.len(),
    ensures
        from <= find_space(s, from, space) <= s.len(),
        find_space(s, from, space) < s.len() ==> is_space(s[find_space(s, from, space)]) == space,
        forall|i: int| from <= i < find_space(s, from, space) ==> is_space(s[i]) != space,
    decreases s.len() - from,
{
    if from < s.len() && is_space(s[from]) != space {
        lemma_find_space(s, from + 1, space);
    }
}

/// Whether `c` is whitespace.
pub fn is_whitespace(c: char) -> (b: bool)
    ensures
        b == is_space(c),
{
    let u: u32 = c as u32;
    (0x09 <= u && u <= 0x0D) || u == 0x20 || u == 0x85 || u == 0xA0 || u == 0x1680 || (0x2000 <= u
        && u <= 0x200A) || u == 0x2028 || u == 0x2029 || u == 0x202F || u == 0x205F || u == 0x3000
}

/// The characters of `s`, one by one.
pub fn to_chars(s: &str) -> (v: Vec<char>)
    ensures
        v@ == s@,
{
    let mut v: Vec<char> = Vec::new();
    for c in it: s.chars()
        invariant
            v@ == it.seq().take(it.index()),
            it.seq() == s@,
    {
        v.push(c);
    }
    v
}

/// Where `c` first stands in `s` at or after `from`; `s.len()` if nowhere.
pub fn index_of(s: &[char], from: usize, c: char) -> (i: usize)
    ensures
        i == find_char(s@, from as int, c),
        i <= s@.len(),
        from <= s@.len() ==> from <= i,
{
    if from >= s.len() {
        return s.len();
    }
    let mut i: usize = from;
    while i < s.len() && s[i] != c
        invariant
            from <= i <= s@.len(),
            find_char(s@, from as int, c) == find_char(s@, i as int, c),
        decreases s@.len() - i,
    {
        i += 1;
    }
    proof {
        lemma_find_char(s@, i as int, c);
    }
    i
}

/// Where `s` first has whitespace (`space`) or a character that is none
/// (`!space`) at or after `from`; `s.len()` if nowhere.
pub fn index_of_space(s: &[char], from: usize, space: bool) -> (i: usize)
    ensures
        i == find_space(s@, from as int, space),
        i <= s@.len(),
        from <= s@.len() ==> from <= i,
{
    if from >= s.len() {
        return s.len();
    }
    let mut i: usize = from;
    while i < s.len() && is_whitespace(s[i]) != space
        invariant
            from <= i <= s@.len(),
            find_space(s@, from as int, space) == find_space(s@, i as int, space),
        decreases s@.len() - i,
    {
        i += 1;
    }
    proof {
        lemma_find_space(s@, i as int, space);
    }
    i
}

/// A stretch of a text: the characters from `start` up to, not including, `end`.
#[derive(Clone, Copy, Debug, PartialEq, Eq, Structural)]
pub struct Span {
    pub start: usize,
    pub end: usize,
}

impl Span {
    /// What the span holds of `s`.
    pub open spec fn of(self, s: Seq<char>) -> Seq<char> {
        s.subrange(self.start as int, self.end as int)
    }

    /// Whether the span lies within a text of `len` characters.
    pub open spec fn within(self, len: nat) -> bool {
        self.start <= self.end <= len
    }
}

/// What each of `spans` holds of `s`.
pub open spec fn spans_of(spans: Seq<Span>, s: Seq<char>) -> Seq<Seq<char>> {
    Seq::new(spans.len(), |i: int| spans[i].of(s))
}

/// Where the words of `s` stand.
pub fn word_spans(s: &[char]) -> (spans: Vec<Span>)
    ensures
        spans_of(spans@, s@) == words(s@),
        forall|i: int| 0 <= i < spans@.len() ==> (#[trigger] spans@[i]).within(s@.len()),
{
    let mut spans: Vec<Span> = Vec::new();
    let mut pos: usize = 0;
    loop
        invariant
            pos <= s@.len(),
            words(s@) == spans_of(spans@, s@) + words_from(s@, pos as int),
            forall|i: int| 0 <= i < spans@.len() ==> (#[trigger] spans@[i]).within(s@.len()),
        ensures
            spans_of(spans@, s@) == words(s@),
            forall|i: int| 0 <= i < spans@.len() ==> (#[trigger] spans@[i]).within(s@.len()),
        decreases s@.len() - pos,
    {
        let start = index_of_space(s, pos, false);
        if start >= s.len() {
            break ;
        }
        let end = index_of_space(s, start + 1, true);
        let ghost before = spans@;
        spans.push(Span { start, end });
        proof {
            assert(spans_of(spans@, s@) == spans_of(before, s@) + seq![s@.subrange(
                start as int,
                end as int,
            )]);
        }
        pos = end;
    }
    spans
}

/// Where the lines of `s` stand.
pub fn line_spans(s: &[char]) -> (spans: Vec<Span>)
    ensures
        spans_of(spans@, s@) == lines(s@),
        forall|i: int| 0 <= i < spans@.len() ==> (#[trigger] spans@[i]).within(s@.len()),
{
    let mut spans: Vec<Span> = Vec::new();
    let mut pos: usize = 0;
    loop
        invariant_except_break
            pos <= s@.len(),
            lines(s@) == spans_of(spans@, s@) + lines_from(s@, pos as int),
        invariant
            forall|i: int| 0 <= i < spans@.len() ==> (#[trigger] spans@[i]).within(s@.len()),
        ensures
            spans_of(spans@, s@) == lines(s@),
            forall|i: int| 0 <= i < spans@.len() ==> (#[trigger] spans@[i]).within(s@.len()),
        decreases s@.len() - pos,
    {
        let end = index_of(s, pos, '\n');
        let ghost before = spans@;
        spans.push(Span { start: pos, end });
        proof {
            assert(spans_of(spans@, s@) == spans_of(before, s@) + seq![s@.subrange(
                pos as int,
                end as int,
            )]);
        }
        if end >= s.len() {
            break ;
        }
        pos = end + 1;
    }
    spans
}

/// Whether `c` is one of the digits `0` to `9` (U+0030 to U+0039).
pub open spec fn is_digit(c: char) -> bool {
    0x30 <= c as u32 <= 0x39
}

/// The number that a string of decimal digits writes.
pub open spec fn decimal_value(s: Seq<char>) -> nat
    decreases s.len(),
{
    if s.len() == 0 {
        0
    } else {
        (10 * decimal_value(s.drop_last()) + (s.last() as u32 - 0x30)) as nat
    }
}

/// Whether `s` is a decimal number: one digit or more, and nothing else.
pub open spec fn is_decimal(s: Seq<char>) -> bool {
    s.len() > 0 && forall|i: int| 0 <= i < s.len() ==> is_digit(#[trigger] s[i])
}

/// The number that `s` writes, where `s` is a decimal number of at most
/// 65535; `None` for anything else.
pub open spec fn decimal_u16(s: Seq<char>) -> Option<u16> {
    if is_decimal(s) && decimal_value(s) <= u16::MAX {
        Some(decimal_value(s) as u16)
    } else {
        None
    }
}

/// A number is no smaller than what its leading digits write.
pub proof fn lemma_decimal_prefix(s: Seq<char>, n: int)
    requires
        0 <= n <= s.len(),
        forall|i: int| 0 <= i < s.len() ==> is_digit(#[trigger] s[i]),
    ensures
        decimal_value(s.take(n)) <= decimal_value(s),
    decreases s.len() - n,
{
    if n < s.len() {
        lemma_decimal_prefix(s, n + 1);
        assert(s.take(n + 1).drop_last() == s.take(n));
        assert(is_digit(s[n]));
    } else {
        assert(s.take(n) == s);
    }
}

/// Reads a decimal number of at most 65535.
pub fn parse_u16(s: &[char]) -> (r: Option<u16>)
    ensures
        r == decimal_u16(s@),
{
    if s.len() == 0 {
        return None;
    }
    let mut value: u32 = 0;
    let mut i: usize = 0;
    while i < s.len()
        invariant
            i <= s@.len(),
            value == decimal_value(s@.take(i as int)),
            value <= u16::MAX,
            forall|k: int| 0 <= k < i ==> is_digit(#[trigger] s@[k]),
        decreases s@.len() - i,
    {
        let u: u32 = s[i] as u32;
        if u < 48 || u > 57 {
            return None;
        }
        assert(is_digit(s@[i as int]));
        proof {
            assert(s@.take(i + 1).drop_last() == s@.take(i as int));
        }
        value = value * 10 + (u - 48);
        i += 1;
        if value > 65535 {
            proof {
                if is_decimal(s@) {
                    lemma_decimal_prefix(s@, i as int);
                }
            }
            return None;
        }
    }
    proof {
        assert(s@.take(i as int) == s@);
    }
    Some(value as u16)
}

/// `String::push` appends one character.
pub assume_specification[ String::push ](s: &mut String, c: char)
    ensures
        final(s)@ == old(s)@.push(c),
;

/// The string that `s` spells.
pub fn string_of(s: &[char]) -> (r: String)
    ensures
        r@ == s@,
{
    let mut r = String::new();
    let mut i: usize = 0;
    while i < s.len()
        invariant
            i <= s@.len(),
            r@ == s@.take(i as int),
        decreases s@.len() - i,
    {
        r.push(s[i]);
        proof {
            assert(s@.take(i + 1) == s@.take(i as int).push(s@[i as int]));
        }
        i += 1;
    }
    proof {
        assert(s@.take(i as int) == s@);
    }
    r
}

/// What `String::from_utf8_lossy` makes of bytes: their text where they are
/// UTF-8, and else a text in which U+FFFD stands for what is not.
pub uninterp spec fn lossy_text(bytes: Seq<u8>) -> Seq<char>;

/// Calls `String::from_utf8_lossy`. The result depends on the bytes alone,
/// and bytes that are UTF-8 come back as the text they encode.
#[verifier::external_body]
pub(crate) fn decode_lossy(bytes: &[u8]) -> (r: String)
    ensures
        r@ == lossy_text(bytes@),
        valid_utf8(bytes@) ==> r@ == decode_utf8(bytes@),
{
    String::from_utf8_lossy(bytes).into_owned()
}

/// Every word holds a character, and none that is whitespace.
pub proof fn lemma_words(s: Seq<char>, from: int)
    requires
        0 <= from <= s.len(),
    ensures
        forall|i: int|
            0 <= i < words_from(s, from).len() ==> (#[trigger] words_from(s, from)[i]).len() > 0,
        forall|i: int, k: int|
            0 <= i < words_from(s, from).len() && 0 <= k < words_from(s, from)[i].len()
                ==> !is_space(#[trigger] words_from(s, from)[i][k]),
    decreases s.len() - from,
{
    let start = find_space(s, from, false);
    lemma_find_space(s, from, false);
    if start < s.len() {
        let end = find_space(s, start + 1, true);
        lemma_find_space(s, start + 1, true);
        lemma_words(s, end);
        let word = s.subrange(start, end);
        let rest = words_from(s, end);
        assert(words_from(s, from) == seq![word] + rest);
        assert forall|i: int, k: int|
            0 <= i < words_from(s, from).len() && 0 <= k < words_from(s, from)[i].len()
                implies !is_space(#[trigger] words_from(s, from)[i][k]) by {
            if i == 0 {
                assert(word[k] == s[start + k]);
            } else {
                assert(words_from(s, from)[i] == rest[i - 1]);
            }
        }
        assert forall|i: int| 0 <= i < words_from(s, from).len() implies (#[trigger] words_from(
            s,
            from,
        )[i]).len() > 0 by {
            if i > 0 {
                assert(words_from(s, from)[i] == rest[i - 1]);
            }
        }
    }
}

/// No line holds a line feed.
pub proof fn lemma_lines(s: Seq<char>, from: int)
    requires
        0 <= from <= s.len(),
    ensures
        lines_from(s, from).len() > 0,
        forall|i: int, k: int|
            0 <= i < lines_from(s, from).len() && 0 <= k < lines_from(s, from)[i].len()
                ==> #[trigger] lines_from(s, from)[i][k] != '\n',
    decreases s.len() - from,
{
    let end = find_char(s, from, '\n');
    lemma_find_char(s, from, '\n');
    let line = s.subrange(from, end);
    if end < s.len() {
        lemma_lines(s, end + 1);
        let rest = lines_from(s, end + 1);
        assert(lines_from(s, from) == seq![line] + rest);
        assert forall|i: int, k: int|
            0 <= i < lines_from(s, from).len() && 0 <= k < lines_from(s, from)[i].len()
                implies #[trigger] lines_from(s, from)[i][k] != '\n' by {
            if i == 0 {
                assert(line[k] == s[from + k]);
            } else {
                assert(lines_from(s, from)[i] == rest[i - 1]);
            }
        }
    } else {
        assert(lines_from(s, from) == seq![line]);
        assert forall|i: int, k: int|
            0 <= i < lines_from(s, from).len() && 0 <= k < lines_from(s, from)[i].len()
                implies #[trigger] lines_from(s, from)[i][k] != '\n' by {
            assert(line[k] == s[from + k]);
        }
    }
}

} // verus!
