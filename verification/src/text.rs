//! Text as sequences of characters: trimming, splitting and comparing.

use vstd::prelude::*;
use vstd::string::*;
use vstd::utf8::{decode_utf8, valid_utf8};

verus! {

/// Whether a character is white space: one of those that have Unicode's `White_Space`
/// property.
pub open spec fn is_white(c: char) -> bool {
    ||| '\u{9}' <= c && c <= '\u{d}'
    ||| c == ' '
    ||| c == '\u{85}'
    ||| c == '\u{a0}'
    ||| c == '\u{1680}'
    ||| '\u{2000}' <= c && c <= '\u{200a}'
    ||| c == '\u{2028}'
    ||| c == '\u{2029}'
    ||| c == '\u{202f}'
    ||| c == '\u{205f}'
    ||| c == '\u{3000}'
}

/// Says whether a character is white space.
pub fn is_whitespace(c: char) -> (r: bool)
    ensures
        r == is_white(c),
{
    ('\u{9}' <= c && c <= '\u{d}') || c == ' ' || c == '\u{85}' || c == '\u{a0}' || c == '\u{1680}'
        || ('\u{2000}' <= c && c <= '\u{200a}') || c == '\u{2028}' || c == '\u{2029}'
        || c == '\u{202f}' || c == '\u{205f}' || c == '\u{3000}'
}

/// The characters of some text.
pub fn chars_of(text: &str) -> (r: Vec<char>)
    ensures
        r@ == text@,
{
    let mut r: Vec<char> = Vec::new();
    for c in it: text.chars()
        invariant
            r@ == text@.take(it.index() as int),
            it.seq() == text@,
    {
        r.push(c);
        assert(text@.take(it.index() + 1) =~= text@.take(it.index() as int).push(c));
    }
    assert(r@ =~= text@);
    r
}

/// Whether characters spell some text.
pub fn spells(chars: &Vec<char>, text: &str) -> (r: bool)
    ensures
        r == (chars@ == text@),
{
    let other = chars_of(text);
    if chars.len() != other.len() {
        return false;
    }
    let mut i: usize = 0;
    while i < chars.len()
        invariant
            i <= chars@.len(),
            chars@.len() == other@.len(),
            other@ == text@,
            forall|k: int| 0 <= k < i ==> chars@[k] == other@[k],
        decreases chars@.len() - i,
    {
        if chars[i] != other[i] {
            return false;
        }
        i = i + 1;
    }
    assert(chars@ =~= text@);
    true
}

/// The text that characters spell.
pub fn string_of(chars: &Vec<char>) -> (r: String)
    ensures
        r@ == chars@,
{
    let mut r = String::new();
    let mut i: usize = 0;
    while i < chars.len()
        invariant
            i <= chars@.len(),
            r@ == chars@.take(i as int),
        decreases chars@.len() - i,
    {
        r.push(chars[i]);
        assert(chars@.take(i + 1) =~= chars@.take(i as int).push(chars@[i as int]));
        i = i + 1;
    }
    assert(chars@.take(i as int) =~= chars@);
    r
}

/// An ASCII letter in lower case; any other character as it is.
pub open spec fn lowered(c: char) -> char {
    if 'A' <= c && c <= 'Z' {
        (c as u32 + 32) as char
    } else {
        c
    }
}

/// Text with its ASCII letters in lower case.
pub open spec fn lowercase(text: Seq<char>) -> Seq<char> {
    Seq::new(text.len(), |i: int| lowered(text[i]))
}

fn lower_char(c: char) -> (r: char)
    ensures
        r == lowered(c),
{
    if 'A' <= c && c <= 'Z' {
        (c as u8 + 32) as char
    } else {
        c
    }
}

pub fn to_lowercase(chars: &Vec<char>) -> (r: Vec<char>)
    ensures
        r@ == lowercase(chars@),
{
    let mut r: Vec<char> = Vec::new();
    let mut i: usize = 0;
    while i < chars.len()
        invariant
            i <= chars@.len(),
            r@.len() == i,
            forall|k: int| 0 <= k < i ==> r@[k] == lowered(chars@[k]),
        decreases chars@.len() - i,
    {
        r.push(lower_char(chars[i]));
        i = i + 1;
    }
    assert(r@ =~= lowercase(chars@));
    r
}

/// Text without white space at its start.
pub open spec fn start_trimmed(text: Seq<char>) -> Seq<char>
    decreases text.len(),
{
    if text.len() > 0 && is_white(text[0]) {
        start_trimmed(text.drop_first())
    } else {
        text
    }
}

/// Text without white space at its end.
pub open spec fn end_trimmed(text: Seq<char>) -> Seq<char>
    decreases text.len(),
{
    if text.len() > 0 && is_white(text.last()) {
        end_trimmed(text.drop_last())
    } else {
        text
    }
}

/// Text without white space around it.
pub open spec fn trimmed(text: Seq<char>) -> Seq<char> {
    end_trimmed(start_trimmed(text))
}

pub fn trim(chars: &Vec<char>) -> (r: Vec<char>)
    ensures
        r@ == trimmed(chars@),
{
    let ghost whole = chars@;
    let mut start: usize = 0;
    assert(whole.subrange(0, whole.len() as int) =~= whole);
    while start < chars.len() && is_whitespace(chars[start])
        invariant
            start <= chars@.len(),
            whole == chars@,
            start_trimmed(whole.subrange(start as int, whole.len() as int)) == start_trimmed(whole),
        decreases chars@.len() - start,
    {
        let ghost rest = whole.subrange(start as int, whole.len() as int);
        assert(rest.drop_first() =~= whole.subrange(start + 1, whole.len() as int));
        start = start + 1;
    }
    let ghost rest = whole.subrange(start as int, whole.len() as int);
    proof {
        if rest.len() > 0 {
            assert(rest[0] == whole[start as int]);
        }
        assert(start_trimmed(whole) == rest);
    }
    let mut end: usize = chars.len();
    while end > start && is_whitespace(chars[end - 1])
        invariant
            start <= end <= chars@.len(),
            whole == chars@,
            end_trimmed(whole.subrange(start as int, end as int)) == end_trimmed(rest),
        decreases end,
    {
        let ghost part = whole.subrange(start as int, end as int);
        assert(part.last() == whole[end - 1]);
        assert(part.drop_last() =~= whole.subrange(start as int, end - 1));
        end = end - 1;
    }
    proof {
        let part = whole.subrange(start as int, end as int);
        if part.len() > 0 {
            assert(part.last() == whole[end - 1]);
        }
        assert(part == trimmed(whole));
    }
    let r = part_of(chars, start, end);
    r
}

/// The characters `start..end`.
pub fn part_of(chars: &Vec<char>, start: usize, end: usize) -> (r: Vec<char>)
    requires
        start <= end <= chars@.len(),
    ensures
        r@ == chars@.subrange(start as int, end as int),
{
    let mut r: Vec<char> = Vec::new();
    let mut i: usize = start;
    while i < end
        invariant
            start <= i <= end <= chars@.len(),
            r@ == chars@.subrange(start as int, i as int),
        decreases end - i,
    {
        r.push(chars[i]);
        assert(chars@.subrange(start as int, i + 1) =~= chars@.subrange(start as int, i as int).push(
            chars@[i as int],
        ));
        i = i + 1;
    }
    r
}

/// Lists of characters, as sequences.
pub open spec fn lists_view(lists: Seq<Vec<char>>) -> Seq<Seq<char>> {
    Seq::new(lists.len(), |i: int| lists[i]@)
}

/// The pieces of text between separators.
pub open spec fn pieces(text: Seq<char>, separator: char) -> Seq<Seq<char>>
    decreases text.len(),
{
    if text.len() == 0 {
        seq![Seq::empty()]
    } else {
        let before = pieces(text.drop_last(), separator);
        if text.last() == separator {
            before.push(Seq::empty())
        } else {
            before.update(before.len() - 1, before.last().push(text.last()))
        }
    }
}

pub proof fn lemma_pieces_not_empty(text: Seq<char>, separator: char)
    ensures
        pieces(text, separator).len() > 0,
    decreases text.len(),
{
    if text.len() > 0 {
        lemma_pieces_not_empty(text.drop_last(), separator);
    }
}

pub fn split(chars: &Vec<char>, separator: char) -> (r: Vec<Vec<char>>)
    ensures
        lists_view(r@) == pieces(chars@, separator),
        r@.len() > 0,
{
    let mut r: Vec<Vec<char>> = Vec::new();
    r.push(Vec::new());
    let mut i: usize = 0;
    proof {
        assert(chars@.take(0) =~= Seq::<char>::empty());
        assert(lists_view(r@)[0] =~= Seq::<char>::empty());
        assert(lists_view(r@) =~= seq![Seq::<char>::empty()]);
    }
    while i < chars.len()
        invariant
            i <= chars@.len(),
            r@.len() > 0,
            lists_view(r@) == pieces(chars@.take(i as int), separator),
        decreases chars@.len() - i,
    {
        let c: char = chars[i];
        let ghost before = pieces(chars@.take(i as int), separator);
        proof {
            assert(chars@.take(i + 1).drop_last() =~= chars@.take(i as int));
            assert(chars@.take(i + 1).last() == c);
        }
        if c == separator {
            r.push(Vec::new());
            assert(lists_view(r@)[r@.len() - 1] =~= Seq::<char>::empty());
            assert(lists_view(r@) =~= before.push(Seq::empty()));
        } else {
            let last: usize = r.len() - 1;
            let ghost piece = r@[last as int]@;
            r[last].push(c);
            assert(lists_view(r@) =~= before.update(last as int, piece.push(c)));
        }
        i = i + 1;
    }
    assert(chars@.take(i as int) =~= chars@);
    r
}

/// `str::from_utf8` accepts exactly the valid UTF-8 and decodes it.
#[verifier::external_body]
pub(crate) fn decode_text(bytes: &[u8]) -> (r: Option<String>)
    ensures
        match r {
            Some(text) => valid_utf8(bytes@) && text@ == decode_utf8(bytes@),
            None => !valid_utf8(bytes@),
        },
{
    std::str::from_utf8(bytes).ok().map(|text| text.to_owned())
}

/// The first occurrence of a character, from an index on.
pub open spec fn first_of(text: Seq<char>, c: char, from: int) -> Option<int>
    decreases text.len() - from,
{
    if from < 0 || from >= text.len() {
        None
    } else if text[from] == c {
        Some(from)
    } else {
        first_of(text, c, from + 1)
    }
}

pub fn find(chars: &Vec<char>, c: char) -> (r: Option<usize>)
    ensures
        match r {
            Some(i) => i < chars@.len() && first_of(chars@, c, 0) == Some(i as int),
            None => first_of(chars@, c, 0) is None,
        },
{
    let mut i: usize = 0;
    while i < chars.len()
        invariant
            i <= chars@.len(),
            first_of(chars@, c, 0) == first_of(chars@, c, i as int),
        decreases chars@.len() - i,
    {
        if chars[i] == c {
            return Some(i);
        }
        i = i + 1;
    }
    None
}

/// The value of a decimal digit.
pub open spec fn digit_of(c: char) -> Option<int> {
    if '0' <= c && c <= '9' {
        Some(c as u32 - 48)
    } else {
        None
    }
}

/// The value of decimal digits; `None` if there is anything else.
pub open spec fn digits_value(text: Seq<char>) -> Option<int>
    decreases text.len(),
{
    if text.len() == 0 {
        Some(0)
    } else {
        match (digits_value(text.drop_last()), digit_of(text.last())) {
            (Some(value), Some(digit)) => Some(value * 10 + digit),
            _ => None,
        }
    }
}

/// The number that some text is: digits, after a plus sign or not, up to a
/// largest number.
pub open spec fn number_of(text: Seq<char>, max: int) -> Option<int> {
    let digits = if text.len() > 0 && text[0] == '+' { text.drop_first() } else { text };
    match digits_value(digits) {
        Some(value) => if digits.len() > 0 && value <= max { Some(value) } else { None },
        None => None,
    }
}

proof fn lemma_digits_grow(text: Seq<char>, n: int, m: int)
    requires
        0 <= n <= m <= text.len(),
    ensures
        digits_value(text.take(n)) is None ==> digits_value(text.take(m)) is None,
        digits_value(text.take(n)) matches Some(low) ==> low >= 0 && (digits_value(
            text.take(m),
        ) matches Some(high) ==> high >= low),
    decreases m,
{
    if n == m {
        if n > 0 {
            assert(text.take(n).drop_last() =~= text.take(n - 1));
            lemma_digits_grow(text, n - 1, n - 1);
        } else {
            assert(text.take(0).len() == 0);
        }
    } else {
        lemma_digits_grow(text, n, m - 1);
        assert(text.take(m).drop_last() =~= text.take(m - 1));
        lemma_digits_grow(text, m - 1, m - 1);
    }
}

/// Reads a number up to a largest one.
pub fn parse_number(chars: &Vec<char>, max: u64) -> (r: Option<u64>)
    ensures
        match r {
            Some(value) => number_of(chars@, max as int) == Some(value as int) && value <= max,
            None => number_of(chars@, max as int) is None,
        },
{
    let start: usize = if chars.len() > 0 && chars[0] == '+' { 1 } else { 0 };
    let ghost digits = if chars@.len() > 0 && chars@[0] == '+' { chars@.drop_first() } else { chars@ };
    assert(digits =~= chars@.subrange(start as int, chars@.len() as int));
    if chars.len() == start {
        return None;
    }
    let mut value: u128 = 0;
    let mut i: usize = start;
    assert(digits.take(0).len() == 0);
    while i < chars.len()
        invariant
            start <= i <= chars@.len(),
            digits == chars@.subrange(start as int, chars@.len() as int),
            value <= max,
            digits_value(digits.take(i - start)) == Some(value as int),
            number_of(chars@, max as int) == (match digits_value(digits) {
                Some(value) => if digits.len() > 0 && value <= max { Some(value) } else { None },
                None => None,
            }),
        decreases chars@.len() - i,
    {
        let c: char = chars[i];
        let ghost n = i - start;
        proof {
            assert(digits.take(n + 1).drop_last() =~= digits.take(n));
            assert(digits.take(n + 1).last() == c);
            lemma_digits_grow(digits, n + 1, digits.len() as int);
            assert(digits.take(digits.len() as int) =~= digits);
        }
        if c < '0' || '9' < c {
            return None;
        }
        value = value * 10 + (c as u8 - 48) as u128;
        if value > max as u128 {
            return None;
        }
        i = i + 1;
    }
    assert(digits.take(i - start) =~= digits);
    Some(value as u64)
}

} // verus!
