//! Numbers with a fraction as they are written.

use crate::text::{lowercase, part_of, spells, to_lowercase};
use vstd::prelude::*;

verus! {

pub open spec fn is_digit(c: char) -> bool {
    '0' <= c && c <= '9'
}

pub open spec fn all_digits(text: Seq<char>) -> bool {
    forall|i: int| 0 <= i < text.len() ==> is_digit(#[trigger] text[i])
}

pub open spec fn is_sign(c: char) -> bool {
    c == '+' || c == '-'
}

/// Text without the sign that it may start with.
pub open spec fn unsigned(text: Seq<char>) -> Seq<char> {
    if text.len() > 0 && is_sign(text[0]) {
        text.skip(1)
    } else {
        text
    }
}

/// Digits, with a point before, between or behind them or without one.
pub open spec fn is_mantissa(text: Seq<char>) -> bool {
    ||| text.len() > 0 && all_digits(text)
    ||| text.len() > 1 && exists|point: int|
        0 <= point < text.len() && #[trigger] text[point] == '.' && all_digits(text.take(point))
            && all_digits(text.skip(point + 1))
}

/// An exponent of ten, with a sign or without one.
pub open spec fn is_exponent(text: Seq<char>) -> bool {
    unsigned(text).len() > 0 && all_digits(unsigned(text))
}

/// A mantissa, with an exponent behind an `e` or without one.
pub open spec fn is_decimal(text: Seq<char>) -> bool {
    ||| is_mantissa(text)
    ||| exists|e: int|
        0 <= e < text.len() && #[trigger] text[e] == 'e' && is_mantissa(text.take(e)) && is_exponent(
            text.skip(e + 1),
        )
}

/// Whether text is a number: a decimal one, an infinity or no number by name, with a
/// sign or without one, in letters of either case.
pub open spec fn is_real(text: Seq<char>) -> bool {
    let value = lowercase(unsigned(text));
    value == "inf"@ || value == "infinity"@ || value == "nan"@ || is_decimal(value)
}

/// Where the digits that start somewhere end.
fn digits_end(chars: &Vec<char>, from: usize) -> (end: usize)
    requires
        from <= chars@.len(),
    ensures
        from <= end <= chars@.len(),
        forall|i: int| from <= i < end ==> is_digit(#[trigger] chars@[i]),
        end < chars@.len() ==> !is_digit(chars@[end as int]),
{
    let mut end: usize = from;
    while end < chars.len() && '0' <= chars[end] && chars[end] <= '9'
        invariant
            from <= end <= chars@.len(),
            forall|i: int| from <= i < end ==> is_digit(#[trigger] chars@[i]),
        decreases chars@.len() - end,
    {
        end = end + 1;
    }
    end
}

/// Where digits with a point end: a mantissa that something else follows, or nothing,
/// ends nowhere else.
proof fn lemma_mantissa(text: Seq<char>, whole: int, end: int, n: int)
    requires
        0 <= whole <= end <= text.len(),
        forall|i: int| 0 <= i < whole ==> is_digit(#[trigger] text[i]),
        whole < text.len() ==> !is_digit(text[whole]),
        end < text.len() ==> !is_digit(text[end]),
        if whole < text.len() && text[whole] == '.' {
            whole < end && forall|i: int| whole < i < end ==> is_digit(#[trigger] text[i])
        } else {
            end == whole
        },
        0 <= n <= text.len(),
        n < text.len() ==> text[n] == 'e',
    ensures
        is_mantissa(text.take(n)) == (n == end && (whole > 0 || end > 1)),
{
    let part = text.take(n);
    if n == end && (whole > 0 || end > 1) {
        if whole < end {
            assert(part[whole] == '.');
            assert(all_digits(part.take(whole)));
            assert(all_digits(part.skip(whole + 1)));
        } else {
            assert(all_digits(part));
        }
    }
    if is_mantissa(part) {
        if all_digits(part) {
            assert forall|i: int| 0 <= i < n implies is_digit(#[trigger] text[i]) by {
                assert(part[i] == text[i]);
            }
            assert(n == whole);
        } else {
            let point = choose|point: int|
                0 <= point < part.len() && #[trigger] part[point] == '.' && all_digits(
                    part.take(point),
                ) && all_digits(part.skip(point + 1));
            assert(text[point] == '.');
            assert forall|i: int| 0 <= i < point implies is_digit(#[trigger] text[i]) by {
                assert(part.take(point)[i] == text[i]);
            }
            assert(point == whole);
            assert forall|i: int| point < i < n implies is_digit(#[trigger] text[i]) by {
                assert(part.skip(point + 1)[i - point - 1] == text[i]);
            }
            assert(n == end);
        }
    }
}

fn reads_as_exponent(chars: &Vec<char>, from: usize) -> (r: bool)
    requires
        from <= chars@.len(),
    ensures
        r == is_exponent(chars@.skip(from as int)),
{
    let ghost rest = chars@.skip(from as int);
    let start: usize = if from < chars.len() && (chars[from] == '+' || chars[from] == '-') {
        from + 1
    } else {
        from
    };
    let end: usize = digits_end(chars, start);
    proof {
        let digits = unsigned(rest);
        assert(digits =~= chars@.skip(start as int));
        if end == chars@.len() {
            assert forall|i: int| 0 <= i < digits.len() implies is_digit(#[trigger] digits[i]) by {
                assert(digits[i] == chars@[start + i]);
            }
        } else {
            assert(digits[end - start] == chars@[end as int]);
        }
    }
    start < chars.len() && end == chars.len()
}

fn reads_as_decimal(chars: &Vec<char>) -> (r: bool)
    ensures
        r == is_decimal(chars@),
{
    let len: usize = chars.len();
    let whole: usize = digits_end(chars, 0);
    let end: usize = if whole < len && chars[whole] == '.' {
        digits_end(chars, whole + 1)
    } else {
        whole
    };
    proof {
        lemma_mantissa(chars@, whole as int, end as int, len as int);
        assert(chars@.take(len as int) =~= chars@);
        assert forall|e: int| 0 <= e < len && #[trigger] chars@[e] == 'e' implies is_mantissa(
            chars@.take(e),
        ) == (e == end && (whole > 0 || end > 1)) by {
            lemma_mantissa(chars@, whole as int, end as int, e);
        }
    }
    if whole == 0 && end <= 1 {
        return false;
    }
    if end == len {
        return true;
    }
    chars[end] == 'e' && reads_as_exponent(chars, end + 1)
}

/// Says whether text is a number.
pub fn reads_as_real(chars: &Vec<char>) -> (r: bool)
    ensures
        r == is_real(chars@),
{
    let start: usize = if chars.len() > 0 && (chars[0] == '+' || chars[0] == '-') {
        1
    } else {
        0
    };
    let rest = part_of(chars, start, chars.len());
    assert(rest@ =~= unsigned(chars@));
    let value = to_lowercase(&rest);
    spells(&value, "inf") || spells(&value, "infinity") || spells(&value, "nan")
        || reads_as_decimal(&value)
}

} // verus!
