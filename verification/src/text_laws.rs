//! What holds of text that is taken apart and read.

use crate::snapshot::number_text;
use crate::text::{
    digits_value, end_trimmed, first_of, is_white, lemma_pieces_not_empty, lowercase, number_of,
    pieces, start_trimmed, trimmed,
};
use vstd::prelude::*;

verus! {

/// Texts with a separator between each two.
pub open spec fn joined(texts: Seq<Seq<char>>, separator: char) -> Seq<char>
    decreases texts.len(),
{
    if texts.len() == 0 {
        Seq::empty()
    } else if texts.len() == 1 {
        texts[0]
    } else {
        joined(texts.drop_last(), separator).push(separator) + texts.last()
    }
}

proof fn lemma_last_longer(texts: Seq<Seq<char>>, separator: char, c: char)
    requires
        texts.len() > 0,
    ensures
        joined(texts.update(texts.len() - 1, texts.last().push(c)), separator) == joined(
            texts,
            separator,
        ).push(c),
{
    let after = texts.update(texts.len() - 1, texts.last().push(c));
    assert(after.drop_last() =~= texts.drop_last());
    assert(joined(after, separator) =~= joined(texts, separator).push(c));
}

/// The pieces of text between separators, joined by the separator, are the text, and no
/// piece holds a separator.
pub proof fn law_pieces_make_up_the_text(text: Seq<char>, separator: char)
    ensures
        joined(pieces(text, separator), separator) == text,
        forall|i: int, j: int|
            0 <= i < pieces(text, separator).len() && 0 <= j < pieces(text, separator)[i].len()
                ==> #[trigger] pieces(text, separator)[i][j] != separator,
    decreases text.len(),
{
    let after = pieces(text, separator);
    if text.len() == 0 {
        assert(after[0] == Seq::<char>::empty());
        assert(joined(after, separator) =~= text);
    } else {
        law_pieces_make_up_the_text(text.drop_last(), separator);
        lemma_pieces_not_empty(text.drop_last(), separator);
        let before = pieces(text.drop_last(), separator);
        if text.last() == separator {
            assert(after.drop_last() =~= before);
            assert(joined(after, separator) =~= text);
        } else {
            lemma_last_longer(before, separator, text.last());
            assert(text.drop_last().push(text.last()) =~= text);
        }
        assert forall|i: int, j: int| 0 <= i < after.len() && 0 <= j < after[i].len() implies
            #[trigger] after[i][j] != separator by {
            if i < before.len() && j < before[i].len() {
                assert(before[i][j] != separator);
            }
        }
    }
}

proof fn lemma_start(text: Seq<char>)
    ensures
        ({
            let rest = start_trimmed(text);
            let n = text.len() - rest.len();
            &&& 0 <= n
            &&& rest == text.subrange(n, text.len() as int)
            &&& forall|i: int| 0 <= i < n ==> is_white(#[trigger] text[i])
            &&& rest.len() > 0 ==> !is_white(rest[0])
        }),
    decreases text.len(),
{
    if text.len() > 0 && is_white(text[0]) {
        let later = text.drop_first();
        lemma_start(later);
        let rest = start_trimmed(text);
        let n = text.len() - rest.len();
        assert(rest =~= text.subrange(n, text.len() as int));
        assert forall|i: int| 0 <= i < n implies is_white(#[trigger] text[i]) by {
            if i > 0 {
                assert(later[i - 1] == text[i]);
            }
        }
    } else {
        assert(text =~= text.subrange(0, text.len() as int));
    }
}

proof fn lemma_end(text: Seq<char>)
    ensures
        ({
            let rest = end_trimmed(text);
            &&& rest.len() <= text.len()
            &&& rest == text.take(rest.len() as int)
            &&& forall|i: int| rest.len() <= i < text.len() ==> is_white(#[trigger] text[i])
            &&& rest.len() > 0 ==> !is_white(rest.last())
        }),
    decreases text.len(),
{
    if text.len() > 0 && is_white(text.last()) {
        let before = text.drop_last();
        lemma_end(before);
        let rest = end_trimmed(text);
        assert(rest =~= text.take(rest.len() as int));
        assert forall|i: int| rest.len() <= i < text.len() implies is_white(#[trigger] text[i]) by {
            if i < before.len() {
                assert(before[i] == text[i]);
            }
        }
    } else {
        assert(text =~= text.take(text.len() as int));
    }
}

/// Text that is trimmed is the part of it between the white space at its start and at its
/// end, and neither starts nor ends with any.
pub proof fn law_trimmed_text_is_the_middle(text: Seq<char>) -> (start: int)
    ensures
        ({
            let middle = trimmed(text);
            let end = start + middle.len();
            &&& 0 <= start && end <= text.len()
            &&& middle == text.subrange(start, end)
            &&& forall|i: int|
                0 <= i < text.len() && (i < start || i >= end) ==> is_white(#[trigger] text[i])
            &&& middle.len() > 0 ==> !is_white(middle[0]) && !is_white(middle.last())
        }),
{
    lemma_start(text);
    let rest = start_trimmed(text);
    lemma_end(rest);
    let start = text.len() - rest.len();
    let middle = trimmed(text);
    assert(middle =~= text.subrange(start, start + middle.len()));
    assert forall|i: int|
        0 <= i < text.len() && (i < start || i >= start + middle.len()) implies is_white(
        #[trigger] text[i],
    ) by {
        if i >= start {
            assert(rest[i - start] == text[i]);
        }
    }
    if middle.len() > 0 {
        assert(middle[0] == rest[0]);
    }
    start
}

/// Text in lower case differs from the text in its capital letters alone, each of which is
/// the small one of the same letter.
pub proof fn law_lower_case_keeps_letters(text: Seq<char>, i: int)
    requires
        0 <= i < text.len(),
    ensures
        lowercase(text).len() == text.len(),
        !('A' <= text[i] && text[i] <= 'Z') ==> lowercase(text)[i] == text[i],
        'A' <= text[i] && text[i] <= 'Z' ==> lowercase(text)[i] as int - 'a' as int == text[i] as int
            - 'A' as int,
{
}

proof fn lemma_digits(n: nat)
    ensures
        digits_value(number_text(n)) == Some(n as int),
        number_text(n).len() > 0,
        number_text(n)[0] != '+',
    decreases n,
{
    let text = number_text(n);
    if n < 10 {
        assert(text.drop_last() =~= Seq::<char>::empty());
        assert(digits_value(text.drop_last()) == Some(0int));
    } else {
        lemma_digits(n / 10);
        assert(text.drop_last() =~= number_text(n / 10));
        assert(text[0] == number_text(n / 10)[0]);
    }
}

/// A number that is written in decimal is read as the number that it is, as long as it is
/// not too large, with a plus sign before it or not.
pub proof fn law_written_numbers_are_read(n: nat, max: int)
    ensures
        n <= max ==> number_of(number_text(n), max) == Some(n as int),
        n <= max ==> number_of(seq!['+'] + number_text(n), max) == Some(n as int),
        n > max ==> number_of(number_text(n), max) is None,
{
    lemma_digits(n);
    let signed = seq!['+'] + number_text(n);
    assert(signed.drop_first() =~= number_text(n));
}

/// The first place of a character is one where it stands, and it stands nowhere before.
pub proof fn law_the_first_place_is_found(text: Seq<char>, c: char, from: int)
    requires
        0 <= from,
    ensures
        match first_of(text, c, from) {
            Some(i) => from <= i < text.len() && text[i] == c && forall|k: int|
                from <= k < i ==> #[trigger] text[k] != c,
            None => forall|k: int| from <= k < text.len() ==> #[trigger] text[k] != c,
        },
    decreases text.len() - from,
{
    if from < text.len() && text[from] != c {
        law_the_first_place_is_found(text, c, from + 1);
    }
}

} // verus!
