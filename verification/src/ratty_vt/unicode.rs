//! Display widths and grapheme clusters, from the Unicode tables of
//! `unicode-width` and `unicode-segmentation`.

use unicode_segmentation::GraphemeCursor;
use unicode_width::{UnicodeWidthChar, UnicodeWidthStr};
use vstd::prelude::*;

verus! {

/// The number of columns a character takes up; `None` for a control character.
pub uninterp spec fn char_width(c: char) -> Option<usize>;

/// The number of columns some text takes up.
pub uninterp spec fn text_width(text: Seq<char>) -> usize;

/// Whether a grapheme cluster boundary lies before `next` where it follows
/// `previous`.
pub uninterp spec fn cluster_boundary(previous: Seq<char>, next: char) -> bool;

/// Whether a character is a printable one of ASCII.
pub open spec fn is_ascii_text(c: char) -> bool {
    ' ' <= c && c <= '~'
}

/// Calls `UnicodeWidthChar::width`. Its lookup answers `None` for the control
/// characters below U+0020 and from U+007F to U+009F and for nothing else, 1
/// for the rest of ASCII, and never more than 3 columns.
#[verifier::external_body]
pub(crate) fn width_of_char(c: char) -> (width: Option<usize>)
    ensures
        width == char_width(c),
        width is None <==> is_control(c),
        is_ascii_text(c) ==> width == Some(1usize),
        width matches Some(columns) ==> columns <= 3,
{
    c.width()
}

/// Calls `UnicodeWidthStr::width`, which computes the displayed width of the
/// text from its characters alone.
#[verifier::external_body]
pub(crate) fn width_of_text(text: &str) -> (width: usize)
    ensures
        width == text_width(text@),
{
    text.width()
}

/// Asks a `GraphemeCursor` over `previous` followed by `next`, in extended
/// mode and with the whole text at hand, whether it is at a boundary between
/// the two. At the very start of a text the cursor answers yes, and so it does
/// between two printable characters of ASCII, which are of no special category;
/// with the whole text at hand it never lacks context.
#[verifier::external_body]
pub(crate) fn boundary_between(previous: &str, next: char) -> (boundary: bool)
    ensures
        boundary == cluster_boundary(previous@, next),
        previous@.len() == 0 ==> boundary,
        previous@.len() > 0 && is_ascii_text(previous@.last()) && is_ascii_text(next) ==> boundary,
{
    let text = format!("{previous}{next}");
    GraphemeCursor::new(previous.len(), text.len(), true).is_boundary(&text, 0).unwrap_or(true)
}

/// Whether a character is a control character.
pub open spec fn is_control(c: char) -> bool {
    c < '\u{20}' || ('\u{7f}' <= c && c < '\u{a0}')
}

/// The columns that a character is drawn across: one for those of ASCII, and none for
/// control characters.
pub open spec fn char_columns(c: char) -> Option<usize> {
    if is_ascii_text(c) {
        Some(1)
    } else if is_control(c) {
        None
    } else {
        char_width(c)
    }
}

/// Whether a character stands apart from the text before it. Two of ASCII always do.
pub open spec fn stands_apart(previous: Seq<char>, next: char) -> bool {
    ||| previous.len() > 0 && is_ascii_text(previous.last()) && is_ascii_text(next)
    ||| cluster_boundary(previous, next)
}

/// The columns that a character is drawn across; `None` for a control character.
pub fn columns_of_char(c: char) -> (width: Option<usize>)
    ensures
        width == char_columns(c),
        width matches Some(columns) ==> columns <= 3,
{
    width_of_char(c)
}

/// Whether `next` would extend the last grapheme cluster of `previous`.
pub fn clusters_with(previous: &str, next: char) -> (r: bool)
    ensures
        r == !stands_apart(previous@, next),
{
    !boundary_between(previous, next)
}

} // verus!
