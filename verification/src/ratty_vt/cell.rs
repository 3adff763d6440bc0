//! A single terminal cell.

use crate::ratty_vt::attrs::{Attrs, AttrsModel, Blink, Color, Intensity};
use crate::ratty_vt::unicode::{char_columns, columns_of_char};
use compact_str::CompactString;
use vstd::prelude::*;
use vstd::utf8::{encode_scalar, encode_utf8, encode_utf8_decode_utf8};

verus! {

const IS_WIDE: u8 = 0b1000_0000;
const IS_WIDE_CONTINUATION: u8 = 0b0100_0000;

/// The most UTF-8 bytes that one cell's text takes up. This leaves ample space
/// for emoji and combining sequences while bounding the work per cell.
pub const MAX_CONTENT_BYTES: usize = 4096;

/// The short string that a cell keeps its text in: up to 24 bytes are stored
/// without an allocation.
#[verifier::external_type_specification]
#[verifier::external_body]
pub struct ExCompactString(CompactString);

/// The characters that a `CompactString` holds.
pub uninterp spec fn compact_text(s: CompactString) -> Seq<char>;

/// `CompactString::default` makes an empty string.
pub assume_specification[ <CompactString as Default>::default ]() -> (s: CompactString)
    ensures
        compact_text(s) == Seq::<char>::empty(),
;

/// `CompactString::clone` copies the text.
pub assume_specification[ <CompactString as Clone>::clone ](s: &CompactString) -> (r: CompactString)
    ensures
        compact_text(r) == compact_text(*s),
;

/// `CompactString::push` appends one character.
pub assume_specification[ CompactString::push ](s: &mut CompactString, ch: char)
    ensures
        compact_text(*final(s)) == compact_text(*old(s)).push(ch),
;

/// `CompactString::clear` removes the text.
pub assume_specification[ CompactString::clear ](s: &mut CompactString)
    ensures
        compact_text(*final(s)) == Seq::<char>::empty(),
;

/// `CompactString::as_str` lends the text as a string slice.
pub assume_specification[ CompactString::as_str ](s: &CompactString) -> (r: &str)
    ensures
        r@ == compact_text(*s),
;

/// `CompactString::len` is the length of the text in UTF-8 bytes.
pub assume_specification[ CompactString::len ](s: &CompactString) -> (r: usize)
    ensures
        r == encode_utf8(compact_text(*s)).len(),
;

/// `CompactString::is_empty` tells whether there is no text.
pub assume_specification[ CompactString::is_empty ](s: &CompactString) -> (r: bool)
    ensures
        r == (compact_text(*s).len() == 0),
;

/// `char::len_utf8` is the number of bytes of the character in UTF-8.
pub assume_specification[ char::len_utf8 ](c: char) -> (r: usize)
    ensures
        r == encode_scalar(c as u32).len(),
        1 <= r <= 4,
;

/// What a cell shows.
pub struct CellModel {
    pub text: Seq<char>,
    pub wide: bool,
    pub continuation: bool,
    pub attrs: AttrsModel,
}

impl CellModel {
    /// A cell with nothing in it.
    pub open spec fn blank() -> Self {
        CellModel::cleared(AttrsModel::plain())
    }

    /// A cell without text, drawn with the given attributes.
    pub open spec fn cleared(attrs: AttrsModel) -> Self {
        CellModel { text: Seq::empty(), wide: false, continuation: false, attrs }
    }

    /// A cell that shows one character.
    pub open spec fn glyph(c: char, wide: bool, attrs: AttrsModel) -> Self {
        CellModel { text: seq![c], wide, continuation: false, attrs }
    }

    /// Whether the cell's text has room for one more character.
    pub open spec fn has_room(self, c: char) -> bool {
        let len = encode_utf8(self.text).len();
        (if len < 1 { 1 } else { len }) + encode_scalar(c as u32).len() <= MAX_CONTENT_BYTES
    }

    /// The cell with a character added to its text, if it has room; an empty
    /// cell counts as a blank one.
    pub open spec fn appended(self, c: char) -> Self {
        if self.has_room(c) {
            let base = if self.text.len() == 0 { seq![' '] } else { self.text };
            CellModel { text: base.push(c), ..self }
        } else {
            self
        }
    }
}

/// Whether a character is drawn across two columns.
pub open spec fn is_wide_char(c: char) -> bool {
    char_columns(c) matches Some(columns) && columns > 1
}

/// Represents a single terminal cell.
#[derive(Debug, PartialEq, Eq)]
pub struct Cell {
    contents: CompactString,
    flags: u8,
    attrs: Attrs,
}

impl View for Cell {
    type V = CellModel;

    closed spec fn view(&self) -> CellModel {
        CellModel {
            text: compact_text(self.contents),
            wide: self.flags & IS_WIDE != 0,
            continuation: self.flags & IS_WIDE_CONTINUATION != 0,
            attrs: self.attrs@,
        }
    }
}

proof fn lemma_flags(f: u8)
    ensures
        0u8 & IS_WIDE == 0,
        0u8 & IS_WIDE_CONTINUATION == 0,
        (f | IS_WIDE) & IS_WIDE != 0,
        (f | IS_WIDE) & IS_WIDE_CONTINUATION == f & IS_WIDE_CONTINUATION,
        (f & !IS_WIDE) & IS_WIDE == 0,
        (f & !IS_WIDE) & IS_WIDE_CONTINUATION == f & IS_WIDE_CONTINUATION,
        (f | IS_WIDE_CONTINUATION) & IS_WIDE_CONTINUATION != 0,
        (f | IS_WIDE_CONTINUATION) & IS_WIDE == f & IS_WIDE,
        (f & !IS_WIDE_CONTINUATION) & IS_WIDE_CONTINUATION == 0,
        (f & !IS_WIDE_CONTINUATION) & IS_WIDE == f & IS_WIDE,
{
    assert(0u8 & 0x80 == 0 && 0u8 & 0x40 == 0
        && (f | 0x80) & 0x80 != 0 && (f | 0x80) & 0x40 == f & 0x40
        && (f & !0x80) & 0x80 == 0 && (f & !0x80) & 0x40 == f & 0x40
        && (f | 0x40) & 0x40 != 0 && (f | 0x40) & 0x80 == f & 0x80
        && (f & !0x40) & 0x40 == 0 && (f & !0x40) & 0x80 == f & 0x80) by (bit_vector);
}

impl Clone for Cell {
    fn clone(&self) -> (r: Self)
        ensures
            r@ == self@,
    {
        Cell { contents: self.contents.clone(), flags: self.flags, attrs: self.attrs }
    }
}

impl Cell {
    pub fn new() -> (r: Self)
        ensures
            r@ == CellModel::blank(),
    {
        proof {
            lemma_flags(0);
        }
        Cell { contents: CompactString::default(), flags: 0, attrs: Attrs::default() }
    }

    /// Whether two cells show the same.
    pub fn same(&self, other: &Cell) -> (r: bool)
        ensures
            r == (self@ == other@),
    {
        let text = same_text(self.contents.as_str(), other.contents.as_str());
        text && self.is_wide() == other.is_wide()
            && self.is_wide_continuation() == other.is_wide_continuation()
            && self.attrs.same(&other.attrs)
    }

    /// Shows one character; its own width says whether it is wide.
    pub fn set(&mut self, c: char, a: Attrs)
        ensures
            final(self)@ == CellModel::glyph(c, is_wide_char(c), a@),
    {
        let wide = match columns_of_char(c) {
            Some(columns) => columns > 1,
            None => false,
        };
        self.set_glyph(c, wide, a);
    }

    /// Shows one character that is wide or not.
    pub fn set_glyph(&mut self, c: char, wide: bool, a: Attrs)
        ensures
            final(self)@ == CellModel::glyph(c, wide, a@),
    {
        self.contents.clear();
        self.contents.push(c);
        self.flags = 0;
        proof {
            lemma_flags(0);
        }
        self.set_wide(wide);
        self.attrs = a;
        assert(self@.text =~= seq![c]);
    }

    /// Whether the cell's text has room for one more character.
    pub fn can_append(&self, c: char) -> (r: bool)
        ensures
            r == self@.has_room(c),
    {
        let len = self.contents.len();
        if len >= MAX_CONTENT_BYTES {
            return false;
        }
        (if len < 1 { 1 } else { len }) + c.len_utf8() <= MAX_CONTENT_BYTES
    }

    /// Adds a character to the cell's text, if there is room for it.
    pub fn append(&mut self, c: char)
        ensures
            final(self)@ == old(self)@.appended(c),
    {
        if !self.can_append(c) {
            return;
        }
        if self.contents.is_empty() {
            self.contents.push(' ');
            assert(compact_text(self.contents) =~= seq![' ']);
        }
        self.contents.push(c);
    }

    /// Removes the text.
    pub fn clear(&mut self, attrs: Attrs)
        ensures
            final(self)@ == CellModel::cleared(attrs@),
    {
        self.contents.clear();
        self.flags = 0;
        proof {
            lemma_flags(0);
        }
        self.attrs = attrs;
    }

    /// Returns the text contents of the cell.
    ///
    /// Holds all characters of the cell's grapheme cluster, such as combining
    /// marks, spacing vowel signs, and joined emoji sequences. Cell text is
    /// limited to 4096 UTF-8 bytes; excess zero-width marks are discarded, and
    /// a following spacing character starts a new cell.
    #[must_use]
    pub fn contents(&self) -> (r: &str)
        ensures
            r@ == self@.text,
    {
        self.contents.as_str()
    }

    /// Returns whether the cell contains any text data.
    #[must_use]
    pub fn has_contents(&self) -> (r: bool)
        ensures
            r == (self@.text.len() > 0),
    {
        !self.contents.is_empty()
    }

    /// Returns whether the text data in the cell represents a wide character.
    #[must_use]
    pub fn is_wide(&self) -> (r: bool)
        ensures
            r == self@.wide,
    {
        self.flags & IS_WIDE != 0
    }

    /// Returns whether the cell contains the second half of a wide character
    /// (in other words, whether the previous cell in the row contains a wide
    /// character).
    #[must_use]
    pub fn is_wide_continuation(&self) -> (r: bool)
        ensures
            r == self@.continuation,
    {
        self.flags & IS_WIDE_CONTINUATION != 0
    }

    pub fn set_wide(&mut self, wide: bool)
        ensures
            final(self)@ == (CellModel { wide: wide, ..old(self)@ }),
    {
        proof {
            lemma_flags(self.flags);
        }
        if wide {
            self.flags = self.flags | IS_WIDE;
        } else {
            self.flags = self.flags & !IS_WIDE;
        }
    }

    pub fn set_wide_continuation(&mut self, wide: bool)
        ensures
            final(self)@ == (CellModel { continuation: wide, ..old(self)@ }),
    {
        proof {
            lemma_flags(self.flags);
        }
        if wide {
            self.flags = self.flags | IS_WIDE_CONTINUATION;
        } else {
            self.flags = self.flags & !IS_WIDE_CONTINUATION;
        }
    }

    pub fn attrs(&self) -> (r: &Attrs)
        ensures
            r@ == self@.attrs,
    {
        &self.attrs
    }

    /// Returns the foreground color of the cell.
    #[must_use]
    pub fn fgcolor(&self) -> (r: Color)
        ensures
            r == self@.attrs.fgcolor,
    {
        self.attrs.fgcolor()
    }

    /// Returns the background color of the cell.
    #[must_use]
    pub fn bgcolor(&self) -> (r: Color)
        ensures
            r == self@.attrs.bgcolor,
    {
        self.attrs.bgcolor()
    }

    /// Returns whether the cell should be rendered with the bold text
    /// attribute.
    #[must_use]
    pub fn bold(&self) -> (r: bool)
        ensures
            r == (self@.attrs.intensity == Intensity::Bold),
    {
        self.attrs.bold()
    }

    /// Returns whether the cell should be rendered with the dim text
    /// attribute.
    #[must_use]
    pub fn dim(&self) -> (r: bool)
        ensures
            r == (self@.attrs.intensity == Intensity::Dim),
    {
        self.attrs.dim()
    }

    /// Returns whether the cell should be rendered with the italic text
    /// attribute.
    #[must_use]
    pub fn italic(&self) -> (r: bool)
        ensures
            r == self@.attrs.italic,
    {
        self.attrs.italic()
    }

    /// Returns whether the cell should be rendered with the underlined text
    /// attribute.
    #[must_use]
    pub fn underline(&self) -> (r: bool)
        ensures
            r == self@.attrs.underline,
    {
        self.attrs.underline()
    }

    /// Returns whether the cell should be rendered with the inverse text
    /// attribute.
    #[must_use]
    pub fn inverse(&self) -> (r: bool)
        ensures
            r == self@.attrs.inverse,
    {
        self.attrs.inverse()
    }

    /// Returns the blink attribute the cell should be rendered with.
    #[must_use]
    pub fn blink(&self) -> (r: Blink)
        ensures
            r == self@.attrs.blink,
    {
        self.attrs.blink()
    }

    /// Returns whether the cell should be concealed (SGR 8).
    #[must_use]
    pub fn hidden(&self) -> (r: bool)
        ensures
            r == self@.attrs.hidden,
    {
        self.attrs.hidden()
    }

    /// Returns whether the cell should be struck through (SGR 9).
    #[must_use]
    pub fn strikeout(&self) -> (r: bool)
        ensures
            r == self@.attrs.strikeout,
    {
        self.attrs.strikeout()
    }

    /// Returns the cell's underline color (SGR 58); `Color::Default` means
    /// the foreground color.
    #[must_use]
    pub fn underline_color(&self) -> (r: Color)
        ensures
            r == self@.attrs.underline_color,
    {
        self.attrs.underline_color()
    }

    /// Returns the string that the text is kept in.
    #[must_use]
    pub fn storage(&self) -> (r: &CompactString)
        ensures
            compact_text(*r) == self@.text,
    {
        &self.contents
    }
}

/// Whether two texts are equal.
pub fn same_text(a: &str, b: &str) -> (r: bool)
    ensures
        r == (a@ == b@),
{
    let left = a.as_bytes();
    let right = b.as_bytes();
    proof {
        encode_utf8_decode_utf8(a@);
        encode_utf8_decode_utf8(b@);
    }
    if left.len() != right.len() {
        return false;
    }
    let mut i: usize = 0;
    while i < left.len()
        invariant
            i <= left.len(),
            left.len() == right.len(),
            left@ == encode_utf8(a@),
            right@ == encode_utf8(b@),
            forall|k: int| 0 <= k < i ==> left@[k] == right@[k],
        decreases left.len() - i,
    {
        if left[i] != right[i] {
            return false;
        }
        i = i + 1;
    }
    assert(left@ =~= right@);
    true
}

/// The text of a cell never outgrows its bound: a glyph starts within it and
/// appending keeps it.
pub proof fn law_cell_text_stays_bounded(cell: CellModel, c: char)
    requires
        encode_utf8(cell.text).len() <= MAX_CONTENT_BYTES,
    ensures
        encode_utf8(cell.appended(c).text).len() <= MAX_CONTENT_BYTES,
{
    let base = if cell.text.len() == 0 { seq![' '] } else { cell.text };
    lemma_encode_push(base, c);
    if cell.text.len() == 0 {
        lemma_encode_push(Seq::empty(), ' ');
        assert(Seq::empty().push(' ') =~= seq![' ']);
        assert(encode_utf8(Seq::<char>::empty()).len() == 0);
        assert(encode_scalar(' ' as u32).len() == 1);
    }
}

/// Text grows by the bytes of the character that is added to it.
pub proof fn lemma_encode_push(text: Seq<char>, c: char)
    ensures
        encode_utf8(text.push(c)) == encode_utf8(text) + encode_scalar(c as u32),
    decreases text.len(),
{
    if text.len() == 0 {
        assert(text.push(c).drop_first() =~= text);
        assert(encode_utf8(text) =~= Seq::<u8>::empty());
        assert(encode_utf8(text.push(c)) =~= encode_utf8(text) + encode_scalar(c as u32));
    } else {
        lemma_encode_push(text.drop_first(), c);
        assert(text.push(c).drop_first() =~= text.drop_first().push(c));
        assert(encode_utf8(text.push(c)) =~= encode_utf8(text) + encode_scalar(c as u32));
    }
}

} // verus!
