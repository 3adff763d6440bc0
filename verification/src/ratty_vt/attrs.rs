//! Drawing attributes of a cell and of newly drawn text.

use crate::ratty_vt::term;
use crate::ratty_vt::term::BufWrite;
use vstd::prelude::*;

verus! {

/// A foreground, background or underline color.
#[derive(Copy, Clone, Debug, PartialEq, Eq, Structural)]
pub enum Color {
    /// The default terminal color.
    Default,
    /// An indexed terminal color.
    Idx(u8),
    /// An RGB terminal color. The parameters are (red, green, blue).
    Rgb(u8, u8, u8),
}

impl Default for Color {
    fn default() -> (r: Self)
        ensures
            r == Color::Default,
    {
        Color::Default
    }
}

/// The blink attribute of a cell or of newly drawn text.
#[derive(Copy, Clone, Debug, PartialEq, Eq, Structural)]
pub enum Blink {
    /// Not blinking (SGR 25).
    Steady,
    /// Slow blink (SGR 5).
    Slow,
    /// Rapid blink (SGR 6).
    Rapid,
}

impl Default for Blink {
    fn default() -> (r: Self)
        ensures
            r == Blink::Steady,
    {
        Blink::Steady
    }
}

/// Font weight of a cell: bold and dim exclude each other.
#[derive(Copy, Clone, Debug, PartialEq, Eq, Structural)]
pub enum Intensity {
    Normal,
    Bold,
    Dim,
}

pub const TEXT_MODE_INTENSITY: u16 = 0b0000_0011;
pub const TEXT_MODE_BOLD: u16 = 0b0000_0001;
pub const TEXT_MODE_DIM: u16 = 0b0000_0010;
pub const TEXT_MODE_ITALIC: u16 = 0b0000_0100;
pub const TEXT_MODE_UNDERLINE: u16 = 0b0000_1000;
pub const TEXT_MODE_INVERSE: u16 = 0b0001_0000;
pub const TEXT_MODE_BLINK: u16 = 0b0110_0000;
pub const TEXT_MODE_BLINK_SLOW: u16 = 0b0010_0000;
pub const TEXT_MODE_BLINK_RAPID: u16 = 0b0100_0000;
pub const TEXT_MODE_HIDDEN: u16 = 0b1000_0000;
pub const TEXT_MODE_STRIKEOUT: u16 = 0b0001_0000_0000;
/// Every bit that some attribute uses.
pub const TEXT_MODE_ALL: u16 = 0b0001_1111_1111;

/// What a set of drawing attributes says, without its packing.
pub struct AttrsModel {
    pub fgcolor: Color,
    pub bgcolor: Color,
    pub underline_color: Color,
    pub intensity: Intensity,
    pub italic: bool,
    pub underline: bool,
    pub inverse: bool,
    pub blink: Blink,
    pub hidden: bool,
    pub strikeout: bool,
}

impl AttrsModel {
    /// The attributes of a freshly reset terminal.
    pub open spec fn plain() -> Self {
        AttrsModel {
            fgcolor: Color::Default,
            bgcolor: Color::Default,
            underline_color: Color::Default,
            intensity: Intensity::Normal,
            italic: false,
            underline: false,
            inverse: false,
            blink: Blink::Steady,
            hidden: false,
            strikeout: false,
        }
    }
}

pub open spec fn intensity_of(mode: u16) -> Intensity {
    if mode & TEXT_MODE_BOLD != 0 {
        Intensity::Bold
    } else if mode & TEXT_MODE_DIM != 0 {
        Intensity::Dim
    } else {
        Intensity::Normal
    }
}

pub open spec fn blink_of(mode: u16) -> Blink {
    if mode & TEXT_MODE_BLINK_SLOW != 0 {
        Blink::Slow
    } else if mode & TEXT_MODE_BLINK_RAPID != 0 {
        Blink::Rapid
    } else {
        Blink::Steady
    }
}

/// A mode word that the setters can produce: bold excludes dim, slow blink
/// excludes rapid blink, and no bit without a meaning is set.
pub open spec fn mode_wf(mode: u16) -> bool {
    &&& mode & TEXT_MODE_INTENSITY != TEXT_MODE_INTENSITY
    &&& mode & TEXT_MODE_BLINK != TEXT_MODE_BLINK
    &&& mode & TEXT_MODE_ALL == mode
}

/// Drawing attributes, packed: three colors and one bit or two per text mode.
#[derive(Copy, Clone, Debug, PartialEq, Eq, Structural)]
pub struct Attrs {
    fgcolor: Color,
    bgcolor: Color,
    underline_color: Color,
    mode: u16,
}

impl View for Attrs {
    type V = AttrsModel;

    closed spec fn view(&self) -> AttrsModel {
        AttrsModel {
            fgcolor: self.fgcolor,
            bgcolor: self.bgcolor,
            underline_color: self.underline_color,
            intensity: intensity_of(self.mode),
            italic: self.mode & TEXT_MODE_ITALIC != 0,
            underline: self.mode & TEXT_MODE_UNDERLINE != 0,
            inverse: self.mode & TEXT_MODE_INVERSE != 0,
            blink: blink_of(self.mode),
            hidden: self.mode & TEXT_MODE_HIDDEN != 0,
            strikeout: self.mode & TEXT_MODE_STRIKEOUT != 0,
        }
    }
}

impl Default for Attrs {
    fn default() -> (r: Self)
        ensures
            r@ == AttrsModel::plain(),
    {
        proof {
            lemma_zero_mode();
        }
        Attrs {
            fgcolor: Color::Default,
            bgcolor: Color::Default,
            underline_color: Color::Default,
            mode: 0,
        }
    }
}

proof fn lemma_zero_mode()
    ensures
        mode_wf(0),
        intensity_of(0) == Intensity::Normal,
        blink_of(0) == Blink::Steady,
        0u16 & TEXT_MODE_ITALIC == 0,
        0u16 & TEXT_MODE_UNDERLINE == 0,
        0u16 & TEXT_MODE_INVERSE == 0,
        0u16 & TEXT_MODE_HIDDEN == 0,
        0u16 & TEXT_MODE_STRIKEOUT == 0,
{
    assert(forall|k: u16| 0u16 & k == 0) by (bit_vector);
}

/// Two mode words that the setters can produce and that say the same are the
/// same word.
proof fn lemma_mode_injective(a: u16, b: u16)
    requires
        mode_wf(a),
        mode_wf(b),
        intensity_of(a) == intensity_of(b),
        blink_of(a) == blink_of(b),
        (a & TEXT_MODE_ITALIC != 0) == (b & TEXT_MODE_ITALIC != 0),
        (a & TEXT_MODE_UNDERLINE != 0) == (b & TEXT_MODE_UNDERLINE != 0),
        (a & TEXT_MODE_INVERSE != 0) == (b & TEXT_MODE_INVERSE != 0),
        (a & TEXT_MODE_HIDDEN != 0) == (b & TEXT_MODE_HIDDEN != 0),
        (a & TEXT_MODE_STRIKEOUT != 0) == (b & TEXT_MODE_STRIKEOUT != 0),
    ensures
        a == b,
{
    lemma_exclusive(a);
    lemma_exclusive(b);
    assert(a & 0x1ff == a && b & 0x1ff == b
        && (a & 1 != 0) == (b & 1 != 0) && (a & 2 != 0) == (b & 2 != 0)
        && (a & 4 != 0) == (b & 4 != 0) && (a & 8 != 0) == (b & 8 != 0)
        && (a & 0x10 != 0) == (b & 0x10 != 0) && (a & 0x20 != 0) == (b & 0x20 != 0)
        && (a & 0x40 != 0) == (b & 0x40 != 0) && (a & 0x80 != 0) == (b & 0x80 != 0)
        && (a & 0x100 != 0) == (b & 0x100 != 0) ==> a == b) by (bit_vector);
}

proof fn lemma_exclusive(m: u16)
    requires
        mode_wf(m),
    ensures
        !(m & TEXT_MODE_BOLD != 0 && m & TEXT_MODE_DIM != 0),
        !(m & TEXT_MODE_BLINK_SLOW != 0 && m & TEXT_MODE_BLINK_RAPID != 0),
{
    assert(m & 0x3 != 0x3 ==> !(m & 1 != 0 && m & 2 != 0)) by (bit_vector);
    assert(m & 0x60 != 0x60 ==> !(m & 0x20 != 0 && m & 0x40 != 0)) by (bit_vector);
}

/// Replacing the bits under `mask` by `value`.
pub open spec fn replaced(mode: u16, mask: u16, value: u16) -> u16 {
    (mode & !mask) | value
}

/// Replacing the bits under one mask leaves every other bit alone.
proof fn lemma_replaced(m: u16, mask: u16, value: u16)
    requires
        value & mask == value,
    ensures
        replaced(m, mask, value) & mask == value,
        forall|other: u16| other & mask == 0 ==> #[trigger] (replaced(m, mask, value) & other) == m & other,
{
    assert(value & mask == value ==> ((m & !mask) | value) & mask == value) by (bit_vector);
    assert forall|other: u16| other & mask == 0 implies #[trigger] (replaced(m, mask, value) & other) == m & other by {
        assert(value & mask == value && other & mask == 0 ==> ((m & !mask) | value) & other == m & other) by (bit_vector);
    }
}

/// The masks of different attributes share no bit.
proof fn lemma_masks()
    ensures
        forall|a: u16, b: u16| #![trigger a & b] is_mask(a) && is_mask(b) && a != b ==> a & b == 0,
        TEXT_MODE_BOLD & TEXT_MODE_INTENSITY == TEXT_MODE_BOLD,
        TEXT_MODE_DIM & TEXT_MODE_INTENSITY == TEXT_MODE_DIM,
        TEXT_MODE_BLINK_SLOW & TEXT_MODE_BLINK == TEXT_MODE_BLINK_SLOW,
        TEXT_MODE_BLINK_RAPID & TEXT_MODE_BLINK == TEXT_MODE_BLINK_RAPID,
        forall|a: u16| #![trigger 0u16 & a] 0u16 & a == 0,
        forall|a: u16| #![trigger a & a] a & a == a,
{
    assert forall|a: u16, b: u16| #![trigger a & b] is_mask(a) && is_mask(b) && a != b implies a & b == 0 by {
        assert((a == 0x3 || a == 4 || a == 8 || a == 0x10 || a == 0x60 || a == 0x80 || a == 0x100)
            && (b == 0x3 || b == 4 || b == 8 || b == 0x10 || b == 0x60 || b == 0x80 || b == 0x100)
            && a != b ==> a & b == 0) by (bit_vector);
    }
    assert(1u16 & 3 == 1 && 2u16 & 3 == 2 && 0x20u16 & 0x60 == 0x20 && 0x40u16 & 0x60 == 0x40) by (bit_vector);
    assert(forall|a: u16| #![trigger 0u16 & a] 0u16 & a == 0) by (bit_vector);
    assert(forall|a: u16| #![trigger a & a] a & a == a) by (bit_vector);
}

/// The bits of one attribute.
pub open spec fn is_mask(mask: u16) -> bool {
    ||| mask == TEXT_MODE_INTENSITY
    ||| mask == TEXT_MODE_ITALIC
    ||| mask == TEXT_MODE_UNDERLINE
    ||| mask == TEXT_MODE_INVERSE
    ||| mask == TEXT_MODE_BLINK
    ||| mask == TEXT_MODE_HIDDEN
    ||| mask == TEXT_MODE_STRIKEOUT
}

/// Intensity and blink read the bits under their mask only.
proof fn lemma_fields(m: u16)
    ensures
        m & TEXT_MODE_BOLD == (m & TEXT_MODE_INTENSITY) & TEXT_MODE_BOLD,
        m & TEXT_MODE_DIM == (m & TEXT_MODE_INTENSITY) & TEXT_MODE_DIM,
        m & TEXT_MODE_BLINK_SLOW == (m & TEXT_MODE_BLINK) & TEXT_MODE_BLINK_SLOW,
        m & TEXT_MODE_BLINK_RAPID == (m & TEXT_MODE_BLINK) & TEXT_MODE_BLINK_RAPID,
{
    assert(m & 1 == (m & 3) & 1 && m & 2 == (m & 3) & 2) by (bit_vector);
    assert(m & 0x20 == (m & 0x60) & 0x20 && m & 0x40 == (m & 0x60) & 0x40) by (bit_vector);
}

/// Replacing one attribute's bits keeps a mode word that the setters can
/// produce, and keeps what the other attributes read.
proof fn lemma_set(m: u16, mask: u16, value: u16)
    requires
        mode_wf(m),
        is_mask(mask),
        value & mask == value,
        value != TEXT_MODE_INTENSITY,
        value != TEXT_MODE_BLINK,
    ensures
        mode_wf(replaced(m, mask, value)),
        replaced(m, mask, value) & mask == value,
        forall|other: u16| is_mask(other) && other != mask ==> #[trigger] (replaced(m, mask, value) & other) == m & other,
        mask != TEXT_MODE_INTENSITY ==> intensity_of(replaced(m, mask, value)) == intensity_of(m),
        mask != TEXT_MODE_BLINK ==> blink_of(replaced(m, mask, value)) == blink_of(m),
{
    let n = replaced(m, mask, value);
    lemma_replaced(m, mask, value);
    lemma_masks();
    lemma_fields(m);
    lemma_fields(n);
    assert forall|other: u16| is_mask(other) && other != mask implies #[trigger] (replaced(m, mask, value) & other) == m & other by {
        assert(other & mask == 0);
    }
    assert(m & 0x1ff == m && value & mask == value && mask & 0x1ff == mask
        ==> ((m & !mask) | value) & 0x1ff == ((m & !mask) | value)) by (bit_vector);
    assert(3u16 & 0x1ff == 3 && 4u16 & 0x1ff == 4 && 8u16 & 0x1ff == 8 && 0x10u16 & 0x1ff == 0x10
        && 0x60u16 & 0x1ff == 0x60 && 0x80u16 & 0x1ff == 0x80 && 0x100u16 & 0x1ff == 0x100) by (bit_vector);
    assert(mask & TEXT_MODE_ALL == mask);
    assert(n & TEXT_MODE_INTENSITY != TEXT_MODE_INTENSITY);
    assert(n & TEXT_MODE_BLINK != TEXT_MODE_BLINK);
}

/// The attributes in which `to` differs from `from`, as changes.
pub open spec fn attrs_changes(to: AttrsModel, from: AttrsModel) -> term::Attrs {
    term::Attrs {
        fgcolor: if to.fgcolor == from.fgcolor { None } else { Some(to.fgcolor) },
        bgcolor: if to.bgcolor == from.bgcolor { None } else { Some(to.bgcolor) },
        underline_color: if to.underline_color == from.underline_color { None } else { Some(to.underline_color) },
        intensity: if to.intensity == from.intensity { None } else { Some(to.intensity) },
        italic: if to.italic == from.italic { None } else { Some(to.italic) },
        underline: if to.underline == from.underline { None } else { Some(to.underline) },
        inverse: if to.inverse == from.inverse { None } else { Some(to.inverse) },
        blink: if to.blink == from.blink { None } else { Some(to.blink) },
        hidden: if to.hidden == from.hidden { None } else { Some(to.hidden) },
        strikeout: if to.strikeout == from.strikeout { None } else { Some(to.strikeout) },
    }
}

/// The escape sequence that turns the attributes `from` into `to`: a bare SGR
/// when that resets everything, else one parameter list with the attributes
/// that differ, else nothing.
pub open spec fn attrs_diff(to: AttrsModel, from: AttrsModel) -> Seq<u8> {
    if to != from && to == AttrsModel::plain() {
        term::ascii("\x1b[m")
    } else {
        term::sgr_sequence(attrs_changes(to, from).params())
    }
}

/// Equal attributes need no escape sequence.
pub proof fn law_equal_attrs_write_nothing(a: AttrsModel)
    ensures
        attrs_diff(a, a) == Seq::<u8>::empty(),
{
    assert(attrs_changes(a, a).params() =~= Seq::<u16>::empty());
}

/// Different attributes always need one: something is sent exactly when the
/// attributes differ.
pub proof fn law_different_attrs_write_something(a: AttrsModel, b: AttrsModel)
    requires
        a != b,
    ensures
        attrs_diff(a, b).len() > 0,
{
    if a == AttrsModel::plain() {
        reveal_strlit("\x1b[m");
        vstd::utf8::encode_utf8_first_scalar("\x1b[m"@);
    } else {
        lemma_changes_not_empty(a, b);
        assert(term::ascii("\x1b[").len() > 0) by {
            reveal_strlit("\x1b[");
            vstd::utf8::encode_utf8_first_scalar("\x1b["@);
        }
    }
}

proof fn lemma_changes_not_empty(a: AttrsModel, b: AttrsModel)
    requires
        a != b,
    ensures
        attrs_changes(a, b).params().len() > 0,
{
    let c = attrs_changes(a, b);
    let colors = (match c.fgcolor {
        Some(color) => term::color_params(color, 30),
        None => Seq::empty(),
    }) + (match c.bgcolor {
        Some(color) => term::color_params(color, 40),
        None => Seq::empty(),
    }) + (match c.underline_color {
        Some(color) => term::underline_color_params(color),
        None => Seq::empty(),
    });
    let weight = colors + (match c.intensity {
        Some(intensity) => seq![term::intensity_param(intensity)],
        None => Seq::empty(),
    });
    let flags = weight + term::flag_params(c.italic, 3) + term::flag_params(c.underline, 4)
        + term::flag_params(c.inverse, 7);
    let blinking = flags + (match c.blink {
        Some(blink) => seq![term::blink_param(blink)],
        None => Seq::empty(),
    });
    assert(c.params() == blinking + term::flag_params(c.hidden, 8) + term::flag_params(c.strikeout, 9));
    if a.fgcolor != b.fgcolor || a.bgcolor != b.bgcolor || a.underline_color != b.underline_color {
        assert(colors.len() > 0);
    } else if a.intensity != b.intensity {
        assert(weight.len() > 0);
    } else if a.italic != b.italic || a.underline != b.underline || a.inverse != b.inverse {
        assert(flags.len() > 0);
    } else if a.blink != b.blink {
        assert(blinking.len() > 0);
    }
}

impl Attrs {
    #[verifier::type_invariant]
    spec fn inv(self) -> bool {
        mode_wf(self.mode)
    }

    /// Whether two sets of attributes say the same.
    pub fn same(&self, other: &Attrs) -> (r: bool)
        ensures
            r == (self@ == other@),
    {
        proof {
            use_type_invariant(self);
            use_type_invariant(other);
            if self@ == other@ {
                lemma_mode_injective(self.mode, other.mode);
            }
        }
        *self == *other
    }

    pub fn fgcolor(&self) -> (r: Color)
        ensures
            r == self@.fgcolor,
    {
        self.fgcolor
    }

    pub fn set_fgcolor(&mut self, color: Color)
        ensures
            final(self)@ == (AttrsModel { fgcolor: color, ..old(self)@ }),
    {
        proof {
            use_type_invariant(&*self);
        }
        self.fgcolor = color;
    }

    pub fn bgcolor(&self) -> (r: Color)
        ensures
            r == self@.bgcolor,
    {
        self.bgcolor
    }

    pub fn set_bgcolor(&mut self, color: Color)
        ensures
            final(self)@ == (AttrsModel { bgcolor: color, ..old(self)@ }),
    {
        proof {
            use_type_invariant(&*self);
        }
        self.bgcolor = color;
    }

    pub fn underline_color(&self) -> (r: Color)
        ensures
            r == self@.underline_color,
    {
        self.underline_color
    }

    pub fn set_underline_color(&mut self, color: Color)
        ensures
            final(self)@ == (AttrsModel { underline_color: color, ..old(self)@ }),
    {
        proof {
            use_type_invariant(&*self);
        }
        self.underline_color = color;
    }

    pub fn bold(&self) -> (r: bool)
        ensures
            r == (self@.intensity == Intensity::Bold),
    {
        self.mode & TEXT_MODE_BOLD != 0
    }

    pub fn dim(&self) -> (r: bool)
        ensures
            r == (self@.intensity == Intensity::Dim),
    {
        proof {
            use_type_invariant(self);
            lemma_exclusive(self.mode);
        }
        self.mode & TEXT_MODE_DIM != 0
    }

    pub fn intensity(&self) -> (r: Intensity)
        ensures
            r == self@.intensity,
    {
        if self.bold() {
            Intensity::Bold
        } else if self.dim() {
            Intensity::Dim
        } else {
            Intensity::Normal
        }
    }

    pub fn set_bold(&mut self)
        ensures
            final(self)@ == (AttrsModel { intensity: Intensity::Bold, ..old(self)@ }),
    {
        proof {
            use_type_invariant(&*self);
            lemma_masks();
            lemma_set(self.mode, TEXT_MODE_INTENSITY, TEXT_MODE_BOLD);
            lemma_fields(replaced(self.mode, TEXT_MODE_INTENSITY, TEXT_MODE_BOLD));
        }
        self.mode = (self.mode & !TEXT_MODE_INTENSITY) | TEXT_MODE_BOLD;
    }

    pub fn set_dim(&mut self)
        ensures
            final(self)@ == (AttrsModel { intensity: Intensity::Dim, ..old(self)@ }),
    {
        proof {
            use_type_invariant(&*self);
            lemma_masks();
            lemma_set(self.mode, TEXT_MODE_INTENSITY, TEXT_MODE_DIM);
            lemma_fields(replaced(self.mode, TEXT_MODE_INTENSITY, TEXT_MODE_DIM));
            assert(2u16 & 1 == 0) by (bit_vector);
        }
        self.mode = (self.mode & !TEXT_MODE_INTENSITY) | TEXT_MODE_DIM;
    }

    pub fn set_normal_intensity(&mut self)
        ensures
            final(self)@ == (AttrsModel { intensity: Intensity::Normal, ..old(self)@ }),
    {
        proof {
            use_type_invariant(&*self);
            lemma_masks();
            lemma_set(self.mode, TEXT_MODE_INTENSITY, 0);
            lemma_fields(replaced(self.mode, TEXT_MODE_INTENSITY, 0));
            lemma_or_zero(self.mode & !TEXT_MODE_INTENSITY);
        }
        self.mode = self.mode & !TEXT_MODE_INTENSITY;
    }

    pub fn italic(&self) -> (r: bool)
        ensures
            r == self@.italic,
    {
        self.mode & TEXT_MODE_ITALIC != 0
    }

    pub fn set_italic(&mut self, italic: bool)
        ensures
            final(self)@ == (AttrsModel { italic: italic, ..old(self)@ }),
    {
        self.set_flag(TEXT_MODE_ITALIC, italic);
    }

    pub fn underline(&self) -> (r: bool)
        ensures
            r == self@.underline,
    {
        self.mode & TEXT_MODE_UNDERLINE != 0
    }

    pub fn set_underline(&mut self, underline: bool)
        ensures
            final(self)@ == (AttrsModel { underline: underline, ..old(self)@ }),
    {
        self.set_flag(TEXT_MODE_UNDERLINE, underline);
    }

    pub fn inverse(&self) -> (r: bool)
        ensures
            r == self@.inverse,
    {
        self.mode & TEXT_MODE_INVERSE != 0
    }

    pub fn set_inverse(&mut self, inverse: bool)
        ensures
            final(self)@ == (AttrsModel { inverse: inverse, ..old(self)@ }),
    {
        self.set_flag(TEXT_MODE_INVERSE, inverse);
    }

    pub fn blink(&self) -> (r: Blink)
        ensures
            r == self@.blink,
    {
        if self.mode & TEXT_MODE_BLINK_SLOW != 0 {
            Blink::Slow
        } else if self.mode & TEXT_MODE_BLINK_RAPID != 0 {
            Blink::Rapid
        } else {
            Blink::Steady
        }
    }

    pub fn set_blink(&mut self, blink: Blink)
        ensures
            final(self)@ == (AttrsModel { blink: blink, ..old(self)@ }),
    {
        let value: u16 = match blink {
            Blink::Steady => 0,
            Blink::Slow => TEXT_MODE_BLINK_SLOW,
            Blink::Rapid => TEXT_MODE_BLINK_RAPID,
        };
        proof {
            use_type_invariant(&*self);
            lemma_masks();
            lemma_set(self.mode, TEXT_MODE_BLINK, value);
            lemma_fields(replaced(self.mode, TEXT_MODE_BLINK, value));
            assert(0x40u16 & 0x20 == 0) by (bit_vector);
        }
        self.mode = (self.mode & !TEXT_MODE_BLINK) | value;
    }

    pub fn hidden(&self) -> (r: bool)
        ensures
            r == self@.hidden,
    {
        self.mode & TEXT_MODE_HIDDEN != 0
    }

    pub fn set_hidden(&mut self, hidden: bool)
        ensures
            final(self)@ == (AttrsModel { hidden: hidden, ..old(self)@ }),
    {
        self.set_flag(TEXT_MODE_HIDDEN, hidden);
    }

    pub fn strikeout(&self) -> (r: bool)
        ensures
            r == self@.strikeout,
    {
        self.mode & TEXT_MODE_STRIKEOUT != 0
    }

    pub fn set_strikeout(&mut self, strikeout: bool)
        ensures
            final(self)@ == (AttrsModel { strikeout: strikeout, ..old(self)@ }),
    {
        self.set_flag(TEXT_MODE_STRIKEOUT, strikeout);
    }

    /// Writes the escape sequence that turns the attributes `other` into these.
    pub fn write_escape_code_diff(&self, contents: &mut Vec<u8>, other: &Attrs)
        ensures
            final(contents)@ == old(contents)@ + attrs_diff(self@, other@),
    {
        if !self.same(other) && self.same(&Attrs::default()) {
            term::ClearAttrs.write_buf(contents);
            return;
        }
        let attrs = term::Attrs {
            fgcolor: if self.fgcolor == other.fgcolor { None } else { Some(self.fgcolor) },
            bgcolor: if self.bgcolor == other.bgcolor { None } else { Some(self.bgcolor) },
            underline_color: if self.underline_color == other.underline_color {
                None
            } else {
                Some(self.underline_color)
            },
            intensity: if self.intensity() == other.intensity() {
                None
            } else {
                Some(self.intensity())
            },
            italic: if self.italic() == other.italic() { None } else { Some(self.italic()) },
            underline: if self.underline() == other.underline() {
                None
            } else {
                Some(self.underline())
            },
            inverse: if self.inverse() == other.inverse() { None } else { Some(self.inverse()) },
            blink: if self.blink() == other.blink() { None } else { Some(self.blink()) },
            hidden: if self.hidden() == other.hidden() { None } else { Some(self.hidden()) },
            strikeout: if self.strikeout() == other.strikeout() {
                None
            } else {
                Some(self.strikeout())
            },
        };
        assert(attrs == attrs_changes(self@, other@));
        attrs.write_buf(contents);
    }

    /// Sets or clears an attribute that has one bit.
    fn set_flag(&mut self, mask: u16, on: bool)
        requires
            is_mask(mask),
            mask != TEXT_MODE_INTENSITY,
            mask != TEXT_MODE_BLINK,
        ensures
            final(self)@ == (AttrsModel {
                italic: if mask == TEXT_MODE_ITALIC { on } else { old(self)@.italic },
                underline: if mask == TEXT_MODE_UNDERLINE { on } else { old(self)@.underline },
                inverse: if mask == TEXT_MODE_INVERSE { on } else { old(self)@.inverse },
                hidden: if mask == TEXT_MODE_HIDDEN { on } else { old(self)@.hidden },
                strikeout: if mask == TEXT_MODE_STRIKEOUT { on } else { old(self)@.strikeout },
                ..old(self)@
            }),
    {
        proof {
            use_type_invariant(&*self);
            lemma_masks();
            lemma_set(self.mode, mask, if on { mask } else { 0 });
            lemma_or_zero(self.mode & !mask);
            assert forall|m: u16| (m & !mask) | mask == m | mask by {
                assert((m & !mask) | mask == m | mask) by (bit_vector);
            }
        }
        if on {
            self.mode = self.mode | mask;
        } else {
            self.mode = self.mode & !mask;
        }
    }
}

proof fn lemma_or_zero(m: u16)
    ensures
        m | 0 == m,
{
    assert(m | 0 == m) by (bit_vector);
}

} // verus!
