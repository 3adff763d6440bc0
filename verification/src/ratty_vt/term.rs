//! Escape sequences, as the bytes that a terminal is sent.

use crate::ratty_vt::attrs::{Blink, Color, Intensity};
use crate::ratty_vt::grid::Pos;
use crate::ratty_vt::screen::{MouseProtocolEncoding, MouseProtocolMode};
use vstd::prelude::*;
use vstd::utf8::{encode_utf8, is_ascii_chars_encode_utf8};

verus! {

/// Something that stands for a sequence of terminal bytes.
pub trait BufWrite {
    /// The bytes it stands for.
    spec fn bytes(&self) -> Seq<u8>;

    fn write_buf(&self, buf: &mut Vec<u8>)
        ensures
            final(buf)@ == old(buf)@ + self.bytes(),
    ;
}

/// The UTF-8 bytes of some text.
pub open spec fn ascii(text: &str) -> Seq<u8> {
    encode_utf8(text@)
}

/// Text of ASCII is one byte for each character.
pub proof fn lemma_ascii_bytes(text: Seq<char>)
    requires
        forall|i: int| 0 <= i < text.len() ==> 0 <= #[trigger] text[i] < 128,
    ensures
        encode_utf8(text) == Seq::new(text.len(), |i: int| text[i] as u8),
{
    is_ascii_chars_encode_utf8(text);
    assert(encode_utf8(text) =~= Seq::new(text.len(), |i: int| text[i] as u8));
}

/// Appends bytes to a buffer.
pub fn push_bytes(buf: &mut Vec<u8>, bytes: &[u8])
    ensures
        final(buf)@ == old(buf)@ + bytes@,
{
    buf.extend_from_slice(bytes);
    assert(buf@ =~= old(buf)@ + bytes@);
}

/// Appends the UTF-8 bytes of some text to a buffer.
pub fn push_str(buf: &mut Vec<u8>, text: &str)
    ensures
        final(buf)@ == old(buf)@ + encode_utf8(text@),
{
    push_bytes(buf, text.as_bytes());
}

/// The decimal digits of a number, most significant first.
pub open spec fn decimal(n: nat) -> Seq<u8>
    decreases n,
{
    if n < 10 {
        seq![(48 + n) as u8]
    } else {
        decimal(n / 10).push((48 + n % 10) as u8)
    }
}

/// Appends the decimal digits of a number to a buffer.
pub fn extend_itoa(buf: &mut Vec<u8>, i: u32)
    ensures
        final(buf)@ == old(buf)@ + decimal(i as nat),
    decreases i,
{
    if i >= 10 {
        extend_itoa(buf, i / 10);
    }
    buf.push(48 + (i % 10) as u8);
    assert(buf@ =~= old(buf)@ + decimal(i as nat));
}

pub struct ClearScreen;

impl BufWrite for ClearScreen {
    open spec fn bytes(&self) -> Seq<u8> {
        ascii("\x1b[H\x1b[J")
    }

    fn write_buf(&self, buf: &mut Vec<u8>) {
        push_str(buf, "\x1b[H\x1b[J");
    }
}

pub struct ClearRowForward;

impl BufWrite for ClearRowForward {
    open spec fn bytes(&self) -> Seq<u8> {
        ascii("\x1b[K")
    }

    fn write_buf(&self, buf: &mut Vec<u8>) {
        push_str(buf, "\x1b[K");
    }
}

pub struct Crlf;

impl BufWrite for Crlf {
    open spec fn bytes(&self) -> Seq<u8> {
        ascii("\r\n")
    }

    fn write_buf(&self, buf: &mut Vec<u8>) {
        push_str(buf, "\r\n");
    }
}

pub struct Backspace;

impl BufWrite for Backspace {
    open spec fn bytes(&self) -> Seq<u8> {
        ascii("\x08")
    }

    fn write_buf(&self, buf: &mut Vec<u8>) {
        push_str(buf, "\x08");
    }
}

pub struct SaveCursor;

impl BufWrite for SaveCursor {
    open spec fn bytes(&self) -> Seq<u8> {
        ascii("\x1b7")
    }

    fn write_buf(&self, buf: &mut Vec<u8>) {
        push_str(buf, "\x1b7");
    }
}

pub struct RestoreCursor;

impl BufWrite for RestoreCursor {
    open spec fn bytes(&self) -> Seq<u8> {
        ascii("\x1b8")
    }

    fn write_buf(&self, buf: &mut Vec<u8>) {
        push_str(buf, "\x1b8");
    }
}

/// Moves the cursor to a position, counted from zero.
pub struct MoveTo {
    pub row: u16,
    pub col: u16,
}

impl MoveTo {
    pub fn new(pos: Pos) -> (r: Self)
        ensures
            r == (MoveTo { row: pos.row, col: pos.col }),
    {
        MoveTo { row: pos.row, col: pos.col }
    }
}

pub open spec fn move_to(pos: Pos) -> Seq<u8> {
    if pos.row == 0 && pos.col == 0 {
        ascii("\x1b[H")
    } else {
        ascii("\x1b[") + decimal((pos.row + 1) as nat) + ascii(";") + decimal((pos.col + 1) as nat)
            + ascii("H")
    }
}

impl BufWrite for MoveTo {
    open spec fn bytes(&self) -> Seq<u8> {
        move_to(Pos { row: self.row, col: self.col })
    }

    fn write_buf(&self, buf: &mut Vec<u8>) {
        if self.row == 0 && self.col == 0 {
            push_str(buf, "\x1b[H");
        } else {
            push_str(buf, "\x1b[");
            extend_itoa(buf, self.row as u32 + 1);
            push_str(buf, ";");
            extend_itoa(buf, self.col as u32 + 1);
            push_str(buf, "H");
        }
        assert(buf@ =~= old(buf)@ + self.bytes());
    }
}

pub struct ClearAttrs;

impl BufWrite for ClearAttrs {
    open spec fn bytes(&self) -> Seq<u8> {
        ascii("\x1b[m")
    }

    fn write_buf(&self, buf: &mut Vec<u8>) {
        push_str(buf, "\x1b[m");
    }
}

/// The attributes to change in one SGR sequence; `None` leaves one alone.
pub struct Attrs {
    pub fgcolor: Option<Color>,
    pub bgcolor: Option<Color>,
    pub underline_color: Option<Color>,
    pub intensity: Option<Intensity>,
    pub italic: Option<bool>,
    pub underline: Option<bool>,
    pub inverse: Option<bool>,
    pub blink: Option<Blink>,
    pub hidden: Option<bool>,
    pub strikeout: Option<bool>,
}

impl Default for Attrs {
    fn default() -> (r: Self)
        ensures
            r.params() == Seq::<u16>::empty(),
            r == (Attrs {
                fgcolor: None,
                bgcolor: None,
                underline_color: None,
                intensity: None,
                italic: None,
                underline: None,
                inverse: None,
                blink: None,
                hidden: None,
                strikeout: None,
            }),
    {
        let r = Attrs {
            fgcolor: None,
            bgcolor: None,
            underline_color: None,
            intensity: None,
            italic: None,
            underline: None,
            inverse: None,
            blink: None,
            hidden: None,
            strikeout: None,
        };
        assert(r.params() =~= Seq::<u16>::empty());
        r
    }
}

/// The SGR parameters that select a foreground (`base` 30) or background
/// (`base` 40) color.
pub open spec fn color_params(color: Color, base: int) -> Seq<u16> {
    match color {
        Color::Default => seq![(base + 9) as u16],
        Color::Idx(i) => if i < 8 {
            seq![(base + i) as u16]
        } else if i < 16 {
            seq![(base + 52 + i) as u16]
        } else {
            seq![(base + 8) as u16, 5u16, i as u16]
        },
        Color::Rgb(r, g, b) => seq![(base + 8) as u16, 2u16, r as u16, g as u16, b as u16],
    }
}

/// The SGR parameters that select an underline color, which has no short form.
pub open spec fn underline_color_params(color: Color) -> Seq<u16> {
    match color {
        Color::Default => seq![59u16],
        Color::Idx(i) => seq![58u16, 5u16, i as u16],
        Color::Rgb(r, g, b) => seq![58u16, 2u16, r as u16, g as u16, b as u16],
    }
}

pub open spec fn intensity_param(intensity: Intensity) -> u16 {
    match intensity {
        Intensity::Normal => 22,
        Intensity::Bold => 1,
        Intensity::Dim => 2,
    }
}

pub open spec fn blink_param(blink: Blink) -> u16 {
    match blink {
        Blink::Steady => 25,
        Blink::Slow => 5,
        Blink::Rapid => 6,
    }
}

/// The parameter of an attribute that is set by `on` and cleared by `on + 20`.
pub open spec fn flag_params(flag: Option<bool>, on: int) -> Seq<u16> {
    match flag {
        None => Seq::empty(),
        Some(true) => seq![on as u16],
        Some(false) => seq![(on + 20) as u16],
    }
}

/// SGR parameters, separated by semicolons.
pub open spec fn joined_params(params: Seq<u16>) -> Seq<u8>
    decreases params.len(),
{
    if params.len() == 0 {
        Seq::empty()
    } else if params.len() == 1 {
        decimal(params[0] as nat)
    } else {
        joined_params(params.drop_last()) + ascii(";") + decimal(params.last() as nat)
    }
}

/// One SGR sequence; no parameters, no sequence.
pub open spec fn sgr_sequence(params: Seq<u16>) -> Seq<u8> {
    if params.len() == 0 {
        Seq::empty()
    } else {
        ascii("\x1b[") + joined_params(params) + ascii("m")
    }
}

impl Attrs {
    /// The parameters, in the order in which they are sent.
    pub open spec fn params(self) -> Seq<u16> {
        (match self.fgcolor {
            Some(color) => color_params(color, 30),
            None => Seq::empty(),
        }) + (match self.bgcolor {
            Some(color) => color_params(color, 40),
            None => Seq::empty(),
        }) + (match self.underline_color {
            Some(color) => underline_color_params(color),
            None => Seq::empty(),
        }) + (match self.intensity {
            Some(intensity) => seq![intensity_param(intensity)],
            None => Seq::empty(),
        }) + flag_params(self.italic, 3) + flag_params(self.underline, 4) + flag_params(
            self.inverse,
            7,
        ) + (match self.blink {
            Some(blink) => seq![blink_param(blink)],
            None => Seq::empty(),
        }) + flag_params(self.hidden, 8) + flag_params(self.strikeout, 9)
    }

    fn write_params(&self) -> (params: Vec<u16>)
        ensures
            params@ == self.params(),
    {
        let mut params: Vec<u16> = Vec::new();
        if let Some(color) = self.fgcolor {
            push_color(&mut params, color, 30);
        }
        if let Some(color) = self.bgcolor {
            push_color(&mut params, color, 40);
        }
        if let Some(color) = self.underline_color {
            push_underline_color(&mut params, color);
        }
        if let Some(intensity) = self.intensity {
            params.push(match intensity {
                Intensity::Normal => 22,
                Intensity::Bold => 1,
                Intensity::Dim => 2,
            });
        }
        push_flag(&mut params, self.italic, 3);
        push_flag(&mut params, self.underline, 4);
        push_flag(&mut params, self.inverse, 7);
        if let Some(blink) = self.blink {
            params.push(match blink {
                Blink::Steady => 25,
                Blink::Slow => 5,
                Blink::Rapid => 6,
            });
        }
        push_flag(&mut params, self.hidden, 8);
        push_flag(&mut params, self.strikeout, 9);
        assert(params@ =~= self.params());
        params
    }
}

fn push_color(params: &mut Vec<u16>, color: Color, base: u16)
    requires
        base == 30 || base == 40,
    ensures
        final(params)@ == old(params)@ + color_params(color, base as int),
{
    match color {
        Color::Default => {
            params.push(base + 9);
        },
        Color::Idx(i) => {
            if i < 8 {
                params.push(base + i as u16);
            } else if i < 16 {
                params.push(base + 52 + i as u16);
            } else {
                params.push(base + 8);
                params.push(5);
                params.push(i as u16);
            }
        },
        Color::Rgb(r, g, b) => {
            params.push(base + 8);
            params.push(2);
            params.push(r as u16);
            params.push(g as u16);
            params.push(b as u16);
        },
    }
    assert(params@ =~= old(params)@ + color_params(color, base as int));
}

fn push_underline_color(params: &mut Vec<u16>, color: Color)
    ensures
        final(params)@ == old(params)@ + underline_color_params(color),
{
    match color {
        Color::Default => {
            params.push(59);
        },
        Color::Idx(i) => {
            params.push(58);
            params.push(5);
            params.push(i as u16);
        },
        Color::Rgb(r, g, b) => {
            params.push(58);
            params.push(2);
            params.push(r as u16);
            params.push(g as u16);
            params.push(b as u16);
        },
    }
    assert(params@ =~= old(params)@ + underline_color_params(color));
}

fn push_flag(params: &mut Vec<u16>, flag: Option<bool>, on: u16)
    requires
        on < 10,
    ensures
        final(params)@ == old(params)@ + flag_params(flag, on as int),
{
    if let Some(set) = flag {
        params.push(if set { on } else { on + 20 });
    }
    assert(params@ =~= old(params)@ + flag_params(flag, on as int));
}

impl BufWrite for Attrs {
    open spec fn bytes(&self) -> Seq<u8> {
        sgr_sequence(self.params())
    }

    fn write_buf(&self, buf: &mut Vec<u8>) {
        let params = self.write_params();
        if params.len() == 0 {
            assert(buf@ =~= old(buf)@ + self.bytes());
            return;
        }
        push_str(buf, "\x1b[");
        let ghost start = buf@;
        let mut i: usize = 0;
        while i < params.len()
            invariant
                i <= params.len(),
                buf@ == start + joined_params(params@.take(i as int)),
            decreases params.len() - i,
        {
            if i > 0 {
                push_str(buf, ";");
            }
            extend_itoa(buf, params[i] as u32);
            proof {
                let prefix = params@.take(i + 1);
                assert(prefix.drop_last() =~= params@.take(i as int));
                assert(buf@ =~= start + joined_params(prefix));
            }
            i = i + 1;
        }
        assert(params@.take(i as int) =~= params@);
        push_str(buf, "m");
        assert(buf@ =~= old(buf)@ + self.bytes());
    }
}

pub struct MoveRight {
    pub count: u16,
}

pub open spec fn move_right(count: int) -> Seq<u8> {
    if count <= 0 {
        Seq::empty()
    } else if count == 1 {
        ascii("\x1b[C")
    } else {
        ascii("\x1b[") + decimal(count as nat) + ascii("C")
    }
}

impl BufWrite for MoveRight {
    open spec fn bytes(&self) -> Seq<u8> {
        move_right(self.count as int)
    }

    fn write_buf(&self, buf: &mut Vec<u8>) {
        if self.count == 1 {
            push_str(buf, "\x1b[C");
        } else if self.count > 1 {
            push_str(buf, "\x1b[");
            extend_itoa(buf, self.count as u32);
            push_str(buf, "C");
        }
        assert(buf@ =~= old(buf)@ + self.bytes());
    }
}

pub struct EraseChar {
    pub count: u16,
}

impl EraseChar {
    pub fn new(count: u16) -> (r: Self)
        ensures
            r == (EraseChar { count }),
    {
        EraseChar { count }
    }
}

pub open spec fn erase_char(count: int) -> Seq<u8> {
    if count <= 0 {
        Seq::empty()
    } else if count == 1 {
        ascii("\x1b[X")
    } else {
        ascii("\x1b[") + decimal(count as nat) + ascii("X")
    }
}

impl BufWrite for EraseChar {
    open spec fn bytes(&self) -> Seq<u8> {
        erase_char(self.count as int)
    }

    fn write_buf(&self, buf: &mut Vec<u8>) {
        if self.count == 1 {
            push_str(buf, "\x1b[X");
        } else if self.count > 1 {
            push_str(buf, "\x1b[");
            extend_itoa(buf, self.count as u32);
            push_str(buf, "X");
        }
        assert(buf@ =~= old(buf)@ + self.bytes());
    }
}

/// A private mode, set or reset.
pub open spec fn switch(state: bool, on: &str, off: &str) -> Seq<u8> {
    if state {
        ascii(on)
    } else {
        ascii(off)
    }
}

pub struct HideCursor {
    pub state: bool,
}

impl BufWrite for HideCursor {
    open spec fn bytes(&self) -> Seq<u8> {
        switch(self.state, "\x1b[?25l", "\x1b[?25h")
    }

    fn write_buf(&self, buf: &mut Vec<u8>) {
        if self.state {
            push_str(buf, "\x1b[?25l");
        } else {
            push_str(buf, "\x1b[?25h");
        }
    }
}

/// Moves the cursor from a known position to another, by the shortest of the
/// sequences that do.
pub struct MoveFromTo {
    pub from: Pos,
    pub to: Pos,
}

impl MoveFromTo {
    pub fn new(from: Pos, to: Pos) -> (r: Self)
        ensures
            r == (MoveFromTo { from, to }),
    {
        MoveFromTo { from, to }
    }
}

pub open spec fn move_from_to(from: Pos, to: Pos) -> Seq<u8> {
    if to.row == from.row + 1 && to.col == 0 {
        ascii("\r\n")
    } else if from.row == to.row && from.col < to.col {
        move_right(to.col - from.col)
    } else if to != from {
        move_to(to)
    } else {
        Seq::empty()
    }
}

impl BufWrite for MoveFromTo {
    open spec fn bytes(&self) -> Seq<u8> {
        move_from_to(self.from, self.to)
    }

    fn write_buf(&self, buf: &mut Vec<u8>) {
        if self.to.row as u32 == self.from.row as u32 + 1 && self.to.col == 0 {
            Crlf.write_buf(buf);
        } else if self.from.row == self.to.row && self.from.col < self.to.col {
            MoveRight { count: self.to.col - self.from.col }.write_buf(buf);
        } else if self.to != self.from {
            MoveTo::new(self.to).write_buf(buf);
        }
        assert(buf@ =~= old(buf)@ + self.bytes());
    }
}

pub struct ApplicationKeypad {
    pub state: bool,
}

impl BufWrite for ApplicationKeypad {
    open spec fn bytes(&self) -> Seq<u8> {
        switch(self.state, "\x1b=", "\x1b>")
    }

    fn write_buf(&self, buf: &mut Vec<u8>) {
        if self.state {
            push_str(buf, "\x1b=");
        } else {
            push_str(buf, "\x1b>");
        }
    }
}

pub struct ApplicationCursor {
    pub state: bool,
}

impl BufWrite for ApplicationCursor {
    open spec fn bytes(&self) -> Seq<u8> {
        switch(self.state, "\x1b[?1h", "\x1b[?1l")
    }

    fn write_buf(&self, buf: &mut Vec<u8>) {
        if self.state {
            push_str(buf, "\x1b[?1h");
        } else {
            push_str(buf, "\x1b[?1l");
        }
    }
}

pub struct BracketedPaste {
    pub state: bool,
}

impl BufWrite for BracketedPaste {
    open spec fn bytes(&self) -> Seq<u8> {
        switch(self.state, "\x1b[?2004h", "\x1b[?2004l")
    }

    fn write_buf(&self, buf: &mut Vec<u8>) {
        if self.state {
            push_str(buf, "\x1b[?2004h");
        } else {
            push_str(buf, "\x1b[?2004l");
        }
    }
}

/// Turns mouse reporting from one mode into another.
pub struct MouseMode {
    pub mode: MouseProtocolMode,
    pub prev: MouseProtocolMode,
}

pub open spec fn mouse_mode(mode: MouseProtocolMode, prev: MouseProtocolMode) -> Seq<u8> {
    if mode == prev {
        Seq::empty()
    } else {
        match mode {
            MouseProtocolMode::Off => match prev {
                MouseProtocolMode::Off => Seq::empty(),
                MouseProtocolMode::Press => ascii("\x1b[?9l"),
                MouseProtocolMode::PressRelease => ascii("\x1b[?1000l"),
                MouseProtocolMode::ButtonMotion => ascii("\x1b[?1002l"),
                MouseProtocolMode::AnyMotion => ascii("\x1b[?1003l"),
            },
            MouseProtocolMode::Press => ascii("\x1b[?9h"),
            MouseProtocolMode::PressRelease => ascii("\x1b[?1000h"),
            MouseProtocolMode::ButtonMotion => ascii("\x1b[?1002h"),
            MouseProtocolMode::AnyMotion => ascii("\x1b[?1003h"),
        }
    }
}

impl BufWrite for MouseMode {
    open spec fn bytes(&self) -> Seq<u8> {
        mouse_mode(self.mode, self.prev)
    }

    fn write_buf(&self, buf: &mut Vec<u8>) {
        if self.mode == self.prev {
            assert(buf@ =~= old(buf)@ + self.bytes());
            return;
        }
        match self.mode {
            MouseProtocolMode::Off => match self.prev {
                MouseProtocolMode::Off => {},
                MouseProtocolMode::Press => push_str(buf, "\x1b[?9l"),
                MouseProtocolMode::PressRelease => push_str(buf, "\x1b[?1000l"),
                MouseProtocolMode::ButtonMotion => push_str(buf, "\x1b[?1002l"),
                MouseProtocolMode::AnyMotion => push_str(buf, "\x1b[?1003l"),
            },
            MouseProtocolMode::Press => push_str(buf, "\x1b[?9h"),
            MouseProtocolMode::PressRelease => push_str(buf, "\x1b[?1000h"),
            MouseProtocolMode::ButtonMotion => push_str(buf, "\x1b[?1002h"),
            MouseProtocolMode::AnyMotion => push_str(buf, "\x1b[?1003h"),
        }
    }
}

/// Turns the mouse report encoding from one into another.
pub struct MouseEncoding {
    pub encoding: MouseProtocolEncoding,
    pub prev: MouseProtocolEncoding,
}

pub open spec fn mouse_encoding(
    encoding: MouseProtocolEncoding,
    prev: MouseProtocolEncoding,
) -> Seq<u8> {
    if encoding == prev {
        Seq::empty()
    } else {
        match encoding {
            MouseProtocolEncoding::Default => match prev {
                MouseProtocolEncoding::Default => Seq::empty(),
                MouseProtocolEncoding::Utf8 => ascii("\x1b[?1005l"),
                MouseProtocolEncoding::Sgr => ascii("\x1b[?1006l"),
            },
            MouseProtocolEncoding::Utf8 => ascii("\x1b[?1005h"),
            MouseProtocolEncoding::Sgr => ascii("\x1b[?1006h"),
        }
    }
}

impl BufWrite for MouseEncoding {
    open spec fn bytes(&self) -> Seq<u8> {
        mouse_encoding(self.encoding, self.prev)
    }

    fn write_buf(&self, buf: &mut Vec<u8>) {
        if self.encoding == self.prev {
            assert(buf@ =~= old(buf)@ + self.bytes());
            return;
        }
        match self.encoding {
            MouseProtocolEncoding::Default => match self.prev {
                MouseProtocolEncoding::Default => {},
                MouseProtocolEncoding::Utf8 => push_str(buf, "\x1b[?1005l"),
                MouseProtocolEncoding::Sgr => push_str(buf, "\x1b[?1006l"),
            },
            MouseProtocolEncoding::Utf8 => push_str(buf, "\x1b[?1005h"),
            MouseProtocolEncoding::Sgr => push_str(buf, "\x1b[?1006h"),
        }
    }
}

} // verus!
