//! The codes that a screen is written out in, and what each of them draws.

use crate::ratty_vt::attrs::{
    attrs_changes, attrs_diff, law_different_attrs_write_something, law_equal_attrs_write_nothing,
    AttrsModel,
};
use crate::ratty_vt::cell::{lemma_encode_push, CellModel};
use crate::ratty_vt::event::EventModel;
use crate::ratty_vt::grid::{Pos, Size};
use crate::ratty_vt::laws::{law_attributes_round_trip, single_params};
use crate::ratty_vt::parser::events_run;
use crate::ratty_vt::perform::{modes_run, quiet};
use crate::ratty_vt::row::RowModel;
use crate::ratty_vt::screen::{MouseProtocolEncoding, MouseProtocolMode};
use crate::ratty_vt::screen_model::{
    sgr_run, ScreenModel, SgrModel, MODE_HIDE_CURSOR,
};
use crate::ratty_vt::term;
use vstd::prelude::*;
use vstd::utf8::{encode_scalar, encode_utf8};

verus! {

// What is written, and how it is read.

/// The codes that a screen is written out in.
pub enum CodeModel {
    /// A character.
    Text(char),
    /// A control character.
    Control(char),
    /// An escape sequence.
    Escape(char),
    /// A control sequence with its parameters.
    Csi(Seq<u16>, char),
    /// The cursor hidden or shown.
    Cursor(bool),
    /// The keys of the keypad sent for applications or not.
    Keypad(bool),
    /// The cursor keys sent for applications or not.
    CursorKeys(bool),
    /// Pasted text in brackets or not.
    Paste(bool),
    /// Mouse reports turned on or off.
    Mouse(MouseProtocolMode, bool),
    /// An encoding of mouse reports turned on or off.
    Encoding(MouseProtocolEncoding, bool),
}

/// The number of a mode of mouse reports.
pub open spec fn mouse_number(mode: MouseProtocolMode) -> u16 {
    match mode {
        MouseProtocolMode::Off => 0,
        MouseProtocolMode::Press => 9,
        MouseProtocolMode::PressRelease => 1000,
        MouseProtocolMode::ButtonMotion => 1002,
        MouseProtocolMode::AnyMotion => 1003,
    }
}

/// The number of an encoding of mouse reports.
pub open spec fn encoding_number(encoding: MouseProtocolEncoding) -> u16 {
    match encoding {
        MouseProtocolEncoding::Default => 0,
        MouseProtocolEncoding::Utf8 => 1005,
        MouseProtocolEncoding::Sgr => 1006,
    }
}

/// A private mode set or reset.
pub open spec fn mode_event(number: u16, set: bool) -> EventModel {
    EventModel::Csi(
        seq![seq![number]],
        seq!['?' as u8],
        if set {
            'h'
        } else {
            'l'
        },
    )
}

/// The bytes of a code.
pub open spec fn code_bytes(code: CodeModel) -> Seq<u8> {
    match code {
        CodeModel::Text(c) => encode_scalar(c as u32),
        CodeModel::Control(c) => encode_scalar(c as u32),
        CodeModel::Escape(c) => term::ascii("\x1b") + encode_scalar(c as u32),
        CodeModel::Csi(params, c) => term::ascii("\x1b[") + term::joined_params(params) + encode_scalar(
            c as u32,
        ),
        CodeModel::Cursor(hide) => term::switch(hide, "\x1b[?25l", "\x1b[?25h"),
        CodeModel::Keypad(on) => term::switch(on, "\x1b=", "\x1b>"),
        CodeModel::CursorKeys(on) => term::switch(on, "\x1b[?1h", "\x1b[?1l"),
        CodeModel::Paste(on) => term::switch(on, "\x1b[?2004h", "\x1b[?2004l"),
        CodeModel::Mouse(mode, on) => if on {
            term::mouse_mode(mode, MouseProtocolMode::Off)
        } else {
            term::mouse_mode(MouseProtocolMode::Off, mode)
        },
        CodeModel::Encoding(encoding, on) => if on {
            term::mouse_encoding(encoding, MouseProtocolEncoding::Default)
        } else {
            term::mouse_encoding(MouseProtocolEncoding::Default, encoding)
        },
    }
}

/// What a code asks of a terminal. A sequence without parameters has one that is zero.
pub open spec fn code_event(code: CodeModel) -> EventModel {
    match code {
        CodeModel::Text(c) => EventModel::Print(c),
        CodeModel::Control(c) => EventModel::Execute(c as u8),
        CodeModel::Escape(c) => EventModel::Esc(Seq::empty(), c as u8),
        CodeModel::Csi(params, c) => EventModel::Csi(
            if params.len() == 0 {
                seq![seq![0u16]]
            } else {
                single_params(params)
            },
            Seq::empty(),
            c,
        ),
        CodeModel::Cursor(hide) => mode_event(25, !hide),
        CodeModel::Keypad(on) => EventModel::Esc(
            Seq::empty(),
            if on {
                '=' as u8
            } else {
                '>' as u8
            },
        ),
        CodeModel::CursorKeys(on) => mode_event(1, on),
        CodeModel::Paste(on) => mode_event(2004, on),
        CodeModel::Mouse(mode, on) => mode_event(mouse_number(mode), on),
        CodeModel::Encoding(encoding, on) => mode_event(encoding_number(encoding), on),
    }
}

/// The bytes of some codes, one after the other.
pub open spec fn codes_bytes(codes: Seq<CodeModel>) -> Seq<u8>
    decreases codes.len(),
{
    if codes.len() == 0 {
        Seq::empty()
    } else {
        codes_bytes(codes.drop_last()) + code_bytes(codes.last())
    }
}

pub open spec fn codes_events(codes: Seq<CodeModel>) -> Seq<EventModel> {
    Seq::new(codes.len(), |i: int| code_event(codes[i]))
}

/// A screen after some codes.
pub open spec fn replayed(origin: ScreenModel, codes: Seq<CodeModel>) -> ScreenModel {
    events_run(origin, codes_events(codes)).0
}

// What is drawn.

/// What is on a screen, and what is drawn next.
pub struct CanvasModel {
    pub cells: Seq<Seq<CellModel>>,
    /// Which rows wrap into the next one.
    pub wraps: Seq<bool>,
    pub pos: Pos,
    pub attrs: AttrsModel,
    pub joins: bool,
    pub hidden: bool,
    pub saved_pos: Pos,
    pub saved_attrs: AttrsModel,
    pub saved_origin: bool,
}

pub open spec fn rows_cells(rows: Seq<RowModel>) -> Seq<Seq<CellModel>> {
    Seq::new(rows.len(), |i: int| rows[i].cells)
}

pub open spec fn rows_wraps(rows: Seq<RowModel>) -> Seq<bool> {
    Seq::new(rows.len(), |i: int| rows[i].wrapped)
}

pub open spec fn canvas(screen: ScreenModel) -> CanvasModel {
    CanvasModel {
        cells: rows_cells(screen.grid.rows),
        wraps: rows_wraps(screen.grid.rows),
        pos: screen.grid.pos,
        attrs: screen.attrs,
        joins: screen.joins,
        hidden: screen.modes.hide_cursor,
        saved_pos: screen.grid.saved_pos,
        saved_attrs: screen.saved_attrs,
        saved_origin: screen.grid.saved_origin_mode,
    }
}

/// A main screen of a size on which nothing limits the cursor.
pub open spec fn framed(screen: ScreenModel, size: Size) -> bool {
    let grid = screen.grid;
    &&& !screen.modes.alternate_screen
    &&& grid.size == size
    &&& size.rows > 0
    &&& size.cols > 0
    &&& grid.rows.len() == size.rows
    &&& forall|i: int| 0 <= i < grid.rows.len() ==> (#[trigger] grid.rows[i]).cells.len() == size.cols
    &&& grid.pos.row < size.rows
    &&& grid.pos.col <= size.cols
    &&& grid.scroll_top == 0
    &&& grid.scroll_bottom == size.rows - 1
    &&& !grid.origin_mode
    &&& grid.scrollback_offset == 0
}

/// Whether a screen of a size shows a canvas.
pub open spec fn shows(screen: ScreenModel, size: Size, c: CanvasModel) -> bool {
    framed(screen, size) && canvas(screen) == c
}

/// Whether some bytes are codes that draw a canvas on a screen.
pub open spec fn draws(out: Seq<u8>, size: Size, origin: ScreenModel, c: CanvasModel) -> bool {
    exists|codes: Seq<CodeModel>| drawn_by(codes, out, size, origin, c)
}

pub open spec fn drawn_by(codes: Seq<CodeModel>, out: Seq<u8>, size: Size, origin: ScreenModel, c: CanvasModel) -> bool {
    &&& codes_bytes(codes) == out
    &&& shows(replayed(origin, codes), size, c)
}

/// Whether a code turns one canvas into another.
pub open spec fn turns(size: Size, code: CodeModel, from: CanvasModel, to: CanvasModel) -> bool {
    forall|s: ScreenModel|
        shows(s, size, from) ==> {
            let p = #[trigger] s.performed(code_event(code), 0);
            p.next is None && shows(p.screen, size, to)
        }
}

pub proof fn lemma_code(out: Seq<u8>, size: Size, origin: ScreenModel, from: CanvasModel, code: CodeModel, to: CanvasModel)
    requires
        draws(out, size, origin, from),
        turns(size, code, from, to),
    ensures
        draws(out + code_bytes(code), size, origin, to),
{
    let codes = choose|codes: Seq<CodeModel>| drawn_by(codes, out, size, origin, from);
    let more = codes.push(code);
    assert(more.drop_last() =~= codes);
    assert(codes_bytes(more) == out + code_bytes(code));
    let events = codes_events(more);
    assert(events.drop_last() =~= codes_events(codes));
    assert(events.last() == code_event(code));
    let s = replayed(origin, codes);
    assert(shows(s, size, from));
    assert(drawn_by(more, out + code_bytes(code), size, origin, to));
}

pub proof fn lemma_start(size: Size, origin: ScreenModel)
    requires
        framed(origin, size),
    ensures
        draws(Seq::empty(), size, origin, canvas(origin)),
{
    let codes = Seq::<CodeModel>::empty();
    assert(codes_events(codes) =~= Seq::<EventModel>::empty());
    assert(drawn_by(codes, Seq::empty(), size, origin, canvas(origin)));
}

/// A literal is its first characters and its last one.
pub proof fn lemma_literal(text: Seq<char>, head: Seq<char>, last: char)
    requires
        text =~= head.push(last),
    ensures
        encode_utf8(text) == encode_utf8(head) + encode_scalar(last as u32),
{
    lemma_encode_push(head, last);
}

pub proof fn lemma_single(c: char)
    ensures
        encode_utf8(seq![c]) == encode_scalar(c as u32),
{
    lemma_literal(seq![c], Seq::empty(), c);
    assert(encode_utf8(Seq::<char>::empty()) =~= Seq::<u8>::empty());
    assert(Seq::<u8>::empty() + encode_scalar(c as u32) =~= encode_scalar(c as u32));
}

// The codes, one by one.

/// A private mode that the screen models is set or reset on text that is left behind.
pub proof fn lemma_mode_performed(s: ScreenModel, number: u16, set: bool, after: ScreenModel)
    requires
        (if set {
            s.parted().private_mode_set(seq![number])
        } else {
            s.parted().private_mode_reset(seq![number])
        }) == Some(after),
    ensures
        s.performed(mode_event(number, set), 0) == quiet(after),
{
    let params = seq![seq![number]];
    lemma_mode_run(s.parted(), params, set, after);
    if set {
        lemma_private_performed(s, params, 'h');
    } else {
        lemma_private_performed(s, params, 'l');
    }
}

proof fn lemma_mode_run(s: ScreenModel, params: Seq<Seq<u16>>, set: bool, after: ScreenModel)
    requires
        params.len() == 1,
        (if set {
            s.private_mode_set(params[0])
        } else {
            s.private_mode_reset(params[0])
        }) == Some(after),
    ensures
        modes_run(s, params, 0, set) == (after, None::<int>),
{
    assert(modes_run(after, params, 1, set) == (after, None::<int>));
}

/// A private mode sequence is performed on text that is left behind.
proof fn lemma_private_performed(s: ScreenModel, params: Seq<Seq<u16>>, c: char)
    requires
        c == 'h' || c == 'l',
        modes_run(s.parted(), params, 0, c == 'h').1 is None,
    ensures
        s.performed(EventModel::Csi(params, seq!['?' as u8], c), 0) == quiet(
            modes_run(s.parted(), params, 0, c == 'h').0,
        ),
{
    reveal(ScreenModel::performed);
    let intermediates = seq!['?' as u8];
    assert(intermediates.len() == 1 && intermediates[0] == '?' as u8);
    assert(!ScreenModel::goes_on(EventModel::Csi(params, intermediates, c)));
}

proof fn lemma_cursor_performed(s: ScreenModel, hide: bool)
    ensures
        s.performed(code_event(CodeModel::Cursor(hide)), 0) == quiet(
            s.parted().with_mode(MODE_HIDE_CURSOR, hide),
        ),
{
    reveal(ScreenModel::private_mode_set);
    reveal(ScreenModel::private_mode_reset);
    let param = seq![25u16];
    assert(param.len() == 1 && param[0] == 25);
    lemma_mode_performed(s, 25, !hide, s.parted().with_mode(MODE_HIDE_CURSOR, hide));
}

pub proof fn lemma_cursor_code(out: Seq<u8>, size: Size, origin: ScreenModel, c: CanvasModel, hide: bool)
    requires
        draws(out, size, origin, c),
    ensures
        draws(
            out + term::switch(hide, "\x1b[?25l", "\x1b[?25h"),
            size,
            origin,
            CanvasModel { joins: false, hidden: hide, ..c },
        ),
{
    let code = CodeModel::Cursor(hide);
    let to = CanvasModel { joins: false, hidden: hide, ..c };
    assert forall|s: ScreenModel| shows(s, size, c) implies {
        let p = #[trigger] s.performed(code_event(code), 0);
        p.next is None && shows(p.screen, size, to)
    } by {
        lemma_cursor_performed(s, hide);
        let p = s.performed(code_event(code), 0);
        assert(canvas(p.screen).cells =~= canvas(s).cells);
    }
    lemma_code(out, size, origin, c, code, to);
}

proof fn lemma_sgr_performed(s: ScreenModel, list: Seq<Seq<u16>>, to: AttrsModel)
    requires
        list.len() > 0,
        sgr_run(s.attrs, list, 0) == (to, SgrModel::Stop),
    ensures
        s.performed(EventModel::Csi(list, Seq::empty(), 'm'), 0) == quiet(
            ScreenModel { attrs: to, ..s },
        ),
{
    reveal(ScreenModel::performed);
}

pub proof fn lemma_sgr_code(out: Seq<u8>, size: Size, origin: ScreenModel, c: CanvasModel, params: Seq<u16>, to: AttrsModel)
    requires
        draws(out, size, origin, c),
        ({
            let list = if params.len() == 0 { seq![seq![0u16]] } else { single_params(params) };
            sgr_run(c.attrs, list, 0) == (to, SgrModel::Stop)
        }),
    ensures
        draws(
            out + code_bytes(CodeModel::Csi(params, 'm')),
            size,
            origin,
            CanvasModel { attrs: to, ..c },
        ),
{
    let code = CodeModel::Csi(params, 'm');
    let after = CanvasModel { attrs: to, ..c };
    let list = if params.len() == 0 { seq![seq![0u16]] } else { single_params(params) };
    assert forall|s: ScreenModel| shows(s, size, c) implies {
        let p = #[trigger] s.performed(code_event(code), 0);
        p.next is None && shows(p.screen, size, after)
    } by {
        lemma_sgr_performed(s, list, to);
        let p = s.performed(code_event(code), 0);
        assert(canvas(p.screen).cells =~= canvas(s).cells);
    }
    lemma_code(out, size, origin, c, code, after);
}

pub proof fn lemma_sgr_bytes(params: Seq<u16>)
    ensures
        params.len() > 0 ==> code_bytes(CodeModel::Csi(params, 'm')) == term::sgr_sequence(params),
        code_bytes(CodeModel::Csi(Seq::empty(), 'm')) == term::ascii("\x1b[m"),
{
    reveal_strlit("\x1b[m");
    reveal_strlit("\x1b[");
    reveal_strlit("m");
    lemma_literal("\x1b[m"@, "\x1b["@, 'm');
    lemma_single('m');
    assert("m"@ =~= seq!['m']);
    assert(term::joined_params(Seq::empty()) =~= Seq::<u8>::empty());
    assert(code_bytes(CodeModel::Csi(Seq::empty(), 'm')) =~= term::ascii("\x1b[m"));
}

/// Attributes that are written out: by a reset, or by parameters.
pub proof fn lemma_recolor(out: Seq<u8>, size: Size, origin: ScreenModel, c: CanvasModel, to: AttrsModel)
    requires
        draws(out, size, origin, c),
    ensures
        draws(out + attrs_diff(to, c.attrs), size, origin, CanvasModel { attrs: to, ..c }),
{
    law_attributes_round_trip(c.attrs, to);
    if to == c.attrs {
        law_equal_attrs_write_nothing(to);
        assert(out + attrs_diff(to, c.attrs) =~= out);
    } else if to == AttrsModel::plain() {
        lemma_sgr_bytes(Seq::empty());
        lemma_sgr_code(out, size, origin, c, Seq::empty(), to);
    } else {
        law_different_attrs_write_something(to, c.attrs);
        lemma_recolor_by_params(out, size, origin, c, attrs_changes(to, c.attrs).params(), to);
    }
}

proof fn lemma_recolor_by_params(
    out: Seq<u8>,
    size: Size,
    origin: ScreenModel,
    c: CanvasModel,
    params: Seq<u16>,
    to: AttrsModel,
)
    requires
        draws(out, size, origin, c),
        sgr_run(c.attrs, single_params(params), 0) == (to, SgrModel::Stop),
        term::sgr_sequence(params).len() > 0,
    ensures
        draws(out + term::sgr_sequence(params), size, origin, CanvasModel { attrs: to, ..c }),
{
    lemma_sgr_bytes(params);
    lemma_sgr_code(out, size, origin, c, params, to);
}

} // verus!
