//! What events do to a screen, and what they ask of the world around it.

use crate::ratty_vt::attrs::AttrsModel;
use crate::ratty_vt::event::{strings_view, Event, EventModel};
use crate::ratty_vt::grid::Pos;
use crate::ratty_vt::screen::{params_view, Screen, SgrEnd};
use crate::ratty_vt::screen_model::{
    sgr_run, ScreenModel, SgrModel, MODE_APPLICATION_KEYPAD,
};
use crate::ratty_vt::term::push_bytes;
use vstd::prelude::*;

verus! {

/// Something that a terminal byte stream asks for and that the screen does not
/// do itself.
#[derive(Debug)]
pub enum Notice {
    /// An audible bell.
    AudibleBell,
    /// A visual bell.
    VisualBell,
    /// Another size, as (rows, cols).
    Resize(u16, u16),
    /// An icon name.
    IconName(Vec<u8>),
    /// A window title.
    Title(Vec<u8>),
    /// Data for a clipboard: the selection and the data, in base64.
    Copy(Vec<u8>, Vec<u8>),
    /// The contents of a clipboard: the selection.
    Paste(Vec<u8>),
    /// A character that is not drawn.
    Char(char),
    /// A control character that is not known.
    Control(u8),
    /// An escape sequence that is not known: up to two intermediates and the
    /// final byte.
    Escape(Option<u8>, Option<u8>, u8),
    /// A control sequence that is not known: up to two intermediates, the
    /// parameters and the final character.
    Csi(Option<u8>, Option<u8>, Vec<Vec<u16>>, char),
    /// An operating system command that is not known.
    Osc(Vec<Vec<u8>>),
}

/// What a notice says.
pub enum NoticeModel {
    AudibleBell,
    VisualBell,
    Resize(u16, u16),
    IconName(Seq<u8>),
    Title(Seq<u8>),
    Copy(Seq<u8>, Seq<u8>),
    Paste(Seq<u8>),
    Char(char),
    Control(u8),
    Escape(Option<u8>, Option<u8>, u8),
    Csi(Option<u8>, Option<u8>, Seq<Seq<u16>>, char),
    Osc(Seq<Seq<u8>>),
}

impl View for Notice {
    type V = NoticeModel;

    open spec fn view(&self) -> NoticeModel {
        match self {
            Notice::AudibleBell => NoticeModel::AudibleBell,
            Notice::VisualBell => NoticeModel::VisualBell,
            Notice::Resize(rows, cols) => NoticeModel::Resize(*rows, *cols),
            Notice::IconName(name) => NoticeModel::IconName(name@),
            Notice::Title(title) => NoticeModel::Title(title@),
            Notice::Copy(selection, data) => NoticeModel::Copy(selection@, data@),
            Notice::Paste(selection) => NoticeModel::Paste(selection@),
            Notice::Char(c) => NoticeModel::Char(*c),
            Notice::Control(b) => NoticeModel::Control(*b),
            Notice::Escape(first, second, b) => NoticeModel::Escape(*first, *second, *b),
            Notice::Csi(first, second, params, c) => NoticeModel::Csi(
                *first,
                *second,
                params_view(params@),
                *c,
            ),
            Notice::Osc(params) => NoticeModel::Osc(strings_view(params@)),
        }
    }
}

/// What an event comes to: the screen after it, a notice that it gives rise to,
/// and where in the event to go on after the notice.
pub struct PerformedModel {
    pub screen: ScreenModel,
    pub notice: Option<NoticeModel>,
    pub next: Option<int>,
}

pub open spec fn quiet(screen: ScreenModel) -> PerformedModel {
    PerformedModel { screen, notice: None, next: None }
}

pub open spec fn told(screen: ScreenModel, notice: NoticeModel) -> PerformedModel {
    PerformedModel { screen, notice: Some(notice), next: None }
}

/// The value of a parameter; a missing one and zero stand for the default.
pub open spec fn param_or(params: Seq<Seq<u16>>, i: int, default: u16) -> u16 {
    if 0 <= i < params.len() && params[i].len() > 0 && params[i][0] != 0 {
        params[i][0]
    } else {
        default
    }
}

/// The value of a parameter, if there is one.
pub open spec fn param_at(params: Seq<Seq<u16>>, i: int) -> Option<u16> {
    if 0 <= i < params.len() && params[i].len() > 0 {
        Some(params[i][0])
    } else {
        None
    }
}

pub open spec fn byte_at(bytes: Seq<u8>, i: int) -> Option<u8> {
    if 0 <= i < bytes.len() {
        Some(bytes[i])
    } else {
        None
    }
}

/// Private modes set or reset from a parameter on, up to one that the screen
/// does not model; then also the parameter after it.
pub open spec fn modes_run(
    screen: ScreenModel,
    params: Seq<Seq<u16>>,
    i: int,
    set: bool,
) -> (ScreenModel, Option<int>)
    decreases params.len() - i,
{
    if i < 0 || i >= params.len() {
        (screen, None)
    } else {
        match if set {
            screen.private_mode_set(params[i])
        } else {
            screen.private_mode_reset(params[i])
        } {
            Some(next) => modes_run(next, params, i + 1, set),
            None => (screen, Some(i + 1)),
        }
    }
}

/// Whether every byte of a clipboard selection names a clipboard.
pub open spec fn is_selection(selection: Seq<u8>) -> bool {
    forall|i: int| 0 <= i < selection.len() ==> names_clipboard(#[trigger] selection[i])
}

/// `c`, `p`, `q`, `s` and the digits up to seven name clipboards.
pub open spec fn names_clipboard(b: u8) -> bool {
    b == 99 || b == 112 || b == 113 || b == 115 || 48 <= b <= 55
}

pub open spec fn is_base64(data: Seq<u8>) -> bool {
    forall|i: int| 0 <= i < data.len() ==> is_base64_byte(#[trigger] data[i])
}

pub open spec fn is_base64_byte(b: u8) -> bool {
    65 <= b <= 90 || 97 <= b <= 122 || 48 <= b <= 57 || b == 43 || b == 47 || b == 61
}

impl ScreenModel {
    /// A character printed; replacement and C1 characters are not drawn.
    pub open spec fn printed(self, c: char) -> PerformedModel {
        if c == '\u{fffd}' || ('\u{80}' <= c && c < '\u{a0}') {
            told(self, NoticeModel::Char(c))
        } else {
            quiet(self.text(c))
        }
    }

    /// A control function executed.
    pub open spec fn executed(self, b: u8) -> PerformedModel {
        let grid = self.active();
        if b == 7 {
            told(self, NoticeModel::AudibleBell)
        } else if b == 8 {
            quiet(self.with_active(grid.col_dec(1)))
        } else if b == 9 {
            quiet(self.with_active(grid.col_tab()))
        } else if 10 <= b <= 12 {
            quiet(self.with_active(grid.row_inc_scroll(1).0))
        } else if b == 13 {
            quiet(self.with_active(grid.col_set(0)))
        } else if b == 14 || b == 15 {
            quiet(self)
        } else {
            told(self, NoticeModel::Control(b))
        }
    }

    /// An escape sequence.
    pub open spec fn escaped(self, intermediates: Seq<u8>, b: u8) -> PerformedModel {
        if intermediates.len() > 0 {
            told(
                self,
                NoticeModel::Escape(byte_at(intermediates, 0), byte_at(intermediates, 1), b),
            )
        } else if b == '7' as u8 {
            quiet(self.cursor_saved())
        } else if b == '8' as u8 {
            quiet(self.cursor_restored())
        } else if b == '=' as u8 {
            quiet(self.with_mode(MODE_APPLICATION_KEYPAD, true))
        } else if b == '>' as u8 {
            quiet(self.with_mode(MODE_APPLICATION_KEYPAD, false))
        } else if b == 'M' as u8 {
            quiet(self.with_active(self.active().row_dec_scroll(1)))
        } else if b == 'c' as u8 {
            quiet(ScreenModel::fresh(self.grid.size, self.grid.scrollback_len))
        } else if b == 'g' as u8 {
            told(self, NoticeModel::VisualBell)
        } else {
            told(self, NoticeModel::Escape(None, None, b))
        }
    }

    /// A control sequence without intermediates; `None` for one that is not
    /// known.
    #[verifier::opaque]
    pub open spec fn csi_plain(self, params: Seq<Seq<u16>>, c: char) -> Option<ScreenModel> {
        let grid = self.active();
        let count = param_or(params, 0, 1) as int;
        if c == '@' {
            Some(self.with_active(grid.cells_inserted(count)))
        } else if c == 'A' {
            Some(self.with_active(grid.row_dec_clamp(count)))
        } else if c == 'B' {
            Some(self.with_active(grid.row_inc_clamp(count)))
        } else if c == 'C' {
            Some(self.with_active(grid.col_inc_clamp(count)))
        } else if c == 'D' {
            Some(self.with_active(grid.col_dec(count)))
        } else if c == 'E' {
            Some(self.with_active(grid.col_set(0).row_inc_clamp(count)))
        } else if c == 'F' {
            Some(self.with_active(grid.col_set(0).row_dec_clamp(count)))
        } else if c == 'G' {
            Some(self.with_active(grid.col_set(count - 1)))
        } else if c == 'H' || c == 'f' {
            let to = Pos {
                row: (count - 1) as u16,
                col: (param_or(params, 1, 1) - 1) as u16,
            };
            Some(self.with_active(grid.moved_to(to)))
        } else if c == 'J' {
            self.display_erased(param_or(params, 0, 0))
        } else if c == 'K' {
            self.line_erased(param_or(params, 0, 0))
        } else if c == 'L' {
            Some(self.with_active(grid.lines_inserted(count)))
        } else if c == 'M' {
            Some(self.with_active(grid.lines_deleted(count)))
        } else if c == 'P' {
            Some(self.with_active(grid.cells_deleted(count)))
        } else if c == 'S' {
            Some(self.with_active(grid.scrolled_up(count)))
        } else if c == 'T' {
            Some(self.with_active(grid.scrolled_down(count)))
        } else if c == 'X' {
            Some(self.with_active(grid.erased_cells(count, self.attrs)))
        } else if c == 'd' {
            Some(self.with_active(grid.row_set(count - 1)))
        } else if c == 'r' {
            let bottom = param_or(params, 1, grid.size.rows);
            Some(
                self.with_active(
                    grid.with_scroll_region((count - 1) as u16, (bottom - 1) as u16),
                ),
            )
        } else if c == 's' {
            Some(self.with_active(grid.cursor_saved()))
        } else if c == 'u' {
            Some(self.with_active(grid.cursor_restored()))
        } else {
            None
        }
    }

    /// A control sequence with a private marker of the keyboard protocols;
    /// `None` for one that is not known.
    #[verifier::opaque]
    pub open spec fn csi_keyboard(self, params: Seq<Seq<u16>>, marker: u8, c: char) -> Option<ScreenModel> {
        if c == 'u' && marker == '>' as u8 {
            Some(self.keyboard_pushed(param_or(params, 0, 0)))
        } else if c == 'u' && marker == '<' as u8 {
            Some(self.keyboard_popped(param_or(params, 0, 1)))
        } else if c == 'u' && marker == '=' as u8 {
            Some(self.keyboard_set(param_or(params, 0, 0), param_or(params, 1, 1)))
        } else if c == 'm' && marker == '>' as u8 && param_at(params, 0) == Some(4u16) {
            Some(self.modify_other_keys_set(param_at(params, 1)))
        } else {
            None
        }
    }

    /// A control sequence, from one of its parameters on.
    pub open spec fn controlled(
        self,
        params: Seq<Seq<u16>>,
        intermediates: Seq<u8>,
        c: char,
        from: int,
    ) -> PerformedModel {
        let notice = NoticeModel::Csi(
            byte_at(intermediates, 0),
            byte_at(intermediates, 1),
            params,
            c,
        );
        if intermediates.len() == 0 {
            if c == 'm' {
                if params.len() == 0 {
                    quiet(ScreenModel { attrs: AttrsModel::plain(), ..self })
                } else {
                    let (attrs, outcome) = sgr_run(self.attrs, params, from);
                    let screen = ScreenModel { attrs, ..self };
                    match outcome {
                        SgrModel::Unknown(next) => PerformedModel {
                            screen,
                            notice: Some(notice),
                            next: Some(next),
                        },
                        SgrModel::UnknownStop => told(screen, notice),
                        _ => quiet(screen),
                    }
                }
            } else if c == 't' && param_at(params, 0) == Some(8u16) {
                let size = self.size();
                told(
                    self,
                    NoticeModel::Resize(
                        match param_at(params, 1) {
                            Some(rows) => rows,
                            None => size.rows,
                        },
                        match param_at(params, 2) {
                            Some(cols) => cols,
                            None => size.cols,
                        },
                    ),
                )
            } else {
                match self.csi_plain(params, c) {
                    Some(screen) => quiet(screen),
                    None => told(self, notice),
                }
            }
        } else if intermediates[0] == '?' as u8 && (c == 'h' || c == 'l') {
            let (screen, next) = modes_run(self, params, from, c == 'h');
            match next {
                Some(next) => PerformedModel { screen, notice: Some(notice), next: Some(next) },
                None => quiet(screen),
            }
        } else {
            match if intermediates[0] != '?' as u8 {
                self.csi_keyboard(params, intermediates[0], c)
            } else if c == 'J' {
                self.display_erased(param_or(params, 0, 0))
            } else if c == 'K' {
                self.line_erased(param_or(params, 0, 0))
            } else {
                None
            } {
                Some(screen) => quiet(screen),
                None => told(self, notice),
            }
        }
    }

    /// An operating system command, from the first or the second thing it asks
    /// for on.
    pub open spec fn commanded(self, params: Seq<Seq<u8>>, from: int) -> PerformedModel {
        if params.len() == 2 && params[0] == seq!['0' as u8] {
            if from == 0 {
                PerformedModel {
                    screen: self,
                    notice: Some(NoticeModel::IconName(params[1])),
                    next: Some(1),
                }
            } else {
                told(self, NoticeModel::Title(params[1]))
            }
        } else if params.len() == 2 && params[0] == seq!['1' as u8] {
            told(self, NoticeModel::IconName(params[1]))
        } else if params.len() == 2 && params[0] == seq!['2' as u8] {
            told(self, NoticeModel::Title(params[1]))
        } else if params.len() == 3 && params[0] == seq!['5' as u8, '2' as u8] && is_selection(
            params[1],
        ) && params[2] == seq!['?' as u8] {
            told(self, NoticeModel::Paste(params[1]))
        } else if params.len() == 3 && params[0] == seq!['5' as u8, '2' as u8] && is_selection(
            params[1],
        ) && is_base64(params[2]) {
            told(self, NoticeModel::Copy(params[1], params[2]))
        } else {
            told(self, NoticeModel::Osc(params))
        }
    }

    /// Whether an event leaves the cursor alone and the text behind it open.
    pub open spec fn goes_on(event: EventModel) -> bool {
        match event {
            EventModel::Print(_) => true,
            EventModel::Csi(_, intermediates, c) => intermediates.len() == 0 && c == 'm',
            _ => false,
        }
    }

    /// An event, from one of its parts on. All but text and its attributes leave the
    /// text before them behind.
    #[verifier::opaque]
    pub open spec fn performed(self, event: EventModel, from: int) -> PerformedModel {
        let screen = if ScreenModel::goes_on(event) { self } else { self.parted() };
        match event {
            EventModel::Print(c) => screen.printed(c),
            EventModel::Execute(b) => screen.executed(b),
            EventModel::Esc(intermediates, b) => screen.escaped(intermediates, b),
            EventModel::Csi(params, intermediates, c) => screen.controlled(
                params,
                intermediates,
                c,
                from,
            ),
            EventModel::Osc(params) => screen.commanded(params, from),
        }
    }
}

/// Into how many parts an event can be broken by notices.
pub open spec fn parts(event: EventModel) -> int {
    match event {
        EventModel::Csi(params, _, _) => params.len() as int,
        EventModel::Osc(_) => 1,
        _ => 0,
    }
}

/// A notice that an event gives rise to, and where in the event to go on after
/// it.
pub struct Performed {
    pub notice: Option<Notice>,
    pub next: Option<usize>,
}

impl Performed {
    pub open spec fn model(self, screen: ScreenModel) -> PerformedModel {
        PerformedModel {
            screen,
            notice: match self.notice {
                Some(notice) => Some(notice@),
                None => None,
            },
            next: match self.next {
                Some(next) => Some(next as int),
                None => None,
            },
        }
    }

    fn quiet() -> (r: Self)
        ensures
            r == (Performed { notice: None, next: None }),
    {
        Performed { notice: None, next: None }
    }

    fn told(notice: Notice) -> (r: Self)
        ensures
            r == (Performed { notice: Some(notice), next: None }),
    {
        Performed { notice: Some(notice), next: None }
    }
}

fn first_byte(bytes: &Vec<u8>, i: usize) -> (r: Option<u8>)
    ensures
        r == byte_at(bytes@, i as int),
{
    if i < bytes.len() {
        Some(bytes[i])
    } else {
        None
    }
}

/// The value of a parameter; a missing one and zero stand for the default.
pub fn canonical_param(params: &Vec<Vec<u16>>, i: usize, default: u16) -> (r: u16)
    ensures
        r == param_or(params_view(params@), i as int, default),
{
    if i < params.len() && params[i].len() > 0 && params[i][0] != 0 {
        params[i][0]
    } else {
        default
    }
}

fn read_param(params: &Vec<Vec<u16>>, i: usize) -> (r: Option<u16>)
    ensures
        r == param_at(params_view(params@), i as int),
{
    if i < params.len() && params[i].len() > 0 {
        Some(params[i][0])
    } else {
        None
    }
}

fn copy_params(params: &Vec<Vec<u16>>) -> (r: Vec<Vec<u16>>)
    ensures
        params_view(r@) == params_view(params@),
{
    let mut r: Vec<Vec<u16>> = Vec::new();
    let mut i: usize = 0;
    while i < params.len()
        invariant
            i <= params@.len(),
            r@.len() == i,
            forall|k: int| 0 <= k < i ==> (#[trigger] r@[k])@ == params@[k]@,
        decreases params@.len() - i,
    {
        let mut param: Vec<u16> = Vec::new();
        param.extend_from_slice(params[i].as_slice());
        assert(param@ =~= params@[i as int]@);
        r.push(param);
        i = i + 1;
    }
    assert(params_view(r@) =~= params_view(params@));
    r
}

fn copy_bytes(bytes: &Vec<u8>) -> (r: Vec<u8>)
    ensures
        r@ == bytes@,
{
    let mut r: Vec<u8> = Vec::new();
    push_bytes(&mut r, bytes.as_slice());
    assert(r@ =~= bytes@);
    r
}

fn copy_strings(strings: &Vec<Vec<u8>>) -> (r: Vec<Vec<u8>>)
    ensures
        strings_view(r@) == strings_view(strings@),
{
    let mut r: Vec<Vec<u8>> = Vec::new();
    let mut i: usize = 0;
    while i < strings.len()
        invariant
            i <= strings@.len(),
            r@.len() == i,
            forall|k: int| 0 <= k < i ==> (#[trigger] r@[k])@ == strings@[k]@,
        decreases strings@.len() - i,
    {
        r.push(copy_bytes(&strings[i]));
        i = i + 1;
    }
    assert(strings_view(r@) =~= strings_view(strings@));
    r
}

fn all_clipboards(selection: &Vec<u8>) -> (r: bool)
    ensures
        r == is_selection(selection@),
{
    let mut i: usize = 0;
    while i < selection.len()
        invariant
            i <= selection@.len(),
            forall|k: int| 0 <= k < i ==> names_clipboard(#[trigger] selection@[k]),
        decreases selection@.len() - i,
    {
        let b: u8 = selection[i];
        if !(b == 99 || b == 112 || b == 113 || b == 115 || (48 <= b && b <= 55)) {
            assert(!names_clipboard(selection@[i as int]));
            return false;
        }
        i = i + 1;
    }
    true
}

fn all_base64(data: &Vec<u8>) -> (r: bool)
    ensures
        r == is_base64(data@),
{
    let mut i: usize = 0;
    while i < data.len()
        invariant
            i <= data@.len(),
            forall|k: int| 0 <= k < i ==> is_base64_byte(#[trigger] data@[k]),
        decreases data@.len() - i,
    {
        let b: u8 = data[i];
        if !((65 <= b && b <= 90) || (97 <= b && b <= 122) || (48 <= b && b <= 57) || b == 43 || b == 47
            || b == 61) {
            assert(!is_base64_byte(data@[i as int]));
            return false;
        }
        i = i + 1;
    }
    true
}

fn is_byte(bytes: &Vec<u8>, b: u8) -> (r: bool)
    ensures
        r == (bytes@ == seq![b]),
{
    let r = bytes.len() == 1 && bytes[0] == b;
    proof {
        if r {
            assert(bytes@ =~= seq![b]);
        } else if bytes@ == seq![b] {
            assert(bytes@.len() == 1 && bytes@[0] == b);
        }
    }
    r
}

fn is_clipboard_command(bytes: &Vec<u8>) -> (r: bool)
    ensures
        r == (bytes@ == seq!['5' as u8, '2' as u8]),
{
    let r = bytes.len() == 2 && bytes[0] == 53 && bytes[1] == 50;
    proof {
        if r {
            assert(bytes@ =~= seq!['5' as u8, '2' as u8]);
        } else if bytes@ == seq!['5' as u8, '2' as u8] {
            assert(bytes@.len() == 2 && bytes@[0] == 53 && bytes@[1] == 50);
        }
    }
    r
}

impl Screen {
    /// Performs an event, from one of its parts on. An event that gives rise to
    /// a notice in the middle says where to go on.
    pub fn perform(&mut self, event: &Event, from: usize) -> (r: Performed)
        requires
            old(self)@.wf(),
        ensures
            r.model(final(self)@) == old(self)@.performed(event@, from as int),
            final(self)@.keeps_order(old(self)@),
            r.next matches Some(next) ==> from < next <= parts(event@),
    {
        proof {
            reveal(ScreenModel::performed);
        }
        let goes_on = match event {
            Event::Print(_) => true,
            Event::Csi(_, intermediates, c) => intermediates.len() == 0 && *c == 'm',
            _ => false,
        };
        if !goes_on {
            self.part();
        }
        match event {
            Event::Print(c) => self.print(*c),
            Event::Execute(b) => self.execute(*b),
            Event::Esc(intermediates, b) => self.esc_dispatch(intermediates, *b),
            Event::Csi(params, intermediates, c) => self.csi_dispatch(
                params,
                intermediates,
                *c,
                from,
            ),
            Event::Osc(params) => self.osc_dispatch(params, from),
        }
    }

    fn print(&mut self, c: char) -> (r: Performed)
        requires
            old(self)@.wf(),
        ensures
            r.model(final(self)@) == old(self)@.printed(c),
            final(self)@.keeps_order(old(self)@),
            r.next is None,
    {
        if c == '\u{fffd}' || ('\u{80}' <= c && c < '\u{a0}') {
            Performed::told(Notice::Char(c))
        } else {
            self.text(c);
            Performed::quiet()
        }
    }

    fn execute(&mut self, b: u8) -> (r: Performed)
        requires
            old(self)@.wf(),
        ensures
            r.model(final(self)@) == old(self)@.executed(b),
            final(self)@.keeps_order(old(self)@),
            r.next is None,
    {
        match b {
            7 => return Performed::told(Notice::AudibleBell),
            8 => self.bs(),
            9 => self.tab(),
            10 => self.lf(),
            11 => self.vt(),
            12 => self.ff(),
            13 => self.cr(),
            // Shift in and out are not implemented, but they are not errors.
            14 => {},
            15 => {},
            _ => return Performed::told(Notice::Control(b)),
        }
        Performed::quiet()
    }

    fn esc_dispatch(&mut self, intermediates: &Vec<u8>, b: u8) -> (r: Performed)
        requires
            old(self)@.wf(),
        ensures
            r.model(final(self)@) == old(self)@.escaped(intermediates@, b),
            final(self)@.keeps_order(old(self)@),
            r.next is None,
    {
        if intermediates.len() > 0 {
            return Performed::told(
                Notice::Escape(first_byte(intermediates, 0), first_byte(intermediates, 1), b),
            );
        }
        match b as char {
            '7' => self.decsc(),
            '8' => self.decrc(),
            '=' => self.deckpam(),
            '>' => self.deckpnm(),
            'M' => self.ri(),
            'c' => self.ris(),
            'g' => return Performed::told(Notice::VisualBell),
            _ => return Performed::told(Notice::Escape(None, None, b)),
        }
        Performed::quiet()
    }

    fn csi_dispatch(
        &mut self,
        params: &Vec<Vec<u16>>,
        intermediates: &Vec<u8>,
        c: char,
        from: usize,
    ) -> (r: Performed)
        requires
            old(self)@.wf(),
        ensures
            r.model(final(self)@) == old(self)@.controlled(
                params_view(params@),
                intermediates@,
                c,
                from as int,
            ),
            final(self)@.keeps_order(old(self)@),
            r.next matches Some(next) ==> from < next <= params@.len(),
    {
        let mut next: Option<usize> = None;
        let handled = if intermediates.len() == 0 {
            if c == 'm' {
                if params.len() == 0 {
                    self.sgr_reset();
                    return Performed::quiet();
                }
                match self.sgr(params, from) {
                    SgrEnd::Done => true,
                    SgrEnd::Unknown(index) => {
                        next = Some(index);
                        false
                    },
                    SgrEnd::UnknownDone => false,
                }
            } else if c == 't' && read_param(params, 0) == Some(8u16) {
                let (rows, cols) = self.size();
                let rows: u16 = match read_param(params, 1) {
                    Some(rows) => rows,
                    None => rows,
                };
                let cols: u16 = match read_param(params, 2) {
                    Some(cols) => cols,
                    None => cols,
                };
                return Performed::told(Notice::Resize(rows, cols));
            } else {
                self.csi_plain(params, c)
            }
        } else if intermediates[0] == 63 && (c == 'h' || c == 'l') {
            next = self.switch_modes(params, from, c == 'h');
            next.is_none()
        } else if intermediates[0] != 63 {
            self.csi_keyboard(params, intermediates[0], c)
        } else if c == 'J' {
            self.ed(canonical_param(params, 0, 0))
        } else if c == 'K' {
            self.el(canonical_param(params, 0, 0))
        } else {
            false
        };
        if handled {
            Performed::quiet()
        } else {
            let notice = Notice::Csi(
                first_byte(intermediates, 0),
                first_byte(intermediates, 1),
                copy_params(params),
                c,
            );
            Performed { notice: Some(notice), next }
        }
    }

    /// Sets or resets private modes, from a parameter on. Stops at one that the
    /// screen does not model and returns the parameter after it.
    fn switch_modes(&mut self, params: &Vec<Vec<u16>>, from: usize, set: bool) -> (next: Option<usize>)
        requires
            old(self)@.wf(),
        ensures
            ({
                let (screen, at) = modes_run(old(self)@, params_view(params@), from as int, set);
                final(self)@ == screen && match (next, at) {
                    (Some(next), Some(at)) => next == at,
                    (None, None) => true,
                    _ => false,
                }
            }),
            final(self)@.keeps_order(old(self)@),
            next matches Some(next) ==> from < next <= params@.len(),
    {
        let ghost model = params_view(params@);
        let ghost run = modes_run(self@, model, from as int, set);
        let mut i: usize = from;
        while i < params.len()
            invariant
                model == params_view(params@),
                from <= i,
                self@.keeps_order(old(self)@),
                modes_run(self@, model, i as int, set) == run,
                run == modes_run(old(self)@, model, from as int, set),
            decreases params.len() - i,
        {
            assert(model[i as int] == params@[i as int]@);
            let handled = if set { self.decset(&params[i]) } else { self.decrst(&params[i]) };
            i = i + 1;
            if !handled {
                return Some(i);
            }
        }
        None
    }

    /// A control sequence without intermediates. Returns whether it is known.
    fn csi_plain(&mut self, params: &Vec<Vec<u16>>, c: char) -> (handled: bool)
        requires
            old(self)@.wf(),
        ensures
            handled == (old(self)@.csi_plain(params_view(params@), c) is Some),
            final(self)@ == (match old(self)@.csi_plain(params_view(params@), c) {
                Some(screen) => screen,
                None => old(self)@,
            }),
            final(self)@.keeps_order(old(self)@),
    {
        proof {
            reveal(ScreenModel::csi_plain);
        }
        let count: u16 = canonical_param(params, 0, 1);
        match c {
            '@' => self.ich(count),
            'A' => self.cuu(count),
            'B' => self.cud(count),
            'C' => self.cuf(count),
            'D' => self.cub(count),
            'E' => self.cnl(count),
            'F' => self.cpl(count),
            'G' => self.cha(count),
            'H' => self.cup(count, canonical_param(params, 1, 1)),
            'f' => self.cup(count, canonical_param(params, 1, 1)),
            'J' => return self.ed(canonical_param(params, 0, 0)),
            'K' => return self.el(canonical_param(params, 0, 0)),
            'L' => self.il(count),
            'M' => self.dl(count),
            'P' => self.dch(count),
            'S' => self.su(count),
            'T' => self.sd(count),
            'X' => self.ech(count),
            'd' => self.vpa(count),
            'r' => {
                let (rows, _) = self.size();
                self.decstbm(count, canonical_param(params, 1, rows));
            },
            's' => self.scosc(),
            'u' => self.scorc(),
            _ => return false,
        }
        true
    }

    /// A control sequence with a private marker of the keyboard protocols.
    /// Returns whether it is known.
    fn csi_keyboard(&mut self, params: &Vec<Vec<u16>>, marker: u8, c: char) -> (handled: bool)
        requires
            old(self)@.wf(),
        ensures
            handled == (old(self)@.csi_keyboard(params_view(params@), marker, c) is Some),
            final(self)@ == (match old(self)@.csi_keyboard(params_view(params@), marker, c) {
                Some(screen) => screen,
                None => old(self)@,
            }),
            final(self)@.keeps_order(old(self)@),
    {
        proof {
            reveal(ScreenModel::csi_keyboard);
        }
        if c == 'u' && marker == 62 {
            self.kitty_keyboard_push(canonical_param(params, 0, 0));
        } else if c == 'u' && marker == 60 {
            self.kitty_keyboard_pop(canonical_param(params, 0, 1));
        } else if c == 'u' && marker == 61 {
            self.kitty_keyboard_set(canonical_param(params, 0, 0), canonical_param(params, 1, 1));
        } else if c == 'm' && marker == 62 && read_param(params, 0) == Some(4u16) {
            self.modify_other_keys_set(read_param(params, 1));
        } else {
            return false;
        }
        true
    }

    fn osc_dispatch(&mut self, params: &Vec<Vec<u8>>, from: usize) -> (r: Performed)
        requires
            old(self)@.wf(),
        ensures
            r.model(final(self)@) == old(self)@.commanded(strings_view(params@), from as int),
            final(self)@ == old(self)@,
            r.next matches Some(next) ==> from < next <= 1,
    {
        let ghost model = strings_view(params@);
        if params.len() == 2 {
            assert(model[0] == params@[0]@ && model[1] == params@[1]@);
            if is_byte(&params[0], 48) {
                if from == 0 {
                    return Performed {
                        notice: Some(Notice::IconName(copy_bytes(&params[1]))),
                        next: Some(1),
                    };
                }
                return Performed::told(Notice::Title(copy_bytes(&params[1])));
            }
            if is_byte(&params[0], 49) {
                return Performed::told(Notice::IconName(copy_bytes(&params[1])));
            }
            if is_byte(&params[0], 50) {
                return Performed::told(Notice::Title(copy_bytes(&params[1])));
            }
        } else if params.len() == 3 {
            assert(model[0] == params@[0]@ && model[1] == params@[1]@ && model[2] == params@[2]@);
            if is_clipboard_command(&params[0]) && all_clipboards(&params[1]) {
                if is_byte(&params[2], 63) {
                    return Performed::told(Notice::Paste(copy_bytes(&params[1])));
                }
                if all_base64(&params[2]) {
                    return Performed::told(
                        Notice::Copy(copy_bytes(&params[1]), copy_bytes(&params[2])),
                    );
                }
            }
        }
        Performed::told(Notice::Osc(copy_strings(params)))
    }
}

} // verus!
