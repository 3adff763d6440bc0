//! The state of a terminal screen.

use crate::ratty_vt::attrs::{Attrs, AttrsModel, Blink, Color, Intensity};
use crate::ratty_vt::cell::Cell;
use crate::ratty_vt::clean_laws::{
    clean_lines, clean_text, law_resizing_keeps_screens_clean, law_text_is_plain,
};
use crate::ratty_vt::grid::{Grid, Pos, Size};
use crate::ratty_vt::grid_model::{at_least_one, lemma_visible};
use crate::ratty_vt::row::{row_text, Row};
use crate::ratty_vt::screen_model::{
    component, flag_byte, is_mode, selects_color, sgr_compound, sgr_run, sgr_selector,
    sgr_simple, sgr_step, text_of_rows, with_color, ModesModel, ScreenModel, SgrModel,
    KITTY_KEYBOARD_STACK_LIMIT, MODE_ALTERNATE_SCREEN, MODE_APPLICATION_CURSOR,
    MODE_APPLICATION_KEYPAD, MODE_BRACKETED_PASTE, MODE_HIDE_CURSOR,
};
use crate::ratty_vt::term::{self, BufWrite};
use crate::ratty_vt::unicode::columns_of_char;
use vstd::prelude::*;
use vstd::string::*;

verus! {

/// Which mouse events the terminal reports.
#[derive(Copy, Clone, Debug, PartialEq, Eq, Structural)]
pub enum MouseProtocolMode {
    /// No mouse reporting.
    Off,
    /// Button presses (mode 9).
    Press,
    /// Button presses and releases (mode 1000).
    PressRelease,
    /// Presses, releases and motion while a button is down (mode 1002).
    ButtonMotion,
    /// Presses, releases and all motion (mode 1003).
    AnyMotion,
}

impl Default for MouseProtocolMode {
    fn default() -> (r: Self)
        ensures
            r == MouseProtocolMode::Off,
    {
        MouseProtocolMode::Off
    }
}

/// How mouse reports are encoded.
#[derive(Copy, Clone, Debug, PartialEq, Eq, Structural)]
pub enum MouseProtocolEncoding {
    /// The single-byte encoding.
    Default,
    /// UTF-8 coordinates (mode 1005).
    Utf8,
    /// Decimal coordinates in a CSI sequence (mode 1006).
    Sgr,
}

impl Default for MouseProtocolEncoding {
    fn default() -> (r: Self)
        ensures
            r == MouseProtocolEncoding::Default,
    {
        MouseProtocolEncoding::Default
    }
}

/// The overall terminal state.
#[derive(Debug)]
pub struct Screen {
    grid: Grid,
    alternate_grid: Grid,
    attrs: Attrs,
    saved_attrs: Attrs,
    modes: u8,
    mouse_protocol_mode: MouseProtocolMode,
    mouse_protocol_encoding: MouseProtocolEncoding,
    // The kitty keyboard protocol keeps one flag stack per screen, so an
    // application that pushes flags on the alternate screen and exits without
    // popping does not leave the shell with enhanced key reporting.
    keyboard_flags: Vec<u8>,
    alternate_keyboard_flags: Vec<u8>,
    modify_other_keys: Option<u8>,
    joins: bool,
}

pub open spec fn modes_view(modes: u8) -> ModesModel {
    ModesModel {
        application_keypad: modes & MODE_APPLICATION_KEYPAD != 0,
        application_cursor: modes & MODE_APPLICATION_CURSOR != 0,
        hide_cursor: modes & MODE_HIDE_CURSOR != 0,
        alternate_screen: modes & MODE_ALTERNATE_SCREEN != 0,
        bracketed_paste: modes & MODE_BRACKETED_PASTE != 0,
    }
}

proof fn lemma_no_modes()
    ensures
        modes_view(0) == ModesModel::off(),
{
    assert(forall|k: u8| 0u8 & k == 0) by (bit_vector);
}

/// Setting or clearing one mode leaves the others alone.
proof fn lemma_switch_mode(modes: u8, mode: u8)
    requires
        is_mode(mode),
    ensures
        modes_view(modes | mode) == modes_view(modes).with(mode, true),
        modes_view(modes & !mode) == modes_view(modes).with(mode, false),
{
    lemma_other_mode(modes, mode, MODE_APPLICATION_KEYPAD);
    lemma_other_mode(modes, mode, MODE_APPLICATION_CURSOR);
    lemma_other_mode(modes, mode, MODE_HIDE_CURSOR);
    lemma_other_mode(modes, mode, MODE_ALTERNATE_SCREEN);
    lemma_other_mode(modes, mode, MODE_BRACKETED_PASTE);
}

proof fn lemma_other_mode(modes: u8, mode: u8, other: u8)
    requires
        is_mode(mode),
        is_mode(other),
    ensures
        ((modes | mode) & other != 0) == (mode == other || modes & other != 0),
        ((modes & !mode) & other != 0) == (mode != other && modes & other != 0),
{
    let m = modes;
    assert((mode == 1 || mode == 2 || mode == 4 || mode == 8 || mode == 16) && (other == 1 || other == 2
        || other == 4 || other == 8 || other == 16) ==> (((m | mode) & other != 0) == (mode == other
        || m & other != 0) && ((m & !mode) & other != 0) == (mode != other && m & other != 0)))
        by (bit_vector);
}

impl View for Screen {
    type V = ScreenModel;

    closed spec fn view(&self) -> ScreenModel {
        ScreenModel {
            grid: self.grid@,
            alternate_grid: self.alternate_grid@,
            attrs: self.attrs@,
            saved_attrs: self.saved_attrs@,
            modes: modes_view(self.modes),
            mouse_mode: self.mouse_protocol_mode,
            mouse_encoding: self.mouse_protocol_encoding,
            keyboard: self.keyboard_flags@,
            alternate_keyboard: self.alternate_keyboard_flags@,
            modify_other_keys: self.modify_other_keys,
            joins: self.joins,
        }
    }
}

fn copy_flags(flags: &Vec<u8>) -> (r: Vec<u8>)
    ensures
        r@ == flags@,
{
    let mut r: Vec<u8> = Vec::new();
    term::push_bytes(&mut r, flags.as_slice());
    assert(r@ =~= flags@);
    r
}

impl Clone for Screen {
    fn clone(&self) -> (r: Self)
        ensures
            r@ == self@,
    {
        Screen {
            grid: self.grid.clone(),
            alternate_grid: self.alternate_grid.clone(),
            attrs: self.attrs,
            saved_attrs: self.saved_attrs,
            modes: self.modes,
            mouse_protocol_mode: self.mouse_protocol_mode,
            mouse_protocol_encoding: self.mouse_protocol_encoding,
            keyboard_flags: copy_flags(&self.keyboard_flags),
            alternate_keyboard_flags: copy_flags(&self.alternate_keyboard_flags),
            modify_other_keys: self.modify_other_keys,
            joins: self.joins,
        }
    }
}

impl Screen {
    pub fn new(size: Size, scrollback_len: usize) -> (r: Self)
        requires
            size.rows > 0,
            size.cols > 0,
        ensures
            r@ == ScreenModel::fresh(size, scrollback_len),
            r@.wf(),
            r@.uniform(),
    {
        let mut grid = Grid::new(size, scrollback_len);
        grid.allocate_rows();
        proof {
            lemma_no_modes();
        }
        Screen {
            grid,
            alternate_grid: Grid::new(size, 0),
            attrs: Attrs::default(),
            saved_attrs: Attrs::default(),
            modes: 0,
            mouse_protocol_mode: MouseProtocolMode::default(),
            mouse_protocol_encoding: MouseProtocolEncoding::default(),
            keyboard_flags: Vec::new(),
            alternate_keyboard_flags: Vec::new(),
            modify_other_keys: None,
            joins: false,
        }
    }

    /// Resizes the terminal. Rows are cut off or filled up.
    pub fn set_size(&mut self, rows: u16, cols: u16)
        requires
            old(self)@.wf(),
            rows > 0,
            cols > 0,
        ensures
            final(self)@ == old(self)@.resized(Size { rows, cols }),
            final(self)@.wf(),
            old(self)@.holds_no_controls() ==> final(self)@.holds_no_controls(),
    {
        proof {
            if self@.holds_no_controls() {
                law_resizing_keeps_screens_clean(self@, Size { rows, cols }, 0);
            }
        }
        self.grid.set_size(Size { rows, cols });
        self.alternate_grid.set_size(Size { rows, cols });
    }

    /// Resizes the terminal and wraps the lines of the main screen anew, the
    /// scrollback's too. The alternate screen is cut off or filled up.
    pub fn set_size_reflow(&mut self, rows: u16, cols: u16)
        requires
            old(self)@.wf(),
            old(self)@.uniform() || at_least_one(cols) != old(self)@.grid.size.cols,
        ensures
            final(self)@ == old(self)@.reflowed(Size { rows, cols }),
            final(self)@.wf(),
            final(self)@.uniform(),
            old(self)@.holds_no_controls() ==> final(self)@.holds_no_controls(),
    {
        let size = Size { rows, cols };
        proof {
            if self@.holds_no_controls() {
                law_resizing_keeps_screens_clean(self@, size, 0);
            }
        }
        self.grid.set_size_reflow(size);
        self.alternate_grid.set_size_plain(size);
    }

    /// Returns the current size of the terminal as (rows, cols).
    #[must_use]
    pub fn size(&self) -> (r: (u16, u16))
        ensures
            r.0 == self@.size().rows,
            r.1 == self@.size().cols,
    {
        let size = self.grid().size();
        (size.rows, size.cols)
    }

    /// Scrolls the view back by a number of rows, at most to the oldest one.
    pub fn set_scrollback(&mut self, rows: usize)
        requires
            old(self)@.wf(),
        ensures
            final(self)@ == old(self)@.with_active(old(self)@.active().scrolled_back(rows as int)),
            final(self)@.keeps_order(old(self)@),
            old(self)@.holds_no_controls() ==> final(self)@.holds_no_controls(),
    {
        proof {
            if self@.holds_no_controls() {
                law_resizing_keeps_screens_clean(self@, self@.size(), rows as int);
            }
        }
        self.grid_mut().set_scrollback(rows);
    }

    /// Returns by how many rows the view is scrolled back.
    #[must_use]
    pub fn scrollback(&self) -> (r: usize)
        ensures
            r == self@.active().scrollback_offset,
    {
        self.grid().scrollback()
    }

    /// Returns the text contents of the terminal.
    ///
    /// This will not include any formatting information, and will be in plain
    /// text format.
    #[must_use]
    pub fn contents(&self) -> (r: String)
        requires
            self@.wf(),
        ensures
            r@ == self@.active().text(Seq::empty()),
            self@.holds_no_controls() ==> clean_lines(r@),
    {
        proof {
            if self@.holds_no_controls() {
                law_text_is_plain(self@, 0, 0, 0, 0, 0, 0);
            }
        }
        let mut contents = String::new();
        self.write_contents(&mut contents);
        contents
    }

    fn write_contents(&self, contents: &mut String)
        requires
            self@.wf(),
        ensures
            final(contents)@ == self@.active().text(old(contents)@),
    {
        self.grid().write_contents(contents);
    }

    /// Returns the text contents of the terminal by row, restricted to the
    /// given subset of columns.
    pub fn rows(&self, start: u16, width: u16) -> (r: Vec<String>)
        requires
            self@.wf(),
        ensures
            r@.len() == self@.row_texts(start as int, width as int).len(),
            forall|i: int|
                0 <= i < r@.len() ==> (#[trigger] r@[i])@ == self@.row_texts(
                    start as int,
                    width as int,
                )[i],
            self@.holds_no_controls() ==> forall|i: int|
                0 <= i < r@.len() ==> clean_text((#[trigger] r@[i])@),
    {
        let rows = self.grid().visible_rows();
        proof {
            lemma_visible(self@.active());
            if self@.holds_no_controls() {
                law_text_is_plain(self@, start as int, width as int, 0, 0, 0, 0);
            }
        }
        let mut r: Vec<String> = Vec::new();
        let mut i: usize = 0;
        while i < rows.len()
            invariant
                i <= rows@.len(),
                r@.len() == i,
                rows@.len() == self@.active().visible().len(),
                forall|k: int| 0 <= k < rows@.len() ==> (#[trigger] rows@[k])@ == self@.active().visible()[k],
                forall|k: int|
                    0 <= k < self@.active().visible().len() ==> crate::ratty_vt::grid_model::history_fits(
                        #[trigger] self@.active().visible()[k],
                    ),
                forall|k: int|
                    0 <= k < i ==> (#[trigger] r@[k])@ == self@.row_texts(start as int, width as int)[k],
            decreases rows.len() - i,
        {
            let row: &Row = rows[i];
            let mut contents = String::new();
            row.write_contents(&mut contents, start, width, false);
            assert(contents@ == row_text(Seq::empty(), row@, start as int, width as int, false));
            r.push(contents);
            i = i + 1;
        }
        r
    }

    /// Returns the text contents of the terminal logically between two cells,
    /// with the given starting and ending coordinates. This handles wrapping
    /// of lines correctly.
    #[must_use]
    pub fn contents_between(&self, start_row: u16, start_col: u16, end_row: u16, end_col: u16) -> (r:
        String)
        requires
            self@.wf(),
            start_row < end_row && start_row < self@.size().rows ==> start_col <= self@.size().cols,
        ensures
            r@ == self@.text_between(
                start_row as int,
                start_col as int,
                end_row as int,
                end_col as int,
            ),
            self@.holds_no_controls() ==> clean_lines(r@),
    {
        proof {
            if self@.holds_no_controls() {
                law_text_is_plain(
                    self@,
                    0,
                    0,
                    start_row as int,
                    start_col as int,
                    end_row as int,
                    end_col as int,
                );
            }
        }
        if start_row == end_row {
            if start_col < end_col {
                let mut rows = self.rows(start_col, end_col - start_col);
                if (start_row as usize) < rows.len() {
                    return rows.swap_remove(start_row as usize);
                }
            }
            return String::new();
        }
        let mut contents = String::new();
        if start_row > end_row {
            return contents;
        }
        let (_, cols) = self.size();
        let rows = self.grid().visible_rows();
        let ghost model = self@.active().visible();
        proof {
            lemma_visible(self@.active());
        }
        let end: usize = if end_row as usize + 1 < rows.len() { end_row as usize + 1 } else { rows.len() };
        let mut i: usize = start_row as usize;
        while i < end
            invariant
                start_row <= i,
                start_row < end_row,
                i <= end || i == start_row,
                end <= rows@.len() == model.len(),
                start_row < end ==> start_col <= cols,
                forall|k: int| 0 <= k < rows@.len() ==> (#[trigger] rows@[k])@ == model[k],
                forall|k: int|
                    0 <= k < model.len() ==> crate::ratty_vt::grid_model::history_fits(#[trigger] model[k]),
                contents@ == text_of_rows(
                    model,
                    start_row as int,
                    start_col as int,
                    end_row as int,
                    end_col as int,
                    cols as int,
                    i as int,
                ),
            decreases end - i,
        {
            let row: &Row = rows[i];
            if i == end_row as usize {
                row.write_contents(&mut contents, 0, end_col, false);
            } else {
                if i == start_row as usize {
                    row.write_contents(&mut contents, start_col, cols - start_col, false);
                } else {
                    row.write_contents(&mut contents, 0, cols, false);
                }
                if !row.wrapped() {
                    let ghost before = contents@;
                    contents.append("\n");
                    proof {
                        reveal_strlit("\n");
                        assert(contents@ =~= before.push('\n'));
                    }
                }
            }
            i = i + 1;
        }
        contents
    }

    /// Return escape codes sufficient to reproduce the entire contents of the
    /// current terminal state.
    #[must_use]
    pub fn state_formatted(&self) -> (r: Vec<u8>)
        requires
            self@.wf(),
        ensures
            r@ == self@.input_mode_bytes(self@.contents_bytes(Seq::empty())),
    {
        let mut contents: Vec<u8> = Vec::new();
        self.write_contents_formatted(&mut contents);
        self.write_input_mode_formatted(&mut contents);
        contents
    }

    /// Return escape codes sufficient to turn the terminal state of the screen
    /// `prev` into the current terminal state.
    #[must_use]
    pub fn state_diff(&self, prev: &Screen) -> (r: Vec<u8>)
        requires
            self@.wf(),
            prev@.wf(),
        ensures
            r@ == self@.input_mode_diff_bytes(self@.diff_bytes(Seq::empty(), prev@), prev@),
    {
        let mut contents: Vec<u8> = Vec::new();
        self.write_contents_diff(&mut contents, prev);
        self.write_input_mode_diff(&mut contents, prev);
        contents
    }

    /// Returns the formatted visible contents of the terminal.
    ///
    /// Formatting information is included in the output as terminal escape
    /// codes.
    #[must_use]
    pub fn contents_formatted(&self) -> (r: Vec<u8>)
        requires
            self@.wf(),
        ensures
            r@ == self@.contents_bytes(Seq::empty()),
    {
        let mut contents: Vec<u8> = Vec::new();
        self.write_contents_formatted(&mut contents);
        contents
    }

    fn write_contents_formatted(&self, contents: &mut Vec<u8>)
        requires
            self@.wf(),
        ensures
            final(contents)@ == self@.contents_bytes(old(contents)@),
    {
        term::HideCursor { state: self.hide_cursor() }.write_buf(contents);
        let prev_attrs = self.grid().write_contents_formatted(contents);
        self.attrs.write_escape_code_diff(contents, &prev_attrs);
    }

    /// Returns the formatted contents of the terminal by row, restricted to the
    /// given subset of columns.
    pub fn rows_formatted(&self, start: u16, width: u16) -> (r: Vec<Vec<u8>>)
        requires
            self@.wf(),
            forall|i: int|
                0 <= i < self@.active().visible().len() ==> start < (
                #[trigger] self@.active().visible()[i]).cells.len(),
        ensures
            r@.len() == self@.row_bytes(start as int, width as int).len(),
            forall|i: int|
                0 <= i < r@.len() ==> (#[trigger] r@[i])@ == self@.row_bytes(
                    start as int,
                    width as int,
                )[i],
    {
        let rows = self.grid().visible_rows();
        let ghost model = self@.active().visible();
        proof {
            lemma_visible(self@.active());
        }
        let whole = start == 0 && width == self.grid.size().cols;
        let mut wrapping = false;
        let mut r: Vec<Vec<u8>> = Vec::new();
        let mut i: usize = 0;
        while i < rows.len()
            invariant
                i <= rows@.len() <= u16::MAX,
                r@.len() == i,
                rows@.len() == model.len(),
                model == self@.active().visible(),
                whole == (start == 0 && width == self@.grid.size.cols),
                wrapping == (whole && i > 0 && model[i - 1].wrapped),
                forall|k: int| 0 <= k < rows@.len() ==> (#[trigger] rows@[k])@ == model[k],
                forall|k: int|
                    0 <= k < model.len() ==> crate::ratty_vt::grid_model::history_fits(#[trigger] model[k]),
                forall|k: int| 0 <= k < model.len() ==> start < (#[trigger] model[k]).cells.len(),
                forall|k: int|
                    0 <= k < i ==> (#[trigger] r@[k])@ == self@.row_bytes(start as int, width as int)[k],
            decreases rows.len() - i,
        {
            let row: &Row = rows[i];
            let mut contents: Vec<u8> = Vec::new();
            let _ = row.write_contents_formatted(
                &mut contents,
                start,
                width,
                i as u16,
                wrapping,
                None,
                None,
            );
            if whole {
                wrapping = row.wrapped();
            }
            assert(contents@ == self@.row_bytes(start as int, width as int)[i as int]);
            r.push(contents);
            i = i + 1;
        }
        r
    }

    /// Returns a terminal byte stream sufficient to turn the visible contents
    /// of the screen described by `prev` into the visible contents of this
    /// screen.
    ///
    /// The result of rendering `prev.contents_formatted()` followed by
    /// `self.contents_diff(prev)` should be equivalent to the result of
    /// rendering `self.contents_formatted()`.
    #[must_use]
    pub fn contents_diff(&self, prev: &Screen) -> (r: Vec<u8>)
        requires
            self@.wf(),
            prev@.wf(),
        ensures
            r@ == self@.diff_bytes(Seq::empty(), prev@),
    {
        let mut contents: Vec<u8> = Vec::new();
        self.write_contents_diff(&mut contents, prev);
        contents
    }

    fn write_contents_diff(&self, contents: &mut Vec<u8>, prev: &Screen)
        requires
            self@.wf(),
            prev@.wf(),
        ensures
            final(contents)@ == self@.diff_bytes(old(contents)@, prev@),
    {
        if self.hide_cursor() != prev.hide_cursor() {
            term::HideCursor { state: self.hide_cursor() }.write_buf(contents);
        }
        let prev_attrs = self.grid().write_contents_diff(contents, prev.grid(), prev.attrs);
        self.attrs.write_escape_code_diff(contents, &prev_attrs);
    }

    /// Returns a sequence of terminal byte streams sufficient to turn the
    /// visible contents of the subset of each row from `prev` (as described by
    /// `start` and `width`) into the visible contents of the corresponding row
    /// subset in `self`.
    ///
    /// You are responsible for positioning the cursor before printing each
    /// row, and the final cursor position after displaying each row is
    /// unspecified.
    pub fn rows_diff(&self, prev: &Screen, start: u16, width: u16) -> (r: Vec<Vec<u8>>)
        requires
            self@.wf(),
            prev@.wf(),
            forall|i: int|
                0 <= i < self@.active().visible().len() ==> start < (
                #[trigger] self@.active().visible()[i]).cells.len(),
            forall|i: int|
                0 <= i < prev@.active().visible().len() ==> start < (
                #[trigger] prev@.active().visible()[i]).cells.len(),
        ensures
            r@.len() == self@.row_diffs(prev@, start as int, width as int).len(),
            forall|i: int|
                0 <= i < r@.len() ==> (#[trigger] r@[i])@ == self@.row_diffs(
                    prev@,
                    start as int,
                    width as int,
                )[i],
    {
        let rows = self.grid().visible_rows();
        let prev_rows = prev.grid().visible_rows();
        let ghost model = self@.active().visible();
        let ghost prev_model = prev@.active().visible();
        proof {
            lemma_visible(self@.active());
            lemma_visible(prev@.active());
        }
        let n: usize = if rows.len() < prev_rows.len() { rows.len() } else { prev_rows.len() };
        let mut r: Vec<Vec<u8>> = Vec::new();
        let mut i: usize = 0;
        while i < n
            invariant
                i <= n <= u16::MAX,
                r@.len() == i,
                n <= rows@.len() == model.len(),
                n <= prev_rows@.len() == prev_model.len(),
                n == model.len() || n == prev_model.len(),
                model == self@.active().visible(),
                prev_model == prev@.active().visible(),
                forall|k: int| 0 <= k < rows@.len() ==> (#[trigger] rows@[k])@ == model[k],
                forall|k: int|
                    0 <= k < model.len() ==> crate::ratty_vt::grid_model::history_fits(#[trigger] model[k]),
                forall|k: int| 0 <= k < model.len() ==> start < (#[trigger] model[k]).cells.len(),
                forall|k: int| 0 <= k < prev_rows@.len() ==> (#[trigger] prev_rows@[k])@ == prev_model[k],
                forall|k: int|
                    0 <= k < prev_model.len() ==> crate::ratty_vt::grid_model::history_fits(
                        #[trigger] prev_model[k],
                    ),
                forall|k: int| 0 <= k < prev_model.len() ==> start < (#[trigger] prev_model[k]).cells.len(),
                forall|k: int|
                    0 <= k < i ==> (#[trigger] r@[k])@ == self@.row_diffs(
                        prev@,
                        start as int,
                        width as int,
                    )[k],
            decreases n - i,
        {
            let row: &Row = rows[i];
            let prev_row: &Row = prev_rows[i];
            let mut contents: Vec<u8> = Vec::new();
            let _ = row.write_contents_diff(
                &mut contents,
                prev_row,
                start,
                width,
                i as u16,
                false,
                false,
                Pos { row: i as u16, col: start },
                Attrs::default(),
            );
            assert(contents@ == self@.row_diffs(prev@, start as int, width as int)[i as int]);
            r.push(contents);
            i = i + 1;
        }
        r
    }

    /// Returns terminal escape sequences sufficient to set the current
    /// terminal's input modes: application keypad, application cursor,
    /// bracketed paste and xterm mouse support.
    #[must_use]
    pub fn input_mode_formatted(&self) -> (r: Vec<u8>)
        ensures
            r@ == self@.input_mode_bytes(Seq::empty()),
    {
        let mut contents: Vec<u8> = Vec::new();
        self.write_input_mode_formatted(&mut contents);
        contents
    }

    fn write_input_mode_formatted(&self, contents: &mut Vec<u8>)
        ensures
            final(contents)@ == self@.input_mode_bytes(old(contents)@),
    {
        term::ApplicationKeypad { state: self.mode(MODE_APPLICATION_KEYPAD) }.write_buf(contents);
        term::ApplicationCursor { state: self.mode(MODE_APPLICATION_CURSOR) }.write_buf(contents);
        term::BracketedPaste { state: self.mode(MODE_BRACKETED_PASTE) }.write_buf(contents);
        term::MouseMode { mode: self.mouse_protocol_mode, prev: MouseProtocolMode::Off }.write_buf(
            contents,
        );
        term::MouseEncoding {
            encoding: self.mouse_protocol_encoding,
            prev: MouseProtocolEncoding::Default,
        }.write_buf(contents);
    }

    /// Returns terminal escape sequences sufficient to change the previous
    /// terminal's input modes to the input modes enabled in the current
    /// terminal.
    #[must_use]
    pub fn input_mode_diff(&self, prev: &Screen) -> (r: Vec<u8>)
        ensures
            r@ == self@.input_mode_diff_bytes(Seq::empty(), prev@),
    {
        let mut contents: Vec<u8> = Vec::new();
        self.write_input_mode_diff(&mut contents, prev);
        contents
    }

    fn write_input_mode_diff(&self, contents: &mut Vec<u8>, prev: &Screen)
        ensures
            final(contents)@ == self@.input_mode_diff_bytes(old(contents)@, prev@),
    {
        let ghost start = contents@;
        if self.mode(MODE_APPLICATION_KEYPAD) != prev.mode(MODE_APPLICATION_KEYPAD) {
            term::ApplicationKeypad { state: self.mode(MODE_APPLICATION_KEYPAD) }.write_buf(contents);
        }
        if self.mode(MODE_APPLICATION_CURSOR) != prev.mode(MODE_APPLICATION_CURSOR) {
            term::ApplicationCursor { state: self.mode(MODE_APPLICATION_CURSOR) }.write_buf(contents);
        }
        if self.mode(MODE_BRACKETED_PASTE) != prev.mode(MODE_BRACKETED_PASTE) {
            term::BracketedPaste { state: self.mode(MODE_BRACKETED_PASTE) }.write_buf(contents);
        }
        term::MouseMode { mode: self.mouse_protocol_mode, prev: prev.mouse_protocol_mode }.write_buf(
            contents,
        );
        term::MouseEncoding {
            encoding: self.mouse_protocol_encoding,
            prev: prev.mouse_protocol_encoding,
        }.write_buf(contents);
        assert(contents@ =~= self@.input_mode_diff_bytes(start, prev@));
    }

    /// Returns terminal escape sequences sufficient to set the current
    /// terminal's drawing attributes.
    #[must_use]
    pub fn attributes_formatted(&self) -> (r: Vec<u8>)
        ensures
            r@ == self@.attributes_bytes(),
    {
        let mut contents: Vec<u8> = Vec::new();
        self.write_attributes_formatted(&mut contents);
        assert(contents@ =~= self@.attributes_bytes());
        contents
    }

    fn write_attributes_formatted(&self, contents: &mut Vec<u8>)
        ensures
            final(contents)@ == old(contents)@ + self@.attributes_bytes(),
    {
        let ghost start = contents@;
        term::ClearAttrs.write_buf(contents);
        self.attrs.write_escape_code_diff(contents, &Attrs::default());
        assert(contents@ =~= start + self@.attributes_bytes());
    }

    /// Returns the current cursor position of the terminal as (row, col).
    #[must_use]
    pub fn cursor_position(&self) -> (r: (u16, u16))
        ensures
            r.0 == self@.active().pos.row,
            r.1 == self@.active().pos.col,
    {
        let pos = self.grid().pos();
        (pos.row, pos.col)
    }

    /// Returns the position a renderer should draw the cursor at, as
    /// `(row, col)`.
    ///
    /// [`cursor_position`](Self::cursor_position) reports the logical
    /// position, whose column can equal the width after a character was drawn
    /// in the last column. This clamps that column onto the grid and, when the
    /// cursor sits on the second half of a wide character, snaps it to the
    /// first half, so the reported cell is always one that exists and owns its
    /// glyph.
    #[must_use]
    pub fn display_cursor_position(&self) -> (r: (u16, u16))
        requires
            self@.wf(),
        ensures
            r.0 == self@.display_cursor().row,
            r.1 == self@.display_cursor().col,
            r.0 < self@.size().rows,
            r.1 < self@.size().cols,
    {
        let pos = self.grid().pos();
        let size = self.grid().size();
        let mut col: u16 = if pos.col < size.cols { pos.col } else { size.cols - 1 };
        if let Some(cell) = self.grid().drawing_cell(Pos { row: pos.row, col }) {
            if cell.is_wide_continuation() {
                col = col.saturating_sub(1);
            }
        }
        (pos.row, col)
    }

    /// Returns whether a renderer should leave the cursor undrawn: an
    /// application hid it, or the view is scrolled back, and the cursor belongs
    /// to the live screen.
    #[must_use]
    pub fn cursor_hidden(&self) -> (r: bool)
        ensures
            r == (self@.modes.hide_cursor || self@.active().scrollback_offset > 0),
    {
        self.hide_cursor() || self.scrollback() > 0
    }

    /// Returns terminal escape sequences sufficient to set the current cursor
    /// state of the terminal.
    ///
    /// The bytes may alter the active drawing attributes, because it may
    /// require redrawing existing cells in order to position the cursor
    /// correctly.
    #[must_use]
    pub fn cursor_state_formatted(&self) -> (r: Vec<u8>)
        requires
            self@.wf(),
        ensures
            r@ == self@.active().cursor_formatted(self@.cursor_visibility(), None, None),
    {
        let mut contents: Vec<u8> = Vec::new();
        self.write_cursor_state_formatted(&mut contents);
        contents
    }

    fn write_cursor_state_formatted(&self, contents: &mut Vec<u8>)
        requires
            self@.wf(),
            old(contents)@.len() == 0,
        ensures
            final(contents)@ == self@.active().cursor_formatted(self@.cursor_visibility(), None, None),
    {
        term::HideCursor { state: self.hide_cursor() }.write_buf(contents);
        assert(contents@ =~= self@.cursor_visibility());
        self.grid().write_cursor_position_formatted(contents, None, None);
    }

    /// Returns the visible row at `row`, if it exists, after taking the
    /// scrollback offset into account.
    #[must_use]
    pub fn visible_row(&self, row: u16) -> (r: Option<&Row>)
        requires
            self@.wf(),
        ensures
            match r {
                Some(found) => row < self@.size().rows && found@ == self@.active().visible()[row as int],
                None => row >= self@.size().rows,
            },
    {
        self.grid().visible_row(row)
    }

    /// The visible rows, top to bottom, after taking the scrollback offset into
    /// account.
    pub fn visible_rows(&self) -> (r: Vec<&Row>)
        requires
            self@.wf(),
        ensures
            r@.len() == self@.size().rows,
            forall|i: int| 0 <= i < r@.len() ==> (#[trigger] r@[i])@ == self@.active().visible()[i],
    {
        self.grid().visible_rows()
    }

    /// Returns the cell at the given location in the terminal, if it exists.
    #[must_use]
    pub fn cell(&self, row: u16, col: u16) -> (r: Option<&Cell>)
        requires
            self@.wf(),
        ensures
            match r {
                Some(cell) => row < self@.size().rows && col
                    < self@.active().visible()[row as int].cells.len() && cell@
                    == self@.active().visible()[row as int].cells[col as int],
                None => row >= self@.size().rows || col
                    >= self@.active().visible()[row as int].cells.len(),
            },
    {
        self.grid().visible_cell(Pos { row, col })
    }

    /// Returns whether the text in row `row` should wrap to the next line.
    #[must_use]
    pub fn row_wrapped(&self, row: u16) -> (r: bool)
        requires
            self@.wf(),
        ensures
            r == (row < self@.size().rows && self@.active().visible()[row as int].wrapped),
    {
        match self.grid().visible_row(row) {
            Some(row) => row.wrapped(),
            None => false,
        }
    }

    /// Returns whether the alternate screen is currently in use.
    #[must_use]
    pub fn alternate_screen(&self) -> (r: bool)
        ensures
            r == self@.modes.alternate_screen,
    {
        self.mode(MODE_ALTERNATE_SCREEN)
    }

    /// Returns whether the terminal should be in application keypad mode.
    #[must_use]
    pub fn application_keypad(&self) -> (r: bool)
        ensures
            r == self@.modes.application_keypad,
    {
        self.mode(MODE_APPLICATION_KEYPAD)
    }

    /// Returns whether the terminal should be in application cursor mode.
    #[must_use]
    pub fn application_cursor(&self) -> (r: bool)
        ensures
            r == self@.modes.application_cursor,
    {
        self.mode(MODE_APPLICATION_CURSOR)
    }

    /// Returns whether the terminal should be in hide cursor mode.
    #[must_use]
    pub fn hide_cursor(&self) -> (r: bool)
        ensures
            r == self@.modes.hide_cursor,
    {
        self.mode(MODE_HIDE_CURSOR)
    }

    /// Returns whether the terminal should be in bracketed paste mode.
    #[must_use]
    pub fn bracketed_paste(&self) -> (r: bool)
        ensures
            r == self@.modes.bracketed_paste,
    {
        self.mode(MODE_BRACKETED_PASTE)
    }

    /// Returns the currently active [`MouseProtocolMode`].
    #[must_use]
    pub fn mouse_protocol_mode(&self) -> (r: MouseProtocolMode)
        ensures
            r == self@.mouse_mode,
    {
        self.mouse_protocol_mode
    }

    /// Returns the currently active [`MouseProtocolEncoding`].
    #[must_use]
    pub fn mouse_protocol_encoding(&self) -> (r: MouseProtocolEncoding)
        ensures
            r == self@.mouse_encoding,
    {
        self.mouse_protocol_encoding
    }

    /// Returns the active kitty keyboard protocol enhancement flags.
    ///
    /// The flags are the top of the current screen's stack, as set by
    /// `CSI > flags u` (push), `CSI = flags ; mode u` (set), and `CSI < n u`
    /// (pop); `0` means legacy key reporting.
    #[must_use]
    pub fn kitty_keyboard_flags(&self) -> (r: u8)
        ensures
            r == self@.keyboard_flags(),
    {
        let stack = self.kitty_keyboard_stack();
        if stack.len() == 0 {
            0
        } else {
            stack[stack.len() - 1]
        }
    }

    /// Returns the active xterm `modifyOtherKeys` level, or `None` when the
    /// mode is disabled.
    ///
    /// Set by `CSI > 4 ; level m`; level `0`, or a bare `CSI > 4 m`, disables
    /// the mode.
    #[must_use]
    pub fn modify_other_keys(&self) -> (r: Option<u8>)
        ensures
            r == self@.modify_other_keys,
    {
        self.modify_other_keys
    }

    fn kitty_keyboard_stack(&self) -> (r: &Vec<u8>)
        ensures
            r@ == self@.keyboard_stack(),
    {
        if self.mode(MODE_ALTERNATE_SCREEN) {
            &self.alternate_keyboard_flags
        } else {
            &self.keyboard_flags
        }
    }

    fn kitty_keyboard_stack_mut(&mut self) -> (r: &mut Vec<u8>)
        ensures
            r@ == old(self)@.keyboard_stack(),
            final(self)@ == old(self)@.with_keyboard_stack(final(r)@),
    {
        if self.mode(MODE_ALTERNATE_SCREEN) {
            &mut self.alternate_keyboard_flags
        } else {
            &mut self.keyboard_flags
        }
    }

    /// Returns the currently active foreground color.
    #[must_use]
    pub fn fgcolor(&self) -> (r: Color)
        ensures
            r == self@.attrs.fgcolor,
    {
        self.attrs.fgcolor()
    }

    /// Returns the currently active background color.
    #[must_use]
    pub fn bgcolor(&self) -> (r: Color)
        ensures
            r == self@.attrs.bgcolor,
    {
        self.attrs.bgcolor()
    }

    /// Returns whether newly drawn text should be rendered with the bold text
    /// attribute.
    #[must_use]
    pub fn bold(&self) -> (r: bool)
        ensures
            r == (self@.attrs.intensity == Intensity::Bold),
    {
        self.attrs.bold()
    }

    /// Returns whether newly drawn text should be rendered with the dim text
    /// attribute.
    #[must_use]
    pub fn dim(&self) -> (r: bool)
        ensures
            r == (self@.attrs.intensity == Intensity::Dim),
    {
        self.attrs.dim()
    }

    /// Returns whether newly drawn text should be rendered with the italic
    /// text attribute.
    #[must_use]
    pub fn italic(&self) -> (r: bool)
        ensures
            r == self@.attrs.italic,
    {
        self.attrs.italic()
    }

    /// Returns whether newly drawn text should be rendered with the
    /// underlined text attribute.
    #[must_use]
    pub fn underline(&self) -> (r: bool)
        ensures
            r == self@.attrs.underline,
    {
        self.attrs.underline()
    }

    /// Returns whether newly drawn text should be rendered with the inverse
    /// text attribute.
    #[must_use]
    pub fn inverse(&self) -> (r: bool)
        ensures
            r == self@.attrs.inverse,
    {
        self.attrs.inverse()
    }

    /// Returns the blink attribute newly drawn text should be rendered with.
    #[must_use]
    pub fn blink(&self) -> (r: Blink)
        ensures
            r == self@.attrs.blink,
    {
        self.attrs.blink()
    }

    /// Returns whether newly drawn text should be concealed (SGR 8).
    #[must_use]
    pub fn hidden(&self) -> (r: bool)
        ensures
            r == self@.attrs.hidden,
    {
        self.attrs.hidden()
    }

    /// Returns whether newly drawn text should be struck through (SGR 9).
    #[must_use]
    pub fn strikeout(&self) -> (r: bool)
        ensures
            r == self@.attrs.strikeout,
    {
        self.attrs.strikeout()
    }

    /// Returns the underline color of newly drawn text (SGR 58);
    /// `Color::Default` means the foreground color.
    #[must_use]
    pub fn underline_color(&self) -> (r: Color)
        ensures
            r == self@.attrs.underline_color,
    {
        self.attrs.underline_color()
    }

    /// The grid in use.
    pub fn grid(&self) -> (r: &Grid)
        ensures
            r@ == self@.active(),
    {
        if self.mode(MODE_ALTERNATE_SCREEN) {
            &self.alternate_grid
        } else {
            &self.grid
        }
    }

    fn grid_mut(&mut self) -> (r: &mut Grid)
        ensures
            r@ == old(self)@.active(),
            final(self)@ == old(self)@.with_active(final(r)@),
    {
        if self.mode(MODE_ALTERNATE_SCREEN) {
            &mut self.alternate_grid
        } else {
            &mut self.grid
        }
    }

    fn set_mode(&mut self, mode: u8)
        requires
            is_mode(mode),
        ensures
            final(self)@ == old(self)@.with_mode(mode, true),
    {
        proof {
            lemma_switch_mode(self.modes, mode);
        }
        self.modes = self.modes | mode;
    }

    fn clear_mode(&mut self, mode: u8)
        requires
            is_mode(mode),
        ensures
            final(self)@ == old(self)@.with_mode(mode, false),
    {
        proof {
            lemma_switch_mode(self.modes, mode);
        }
        self.modes = self.modes & !mode;
    }

    fn mode(&self, mode: u8) -> (r: bool)
        requires
            is_mode(mode),
        ensures
            r == self@.modes.get(mode),
    {
        self.modes & mode != 0
    }
}

/// Parameters with their parts, as sequences.
pub open spec fn params_view(params: Seq<Vec<u16>>) -> Seq<Seq<u16>> {
    Seq::new(params.len(), |i: int| params[i]@)
}

/// Where going through SGR parameters came to an end.
#[derive(Copy, Clone, Debug, PartialEq, Eq, Structural)]
pub enum SgrEnd {
    /// At the end, or the rest is ignored.
    Done,
    /// At a parameter that means nothing here; the next one to look at.
    Unknown(usize),
    /// At a color selector that means nothing here; the rest is ignored.
    UnknownDone,
}

pub open spec fn sgr_end_view(end: SgrEnd) -> SgrModel {
    match end {
        SgrEnd::Done => SgrModel::Stop,
        SgrEnd::Unknown(next) => SgrModel::Unknown(next as int),
        SgrEnd::UnknownDone => SgrModel::UnknownStop,
    }
}

/// A value that fits in a byte.
fn u16_to_u8(i: u16) -> (r: Option<u8>)
    ensures
        r == (if i <= 255 { Some(i as u8) } else { None }),
{
    if i > 255 {
        None
    } else {
        Some(i as u8)
    }
}

/// The color component at a parameter: a single value below 256.
fn read_component(params: &Vec<Vec<u16>>, i: usize) -> (r: Option<u8>)
    ensures
        r == component(params_view(params@), i as int),
{
    if i < params.len() && params[i].len() == 1 {
        u16_to_u8(params[i][0])
    } else {
        None
    }
}

/// Whether a parameter is one value.
fn is_single(param: &Vec<u16>, value: u16) -> (r: bool)
    ensures
        r == (param@ == seq![value]),
{
    let r = param.len() == 1 && param[0] == value;
    proof {
        if r {
            assert(param@ =~= seq![value]);
        } else if param@ == seq![value] {
            assert(param@.len() == 1);
            assert(param@[0] == value);
        }
    }
    r
}

impl Screen {
    /// Types a character: it joins the text before it, or is drawn.
    pub fn text(&mut self, c: char)
        requires
            old(self)@.wf(),
        ensures
            final(self)@ == old(self)@.text(c),
            final(self)@.keeps_order(old(self)@),
    {
        let width = columns_of_char(c);
        if width.is_none() && (c as u32) < 256 {
            // Control characters are not drawn.
            return;
        }
        let columns: u16 = match width {
            Some(columns) => columns as u16,
            None => 1,
        };
        self.text_of_width(c, columns);
    }

    /// Types a character that takes up a number of columns.
    fn text_of_width(&mut self, c: char, width: u16)
        requires
            old(self)@.wf(),
        ensures
            final(self)@ == old(self)@.typed(c, width as int),
            final(self)@.keeps_order(old(self)@),
    {
        let attrs = self.attrs;
        let joins = self.joins;
        let (_, cols) = self.size();
        self.grid_mut().type_char(c, width, attrs, joins);
        self.joins = joins || width <= cols;
    }

    /// Leaves the text that was typed last behind: only marks can still join it.
    pub fn part(&mut self)
        ensures
            final(self)@ == old(self)@.parted(),
    {
        self.joins = false;
    }

    /// Backspace: moves the cursor left.
    pub fn bs(&mut self)
        requires
            old(self)@.wf(),
        ensures
            final(self)@ == old(self)@.with_active(old(self)@.active().col_dec(1)),
            final(self)@.keeps_order(old(self)@),
    {
        self.grid_mut().col_dec(1);
    }

    /// Moves the cursor to the next tab stop.
    pub fn tab(&mut self)
        requires
            old(self)@.wf(),
        ensures
            final(self)@ == old(self)@.with_active(old(self)@.active().col_tab()),
            final(self)@.keeps_order(old(self)@),
    {
        self.grid_mut().col_tab();
    }

    /// Line feed: moves the cursor down and scrolls at the bottom.
    pub fn lf(&mut self)
        requires
            old(self)@.wf(),
        ensures
            final(self)@ == old(self)@.with_active(old(self)@.active().row_inc_scroll(1).0),
            final(self)@.keeps_order(old(self)@),
    {
        let _ = self.grid_mut().row_inc_scroll(1);
    }

    /// Vertical tab, which is a line feed.
    pub fn vt(&mut self)
        requires
            old(self)@.wf(),
        ensures
            final(self)@ == old(self)@.with_active(old(self)@.active().row_inc_scroll(1).0),
            final(self)@.keeps_order(old(self)@),
    {
        self.lf();
    }

    /// Form feed, which is a line feed.
    pub fn ff(&mut self)
        requires
            old(self)@.wf(),
        ensures
            final(self)@ == old(self)@.with_active(old(self)@.active().row_inc_scroll(1).0),
            final(self)@.keeps_order(old(self)@),
    {
        self.lf();
    }

    /// Carriage return: moves the cursor to the first column.
    pub fn cr(&mut self)
        requires
            old(self)@.wf(),
        ensures
            final(self)@ == old(self)@.with_active(old(self)@.active().col_set(0)),
            final(self)@.keeps_order(old(self)@),
    {
        self.grid_mut().col_set(0);
    }

    /// `ESC 7`: saves the cursor and the attributes.
    pub fn decsc(&mut self)
        requires
            old(self)@.wf(),
        ensures
            final(self)@ == old(self)@.cursor_saved(),
            final(self)@.keeps_order(old(self)@),
    {
        self.grid_mut().save_cursor();
        self.saved_attrs = self.attrs;
    }

    /// `ESC 8`: restores the cursor and the attributes.
    pub fn decrc(&mut self)
        requires
            old(self)@.wf(),
        ensures
            final(self)@ == old(self)@.cursor_restored(),
            final(self)@.keeps_order(old(self)@),
    {
        self.grid_mut().restore_cursor();
        self.attrs = self.saved_attrs;
    }

    /// `CSI s`: saves only the cursor position, sharing the slot with `ESC 7`;
    /// text attributes are left alone.
    pub fn scosc(&mut self)
        requires
            old(self)@.wf(),
        ensures
            final(self)@ == old(self)@.with_active(old(self)@.active().cursor_saved()),
            final(self)@.keeps_order(old(self)@),
    {
        self.grid_mut().save_cursor();
    }

    /// `CSI u`: restores only the cursor position.
    pub fn scorc(&mut self)
        requires
            old(self)@.wf(),
        ensures
            final(self)@ == old(self)@.with_active(old(self)@.active().cursor_restored()),
            final(self)@.keeps_order(old(self)@),
    {
        self.grid_mut().restore_cursor();
    }

    /// `ESC =`: application keypad mode.
    pub fn deckpam(&mut self)
        requires
            old(self)@.wf(),
        ensures
            final(self)@ == old(self)@.with_mode(MODE_APPLICATION_KEYPAD, true),
            final(self)@.keeps_order(old(self)@),
    {
        self.set_mode(MODE_APPLICATION_KEYPAD);
    }

    /// `ESC >`: normal keypad mode.
    pub fn deckpnm(&mut self)
        requires
            old(self)@.wf(),
        ensures
            final(self)@ == old(self)@.with_mode(MODE_APPLICATION_KEYPAD, false),
            final(self)@.keeps_order(old(self)@),
    {
        self.clear_mode(MODE_APPLICATION_KEYPAD);
    }

    /// `ESC M`: moves the cursor up and scrolls down at the top.
    pub fn ri(&mut self)
        requires
            old(self)@.wf(),
        ensures
            final(self)@ == old(self)@.with_active(old(self)@.active().row_dec_scroll(1)),
            final(self)@.keeps_order(old(self)@),
    {
        self.grid_mut().row_dec_scroll(1);
    }

    /// `ESC c`: switches the terminal off and on again.
    pub fn ris(&mut self)
        requires
            old(self)@.wf(),
        ensures
            final(self)@ == ScreenModel::fresh(old(self)@.grid.size, old(self)@.grid.scrollback_len),
            final(self)@.keeps_order(old(self)@),
    {
        *self = Screen::new(self.grid.size(), self.grid.scrollback_len());
    }

    /// `CSI @`: inserts blank cells at the cursor.
    pub fn ich(&mut self, count: u16)
        requires
            old(self)@.wf(),
        ensures
            final(self)@ == old(self)@.with_active(old(self)@.active().cells_inserted(count as int)),
            final(self)@.keeps_order(old(self)@),
    {
        self.grid_mut().insert_cells(count);
    }

    /// `CSI A`: moves the cursor up.
    pub fn cuu(&mut self, offset: u16)
        requires
            old(self)@.wf(),
        ensures
            final(self)@ == old(self)@.with_active(old(self)@.active().row_dec_clamp(offset as int)),
            final(self)@.keeps_order(old(self)@),
    {
        self.grid_mut().row_dec_clamp(offset);
    }

    /// `CSI B`: moves the cursor down.
    pub fn cud(&mut self, offset: u16)
        requires
            old(self)@.wf(),
        ensures
            final(self)@ == old(self)@.with_active(old(self)@.active().row_inc_clamp(offset as int)),
            final(self)@.keeps_order(old(self)@),
    {
        self.grid_mut().row_inc_clamp(offset);
    }

    /// `CSI C`: moves the cursor right.
    pub fn cuf(&mut self, offset: u16)
        requires
            old(self)@.wf(),
        ensures
            final(self)@ == old(self)@.with_active(old(self)@.active().col_inc_clamp(offset as int)),
            final(self)@.keeps_order(old(self)@),
    {
        self.grid_mut().col_inc_clamp(offset);
    }

    /// `CSI D`: moves the cursor left.
    pub fn cub(&mut self, offset: u16)
        requires
            old(self)@.wf(),
        ensures
            final(self)@ == old(self)@.with_active(old(self)@.active().col_dec(offset as int)),
            final(self)@.keeps_order(old(self)@),
    {
        self.grid_mut().col_dec(offset);
    }

    /// `CSI E`: moves the cursor to the start of a row further down.
    pub fn cnl(&mut self, offset: u16)
        requires
            old(self)@.wf(),
        ensures
            final(self)@ == old(self)@.with_active(old(self)@.active().col_set(0).row_inc_clamp(offset as int)),
            final(self)@.keeps_order(old(self)@),
    {
        self.grid_mut().col_set(0);
        self.grid_mut().row_inc_clamp(offset);
    }

    /// `CSI F`: moves the cursor to the start of a row further up.
    pub fn cpl(&mut self, offset: u16)
        requires
            old(self)@.wf(),
        ensures
            final(self)@ == old(self)@.with_active(old(self)@.active().col_set(0).row_dec_clamp(offset as int)),
            final(self)@.keeps_order(old(self)@),
    {
        self.grid_mut().col_set(0);
        self.grid_mut().row_dec_clamp(offset);
    }

    /// `CSI G`: moves the cursor to a column, counted from one.
    pub fn cha(&mut self, col: u16)
        requires
            old(self)@.wf(),
            col > 0,
        ensures
            final(self)@ == old(self)@.with_active(old(self)@.active().col_set(col - 1)),
            final(self)@.keeps_order(old(self)@),
    {
        self.grid_mut().col_set(col - 1);
    }

    /// `CSI H` and `CSI f`: moves the cursor to a position, counted from one.
    pub fn cup(&mut self, row: u16, col: u16)
        requires
            old(self)@.wf(),
            row > 0,
            col > 0,
        ensures
            final(self)@ == old(self)@.with_active(old(self)@.active().moved_to(Pos { row: (row - 1) as u16, col: (col - 1) as u16 })),
            final(self)@.keeps_order(old(self)@),
    {
        self.grid_mut().set_pos(Pos { row: row - 1, col: col - 1 });
    }

    /// `CSI L`: inserts blank lines at the cursor.
    pub fn il(&mut self, count: u16)
        requires
            old(self)@.wf(),
        ensures
            final(self)@ == old(self)@.with_active(old(self)@.active().lines_inserted(count as int)),
            final(self)@.keeps_order(old(self)@),
    {
        self.grid_mut().insert_lines(count);
    }

    /// `CSI M`: deletes lines at the cursor.
    pub fn dl(&mut self, count: u16)
        requires
            old(self)@.wf(),
        ensures
            final(self)@ == old(self)@.with_active(old(self)@.active().lines_deleted(count as int)),
            final(self)@.keeps_order(old(self)@),
    {
        self.grid_mut().delete_lines(count);
    }

    /// `CSI P`: deletes cells at the cursor.
    pub fn dch(&mut self, count: u16)
        requires
            old(self)@.wf(),
        ensures
            final(self)@ == old(self)@.with_active(old(self)@.active().cells_deleted(count as int)),
            final(self)@.keeps_order(old(self)@),
    {
        self.grid_mut().delete_cells(count);
    }

    /// `CSI S`: scrolls up.
    pub fn su(&mut self, count: u16)
        requires
            old(self)@.wf(),
        ensures
            final(self)@ == old(self)@.with_active(old(self)@.active().scrolled_up(count as int)),
            final(self)@.keeps_order(old(self)@),
    {
        self.grid_mut().scroll_up(count);
    }

    /// `CSI T`: scrolls down.
    pub fn sd(&mut self, count: u16)
        requires
            old(self)@.wf(),
        ensures
            final(self)@ == old(self)@.with_active(old(self)@.active().scrolled_down(count as int)),
            final(self)@.keeps_order(old(self)@),
    {
        self.grid_mut().scroll_down(count);
    }

    /// `CSI X`: erases cells from the cursor on.
    pub fn ech(&mut self, count: u16)
        requires
            old(self)@.wf(),
        ensures
            final(self)@ == old(self)@.with_active(
                old(self)@.active().erased_cells(count as int, old(self)@.attrs),
            ),
            final(self)@.keeps_order(old(self)@),
    {
        let attrs = self.attrs;
        self.grid_mut().erase_cells(count, attrs);
    }

    /// `CSI d`: moves the cursor to a row, counted from one.
    pub fn vpa(&mut self, row: u16)
        requires
            old(self)@.wf(),
            row > 0,
        ensures
            final(self)@ == old(self)@.with_active(old(self)@.active().row_set(row - 1)),
            final(self)@.keeps_order(old(self)@),
    {
        self.grid_mut().row_set(row - 1);
    }

    /// `CSI r`: sets the scroll region, counted from one.
    pub fn decstbm(&mut self, top: u16, bottom: u16)
        requires
            old(self)@.wf(),
            top > 0,
            bottom > 0,
        ensures
            final(self)@ == old(self)@.with_active(old(self)@.active().with_scroll_region((top - 1) as u16, (bottom - 1) as u16)),
            final(self)@.keeps_order(old(self)@),
    {
        self.grid_mut().set_scroll_region(top - 1, bottom - 1);
    }

    /// `CSI J` and `CSI ? J`: erases on the screen. Returns whether the mode is
    /// one that exists.
    pub fn ed(&mut self, mode: u16) -> (handled: bool)
        requires
            old(self)@.wf(),
        ensures
            handled == (old(self)@.display_erased(mode) is Some),
            final(self)@ == (match old(self)@.display_erased(mode) {
                Some(erased) => erased,
                None => old(self)@,
            }),
            final(self)@.keeps_order(old(self)@),
    {
        proof {
            reveal(ScreenModel::display_erased);
        }
        let attrs = self.attrs;
        match mode {
            0 => self.grid_mut().erase_all_forward(attrs),
            1 => self.grid_mut().erase_all_backward(attrs),
            2 => self.grid_mut().erase_all(attrs),
            _ => return false,
        }
        true
    }

    /// `CSI K` and `CSI ? K`: erases on the cursor's row. Returns whether the
    /// mode is one that exists.
    pub fn el(&mut self, mode: u16) -> (handled: bool)
        requires
            old(self)@.wf(),
        ensures
            handled == (old(self)@.line_erased(mode) is Some),
            final(self)@ == (match old(self)@.line_erased(mode) {
                Some(erased) => erased,
                None => old(self)@,
            }),
            final(self)@.keeps_order(old(self)@),
    {
        proof {
            reveal(ScreenModel::line_erased);
        }
        let attrs = self.attrs;
        match mode {
            0 => self.grid_mut().erase_row_forward(attrs),
            1 => self.grid_mut().erase_row_backward(attrs),
            2 => self.grid_mut().erase_row(attrs),
            _ => return false,
        }
        true
    }

    fn enter_alternate_grid(&mut self)
        requires
            old(self)@.wf(),
        ensures
            final(self)@ == old(self)@.alternate_entered(),
            final(self)@.keeps_order(old(self)@),
    {
        self.grid_mut().set_scrollback(0);
        self.set_mode(MODE_ALTERNATE_SCREEN);
        self.alternate_grid.allocate_rows();
    }

    fn exit_alternate_grid(&mut self)
        requires
            old(self)@.wf(),
        ensures
            final(self)@ == old(self)@.alternate_left(),
            final(self)@.keeps_order(old(self)@),
    {
        self.clear_mode(MODE_ALTERNATE_SCREEN);
    }

    /// Saves the cursor and switches to a cleared alternate screen.
    fn open_alternate_screen(&mut self)
        requires
            old(self)@.wf(),
        ensures
            final(self)@ == old(self)@.alternate_opened(),
            final(self)@.keeps_order(old(self)@),
    {
        self.decsc();
        self.alternate_grid.clear();
        self.enter_alternate_grid();
    }

    /// Switches back to the main screen and restores the cursor.
    fn close_alternate_screen(&mut self)
        requires
            old(self)@.wf(),
        ensures
            final(self)@ == old(self)@.alternate_left().cursor_restored(),
            final(self)@.keeps_order(old(self)@),
    {
        self.exit_alternate_grid();
        self.decrc();
    }

    fn clear_mouse_mode(&mut self, mode: MouseProtocolMode)
        ensures
            final(self)@ == old(self)@.without_mouse_mode(mode),
    {
        if self.mouse_protocol_mode == mode {
            self.mouse_protocol_mode = MouseProtocolMode::default();
        }
    }

    fn clear_mouse_encoding(&mut self, encoding: MouseProtocolEncoding)
        ensures
            final(self)@ == old(self)@.without_mouse_encoding(encoding),
    {
        if self.mouse_protocol_encoding == encoding {
            self.mouse_protocol_encoding = MouseProtocolEncoding::default();
        }
    }

    /// One parameter of `CSI ? h`: sets a private mode. Returns whether it is
    /// one that the screen models.
    #[verifier::rlimit(40)]
    pub fn decset(&mut self, param: &Vec<u16>) -> (handled: bool)
        requires
            old(self)@.wf(),
        ensures
            handled == (old(self)@.private_mode_set(param@) is Some),
            final(self)@ == (match old(self)@.private_mode_set(param@) {
                Some(set) => set,
                None => old(self)@,
            }),
            final(self)@.keeps_order(old(self)@),
    {
        proof {
            reveal(ScreenModel::private_mode_set);
        }
        if param.len() != 1 {
            return false;
        }
        match param[0] {
            1 => self.set_mode(MODE_APPLICATION_CURSOR),
            6 => self.grid_mut().set_origin_mode(true),
            9 => self.mouse_protocol_mode = MouseProtocolMode::Press,
            25 => self.clear_mode(MODE_HIDE_CURSOR),
            47 => self.enter_alternate_grid(),
            1000 => self.mouse_protocol_mode = MouseProtocolMode::PressRelease,
            1002 => self.mouse_protocol_mode = MouseProtocolMode::ButtonMotion,
            1003 => self.mouse_protocol_mode = MouseProtocolMode::AnyMotion,
            1005 => self.mouse_protocol_encoding = MouseProtocolEncoding::Utf8,
            1006 => self.mouse_protocol_encoding = MouseProtocolEncoding::Sgr,
            1049 => self.open_alternate_screen(),
            2004 => self.set_mode(MODE_BRACKETED_PASTE),
            _ => return false,
        }
        true
    }

    /// One parameter of `CSI ? l`: resets a private mode. Returns whether it is
    /// one that the screen models.
    #[verifier::rlimit(40)]
    pub fn decrst(&mut self, param: &Vec<u16>) -> (handled: bool)
        requires
            old(self)@.wf(),
        ensures
            handled == (old(self)@.private_mode_reset(param@) is Some),
            final(self)@ == (match old(self)@.private_mode_reset(param@) {
                Some(reset) => reset,
                None => old(self)@,
            }),
            final(self)@.keeps_order(old(self)@),
    {
        proof {
            reveal(ScreenModel::private_mode_reset);
        }
        if param.len() != 1 {
            return false;
        }
        match param[0] {
            1 => self.clear_mode(MODE_APPLICATION_CURSOR),
            6 => self.grid_mut().set_origin_mode(false),
            9 => self.clear_mouse_mode(MouseProtocolMode::Press),
            25 => self.set_mode(MODE_HIDE_CURSOR),
            47 => self.exit_alternate_grid(),
            1000 => self.clear_mouse_mode(MouseProtocolMode::PressRelease),
            1002 => self.clear_mouse_mode(MouseProtocolMode::ButtonMotion),
            1003 => self.clear_mouse_mode(MouseProtocolMode::AnyMotion),
            1005 => self.clear_mouse_encoding(MouseProtocolEncoding::Utf8),
            1006 => self.clear_mouse_encoding(MouseProtocolEncoding::Sgr),
            1049 => self.close_alternate_screen(),
            2004 => self.clear_mode(MODE_BRACKETED_PASTE),
            _ => return false,
        }
        true
    }

    /// `CSI m` without parameters: resets the drawing attributes.
    pub fn sgr_reset(&mut self)
        requires
            old(self)@.wf(),
        ensures
            final(self)@ == (ScreenModel { attrs: AttrsModel::plain(), ..old(self)@ }),
            final(self)@.keeps_order(old(self)@),
    {
        self.attrs = Attrs::default();
    }

    /// `CSI m`: changes the drawing attributes by the parameters from one on,
    /// up to the end or up to one that means nothing here.
    pub fn sgr(&mut self, params: &Vec<Vec<u16>>, from: usize) -> (end: SgrEnd)
        requires
            old(self)@.wf(),
        ensures
            ({
                let (attrs, outcome) = sgr_run(old(self)@.attrs, params_view(params@), from as int);
                final(self)@ == (ScreenModel { attrs, ..old(self)@ }) && sgr_end_view(end) == outcome
            }),
            end matches SgrEnd::Unknown(next) ==> from < next <= params@.len(),
            final(self)@.keeps_order(old(self)@),
    {
        let ghost model = params_view(params@);
        let ghost start = self@;
        let ghost run = sgr_run(self@.attrs, model, from as int);
        let mut i: usize = from;
        while i < params.len()
            invariant
                model == params_view(params@),
                self@ == (ScreenModel { attrs: self@.attrs, ..start }),
                sgr_run(self@.attrs, model, i as int) == run,
                from <= i,
                start.wf(),
                start == old(self)@,
                run == sgr_run(start.attrs, model, from as int),
            decreases params.len() - i,
        {
            match sgr_at(&mut self.attrs, params, i) {
                SgrNext::Next(next) => {
                    i = next;
                },
                SgrNext::End(end) => {
                    return end;
                },
            }
        }
        SgrEnd::Done
    }

    /// `CSI > flags u`: pushes keyboard flags. Values that do not fit are
    /// saturated.
    pub fn kitty_keyboard_push(&mut self, flags: u16)
        requires
            old(self)@.wf(),
        ensures
            final(self)@ == old(self)@.keyboard_pushed(flags),
            final(self)@.keeps_order(old(self)@),
    {
        let flags: u8 = saturate(flags);
        let stack = self.kitty_keyboard_stack_mut();
        if stack.len() >= KITTY_KEYBOARD_STACK_LIMIT {
            let _ = stack.remove(0);
        }
        stack.push(flags);
    }

    /// `CSI < n u`: pops keyboard flags, at least once.
    pub fn kitty_keyboard_pop(&mut self, count: u16)
        requires
            old(self)@.wf(),
        ensures
            final(self)@ == old(self)@.keyboard_popped(count),
            final(self)@.keeps_order(old(self)@),
    {
        let stack = self.kitty_keyboard_stack_mut();
        let count: usize = if count == 0 { 1 } else { count as usize };
        let left: usize = if stack.len() > count { stack.len() - count } else { 0 };
        stack.truncate(left);
    }

    /// `CSI = flags ; mode u`: replaces the current keyboard flags, adds to
    /// them (mode 2) or takes from them (mode 3).
    pub fn kitty_keyboard_set(&mut self, flags: u16, mode: u16)
        requires
            old(self)@.wf(),
        ensures
            final(self)@ == old(self)@.keyboard_set(flags, mode),
            final(self)@.keeps_order(old(self)@),
    {
        let flags: u8 = saturate(flags);
        let ghost model = self@;
        let stack = self.kitty_keyboard_stack_mut();
        if stack.len() == 0 {
            stack.push(0);
            assert(stack@ =~= seq![0u8]);
        }
        let last: usize = stack.len() - 1;
        let current: u8 = stack[last];
        stack[last] = match mode {
            2 => current | flags,
            3 => current & !flags,
            _ => flags,
        };
    }

    /// `CSI > 4 ; level m`: sets the `modifyOtherKeys` level.
    pub fn modify_other_keys_set(&mut self, level: Option<u16>)
        requires
            old(self)@.wf(),
        ensures
            final(self)@ == old(self)@.modify_other_keys_set(level),
            final(self)@.keeps_order(old(self)@),
    {
        self.modify_other_keys = match level {
            None => None,
            Some(level) => if level == 0 {
                None
            } else {
                Some(saturate(level))
            },
        };
    }
}

/// A byte, or the largest one for a value that does not fit.
fn saturate(value: u16) -> (r: u8)
    ensures
        r == flag_byte(value),
{
    if value > 255 {
        255
    } else {
        value as u8
    }
}

/// One step through SGR parameters: on to the next one, or the end.
enum SgrNext {
    Next(usize),
    End(SgrEnd),
}

spec fn sgr_next_view(next: SgrNext) -> SgrModel {
    match next {
        SgrNext::Next(next) => SgrModel::Next(next as int),
        SgrNext::End(end) => sgr_end_view(end),
    }
}

fn sgr_at(attrs: &mut Attrs, params: &Vec<Vec<u16>>, i: usize) -> (r: SgrNext)
    requires
        i < params@.len(),
    ensures
        (final(attrs)@, sgr_next_view(r)) == sgr_step(
            old(attrs)@,
            params_view(params@),
            i as int,
        ),
        match r {
            SgrNext::Next(next) => i < next,
            SgrNext::End(SgrEnd::Unknown(next)) => i < next <= params@.len(),
            _ => true,
        },
{
    let len: usize = params.len();
    assert(i < len);
    let param = &params[i];
    assert(params_view(params@)[i as int] == param@);
    if param.len() != 1 {
        sgr_parts(attrs, param, i)
    } else if param[0] == 38 || param[0] == 48 || param[0] == 58 {
        sgr_color(attrs, params, i)
    } else if sgr_value(attrs, param[0]) {
        SgrNext::Next(i + 1)
    } else {
        SgrNext::End(SgrEnd::Unknown(i + 1))
    }
}

fn set_color(attrs: &mut Attrs, selector: u16, color: Color)
    requires
        selects_color(selector),
    ensures
        final(attrs)@ == with_color(old(attrs)@, selector, color),
{
    match selector {
        38 => attrs.set_fgcolor(color),
        48 => attrs.set_bgcolor(color),
        _ => attrs.set_underline_color(color),
    }
}

fn sgr_parts(attrs: &mut Attrs, param: &Vec<u16>, i: usize) -> (r: SgrNext)
    requires
        i < usize::MAX,
    ensures
        (final(attrs)@, sgr_next_view(r)) == sgr_compound(old(attrs)@, param@, i as int),
        match r {
            SgrNext::Next(next) => next == i + 1,
            SgrNext::End(SgrEnd::Unknown(next)) => next == i + 1,
            _ => true,
        },
{
    let colors = param.len() > 1 && (param[0] == 38 || param[0] == 48 || param[0] == 58);
    if colors && param.len() == 5 && param[1] == 2 {
        match (u16_to_u8(param[2]), u16_to_u8(param[3]), u16_to_u8(param[4])) {
            (Some(r), Some(g), Some(b)) => {
                set_color(attrs, param[0], Color::Rgb(r, g, b));
                SgrNext::Next(i + 1)
            },
            _ => SgrNext::End(SgrEnd::Done),
        }
    } else if colors && param.len() == 3 && param[1] == 5 {
        match u16_to_u8(param[2]) {
            Some(index) => {
                set_color(attrs, param[0], Color::Idx(index));
                SgrNext::Next(i + 1)
            },
            None => SgrNext::End(SgrEnd::Done),
        }
    } else {
        SgrNext::End(SgrEnd::Unknown(i + 1))
    }
}

fn sgr_color(attrs: &mut Attrs, params: &Vec<Vec<u16>>, i: usize) -> (r: SgrNext)
    requires
        i < params@.len(),
        params@[i as int]@.len() == 1,
        selects_color(params@[i as int]@[0]),
    ensures
        (final(attrs)@, sgr_next_view(r)) == sgr_selector(
            old(attrs)@,
            params_view(params@),
            i as int,
        ),
        match r {
            SgrNext::Next(next) => i < next,
            SgrNext::End(SgrEnd::Unknown(_)) => false,
            _ => true,
        },
{
    let selector: u16 = params[i][0];
    let ghost model = params_view(params@);
    let len: usize = params.len();
    if i + 1 >= len {
        return SgrNext::End(SgrEnd::Done);
    }
    assert(model[i + 1] == params@[i + 1]@);
    if is_single(&params[i + 1], 2) {
        let red = match read_component(params, i + 2) {
            Some(red) => red,
            None => return SgrNext::End(SgrEnd::Done),
        };
        let green = match read_component(params, i + 3) {
            Some(green) => green,
            None => return SgrNext::End(SgrEnd::Done),
        };
        let blue = match read_component(params, i + 4) {
            Some(blue) => blue,
            None => return SgrNext::End(SgrEnd::Done),
        };
        set_color(attrs, selector, Color::Rgb(red, green, blue));
        SgrNext::Next(i + 5)
    } else if is_single(&params[i + 1], 5) {
        match read_component(params, i + 2) {
            Some(index) => {
                set_color(attrs, selector, Color::Idx(index));
                SgrNext::Next(i + 3)
            },
            None => SgrNext::End(SgrEnd::Done),
        }
    } else {
        SgrNext::End(SgrEnd::UnknownDone)
    }
}

/// A parameter that stands for itself. Returns whether it means something.
fn sgr_value(attrs: &mut Attrs, n: u16) -> (known: bool)
    ensures
        match sgr_simple(old(attrs)@, n) {
            Some(changed) => known && final(attrs)@ == changed,
            None => !known && final(attrs)@ == old(attrs)@,
        },
{
    match n {
        0 => *attrs = Attrs::default(),
        1 => attrs.set_bold(),
        2 => attrs.set_dim(),
        3 => attrs.set_italic(true),
        4 => attrs.set_underline(true),
        5 => attrs.set_blink(Blink::Slow),
        6 => attrs.set_blink(Blink::Rapid),
        7 => attrs.set_inverse(true),
        8 => attrs.set_hidden(true),
        9 => attrs.set_strikeout(true),
        22 => attrs.set_normal_intensity(),
        23 => attrs.set_italic(false),
        24 => attrs.set_underline(false),
        25 => attrs.set_blink(Blink::Steady),
        27 => attrs.set_inverse(false),
        28 => attrs.set_hidden(false),
        29 => attrs.set_strikeout(false),
        39 => attrs.set_fgcolor(Color::Default),
        49 => attrs.set_bgcolor(Color::Default),
        59 => attrs.set_underline_color(Color::Default),
        _ => {
            if 30 <= n && n <= 37 {
                attrs.set_fgcolor(Color::Idx((n - 30) as u8));
            } else if 40 <= n && n <= 47 {
                attrs.set_bgcolor(Color::Idx((n - 40) as u8));
            } else if 90 <= n && n <= 97 {
                attrs.set_fgcolor(Color::Idx((n - 82) as u8));
            } else if 100 <= n && n <= 107 {
                attrs.set_bgcolor(Color::Idx((n - 92) as u8));
            } else {
                return false;
            }
        },
    }
    true
}

} // verus!
