//! What a screen holds and what its operations make of it.

use crate::ratty_vt::attrs::{attrs_diff, AttrsModel, Blink, Color, Intensity};
use crate::ratty_vt::cell::CellModel;
use crate::ratty_vt::grid::{Pos, Size};
use crate::ratty_vt::grid_model::{max_int, min_int, GridModel};
use crate::ratty_vt::row::{last_glyph_col, row_diff, row_formatted, row_text, RowModel};
use crate::ratty_vt::screen::{MouseProtocolEncoding, MouseProtocolMode};
use crate::ratty_vt::term;
use crate::ratty_vt::unicode::{char_columns, stands_apart, text_width};
use vstd::prelude::*;

verus! {

/// The character that stands for a cell of a kitty graphics image.
pub const KITTY_PLACEHOLDER: char = '\u{10EEEE}';

/// How many sets of kitty keyboard flags a screen stacks up; a runaway
/// application cannot grow the stack without bound.
pub const KITTY_KEYBOARD_STACK_LIMIT: usize = 32;

pub const MODE_APPLICATION_KEYPAD: u8 = 0b0000_0001;
pub const MODE_APPLICATION_CURSOR: u8 = 0b0000_0010;
pub const MODE_HIDE_CURSOR: u8 = 0b0000_0100;
pub const MODE_ALTERNATE_SCREEN: u8 = 0b0000_1000;
pub const MODE_BRACKETED_PASTE: u8 = 0b0001_0000;

/// The modes that an application switches on and off.
pub struct ModesModel {
    pub application_keypad: bool,
    pub application_cursor: bool,
    pub hide_cursor: bool,
    pub alternate_screen: bool,
    pub bracketed_paste: bool,
}

impl ModesModel {
    pub open spec fn off() -> Self {
        ModesModel {
            application_keypad: false,
            application_cursor: false,
            hide_cursor: false,
            alternate_screen: false,
            bracketed_paste: false,
        }
    }

    pub open spec fn get(self, mode: u8) -> bool {
        if mode == MODE_APPLICATION_KEYPAD {
            self.application_keypad
        } else if mode == MODE_APPLICATION_CURSOR {
            self.application_cursor
        } else if mode == MODE_HIDE_CURSOR {
            self.hide_cursor
        } else if mode == MODE_ALTERNATE_SCREEN {
            self.alternate_screen
        } else {
            self.bracketed_paste
        }
    }

    pub open spec fn with(self, mode: u8, on: bool) -> Self {
        ModesModel {
            application_keypad: if mode == MODE_APPLICATION_KEYPAD { on } else { self.application_keypad },
            application_cursor: if mode == MODE_APPLICATION_CURSOR { on } else { self.application_cursor },
            hide_cursor: if mode == MODE_HIDE_CURSOR { on } else { self.hide_cursor },
            alternate_screen: if mode == MODE_ALTERNATE_SCREEN { on } else { self.alternate_screen },
            bracketed_paste: if mode == MODE_BRACKETED_PASTE { on } else { self.bracketed_paste },
        }
    }
}

pub open spec fn is_mode(mode: u8) -> bool {
    ||| mode == MODE_APPLICATION_KEYPAD
    ||| mode == MODE_APPLICATION_CURSOR
    ||| mode == MODE_HIDE_CURSOR
    ||| mode == MODE_ALTERNATE_SCREEN
    ||| mode == MODE_BRACKETED_PASTE
}

/// A screen: the main and the alternate grid, the attributes of text drawn
/// next, and the modes that an application has set.
pub struct ScreenModel {
    pub grid: GridModel,
    pub alternate_grid: GridModel,
    pub attrs: AttrsModel,
    pub saved_attrs: AttrsModel,
    pub modes: ModesModel,
    pub mouse_mode: MouseProtocolMode,
    pub mouse_encoding: MouseProtocolEncoding,
    pub keyboard: Seq<u8>,
    pub alternate_keyboard: Seq<u8>,
    pub modify_other_keys: Option<u8>,
    /// Whether text was typed last, so that what follows may join it.
    pub joins: bool,
}

/// The columns a character is drawn across: control characters count as one.
pub open spec fn columns_of(width: Option<usize>) -> int {
    match width {
        Some(columns) => columns as int,
        None => 1,
    }
}

/// A saturated flag byte.
pub open spec fn flag_byte(flags: u16) -> u8 {
    if flags > 255 {
        255
    } else {
        flags as u8
    }
}

/// The column of the cell that shows what is at a column: that of the first
/// half, where the column holds the second half of a wide character.
pub open spec fn owner_col(cells: Seq<CellModel>, col: int) -> int {
    if cells[col].continuation && col > 0 {
        col - 1
    } else {
        col
    }
}

/// A character drawn in a row. A wide character that it cuts in two goes.
pub open spec fn row_drawn(row: RowModel, col: int, c: char, wide: bool, attrs: AttrsModel) -> RowModel {
    let cols = row.cells.len();
    let cells = row.cells;
    let cells = if cells[col].continuation && col > 0 {
        cells.update(col - 1, CellModel::cleared(attrs))
    } else {
        cells
    };
    let cells = if cells[col].wide && col + 1 < cols {
        cells.update(col + 1, CellModel::glyph(' ', false, attrs))
    } else {
        cells
    };
    let drawn = RowModel {
        cells: cells.update(col, CellModel::glyph(c, wide, attrs)),
        wrapped: row.wrapped,
        placeholder: row.placeholder || c == KITTY_PLACEHOLDER,
    };
    if wide {
        row_continued(drawn, col + 1, attrs)
    } else {
        drawn
    }
}

/// The second half of a wide character put at a column. A wide character that
/// started there goes.
pub open spec fn row_continued(row: RowModel, col: int, attrs: AttrsModel) -> RowModel {
    let cuts = row.cells[col].wide && col + 1 < row.cells.len();
    let cells = if cuts {
        row.cells.update(col + 1, CellModel::cleared(attrs))
    } else {
        row.cells
    };
    RowModel {
        cells: cells.update(
            col,
            CellModel { continuation: true, ..CellModel::cleared(AttrsModel::plain()) },
        ),
        wrapped: row.wrapped && !(cuts && col + 2 == row.cells.len()),
        ..row
    }
}

/// A character added to the text of a cell, which becomes wide or narrow as the
/// text is. Wide text needs a second column, which the last column lacks.
pub open spec fn row_joined(row: RowModel, col: int, c: char, wide: bool, attrs: AttrsModel) -> RowModel {
    let cell = row.cells[col];
    if !cell.has_room(c) {
        row
    } else {
        let joined = row.with_cell(col, cell.appended(c));
        if wide && !cell.wide && col + 1 < row.cells.len() {
            row_continued(
                joined.with_cell(col, CellModel { wide: true, ..cell.appended(c) }),
                col + 1,
                attrs,
            )
        } else if !wide && cell.wide {
            let narrow = joined.with_cell(col, CellModel { wide: false, ..cell.appended(c) });
            if col + 1 < row.cells.len() && row.cells[col + 1].continuation {
                narrow.with_cell(col + 1, CellModel::cleared(cell.attrs))
            } else {
                narrow
            }
        } else {
            joined
        }
    }
}

impl GridModel {
    /// A character drawn at the cursor across some columns. Text wraps only
    /// behind a row that is full.
    pub open spec fn drawn(self, c: char, width: int, attrs: AttrsModel) -> Self {
        let last = self.current_row().cells[self.size.cols - 1];
        let wrap = self.pos.col > self.size.cols - width && (last.text.len() > 0 || last.continuation);
        let ready = self.col_wrap(width, wrap);
        ready.with_current_row(
            row_drawn(ready.current_row(), ready.pos.col as int, c, width > 1, attrs),
        ).at(ready.pos.row as int, ready.pos.col + (if width > 1 { 2int } else { 1int }))
    }

    /// The cell that a mark without a width of its own belongs to: the one
    /// before the cursor, or the last one of the row that wraps into this one.
    pub open spec fn mark_target(self) -> Option<Pos> {
        if self.pos.col > 0 {
            Some(
                Pos {
                    row: self.pos.row,
                    col: owner_col(self.current_row().cells, self.pos.col - 1) as u16,
                },
            )
        } else if self.pos.row > 0 && self.rows[self.pos.row - 1].wrapped {
            Some(
                Pos {
                    row: (self.pos.row - 1) as u16,
                    col: last_glyph_col(self.rows[self.pos.row - 1].cells) as u16,
                },
            )
        } else {
            None
        }
    }

    /// Whether a character extends the grapheme cluster before the cursor.
    pub open spec fn extends_cluster(self, c: char) -> bool {
        self.pos.col > 0 && {
            let cells = self.current_row().cells;
            let cell = cells[owner_col(cells, self.pos.col - 1)];
            cell.text.len() > 0 && !stands_apart(cell.text, c) && cell.has_room(c)
        }
    }

    /// A character added to the text of a cell. The cursor stays behind the
    /// cell, if that is where it was.
    pub open spec fn joined(self, at: Pos, c: char, wide: bool, attrs: AttrsModel) -> Self {
        let before = self.rows[at.row as int];
        let after = row_joined(before, at.col as int, c, wide, attrs);
        let was_wide = before.cells[at.col as int].wide;
        let is_wide = after.cells[at.col as int].wide;
        let behind = at.col + (if was_wide { 2int } else { 1int });
        let moved = if was_wide != is_wide && self.pos.row == at.row && self.pos.col == behind {
            self.at(self.pos.row as int, at.col + (if is_wide { 2int } else { 1int }))
        } else {
            self
        };
        moved.with_row(at.row as int, after)
    }

    /// The text of a cell with a character added.
    pub open spec fn joined_text(self, at: Pos, c: char) -> Seq<char> {
        self.rows[at.row as int].cells[at.col as int].appended(c).text
    }

    /// A character typed at the cursor: it joins the text before it, or is
    /// drawn. Only marks join text that was not typed just before them.
    pub open spec fn typed(self, c: char, width: int, attrs: AttrsModel, joins: bool) -> Self {
        if width > self.size.cols {
            self
        } else if width == 0 {
            match self.mark_target() {
                Some(at) => self.joined(at, c, text_width(self.joined_text(at, c)) > 1, attrs),
                None => self,
            }
        } else if joins && self.extends_cluster(c) {
            let at = Pos {
                row: self.pos.row,
                col: owner_col(self.current_row().cells, self.pos.col - 1) as u16,
            };
            self.joined(at, c, text_width(self.joined_text(at, c)) > 1, attrs)
        } else {
            self.drawn(c, width, attrs)
        }
    }
}

impl ScreenModel {
    pub open spec fn wf(self) -> bool {
        &&& self.grid.wf()
        &&& self.grid.allocated()
        &&& self.alternate_grid.wf()
        &&& self.modes.alternate_screen ==> self.alternate_grid.allocated()
        &&& self.grid.size == self.alternate_grid.size
        &&& self.alternate_grid.scrollback_len == 0
        &&& self.keyboard.len() <= KITTY_KEYBOARD_STACK_LIMIT
        &&& self.alternate_keyboard.len() <= KITTY_KEYBOARD_STACK_LIMIT
    }

    /// Whether every row of the scrollback is as wide as the screen.
    pub open spec fn uniform(self) -> bool {
        self.grid.uniform()
    }

    pub open spec fn keeps_order(self, before: ScreenModel) -> bool {
        &&& self.wf()
        &&& self.grid.size == before.grid.size
        &&& before.uniform() ==> self.uniform()
    }

    /// A screen of a size, as it is switched on.
    pub open spec fn fresh(size: Size, scrollback_len: usize) -> Self {
        ScreenModel {
            grid: GridModel::fresh(size, scrollback_len).with_rows_allocated(),
            alternate_grid: GridModel::fresh(size, 0),
            attrs: AttrsModel::plain(),
            saved_attrs: AttrsModel::plain(),
            modes: ModesModel::off(),
            mouse_mode: MouseProtocolMode::Off,
            mouse_encoding: MouseProtocolEncoding::Default,
            keyboard: Seq::empty(),
            alternate_keyboard: Seq::empty(),
            modify_other_keys: None,
            joins: false,
        }
    }

    /// The grid in use.
    pub open spec fn active(self) -> GridModel {
        if self.modes.alternate_screen {
            self.alternate_grid
        } else {
            self.grid
        }
    }

    pub open spec fn with_active(self, grid: GridModel) -> Self {
        if self.modes.alternate_screen {
            ScreenModel { alternate_grid: grid, ..self }
        } else {
            ScreenModel { grid, ..self }
        }
    }

    pub open spec fn with_mode(self, mode: u8, on: bool) -> Self {
        ScreenModel { modes: self.modes.with(mode, on), ..self }
    }

    pub open spec fn size(self) -> Size {
        self.active().size
    }

    pub open spec fn resized(self, size: Size) -> Self {
        ScreenModel {
            grid: self.grid.resized(size),
            alternate_grid: self.alternate_grid.resized(size),
            ..self
        }
    }

    pub open spec fn reflowed(self, size: Size) -> Self {
        ScreenModel {
            grid: self.grid.reflowed(size),
            alternate_grid: self.alternate_grid.resized_plain(size),
            ..self
        }
    }

    // What is shown.

    /// Where a renderer draws the cursor: on the grid, and on the first half of
    /// a wide character.
    pub open spec fn display_cursor(self) -> Pos {
        let grid = self.active();
        let col = min_int(grid.pos.col as int, grid.size.cols - 1);
        Pos { row: grid.pos.row, col: owner_col(grid.current_row().cells, col) as u16 }
    }

    /// The text of a span of each visible row.
    pub open spec fn row_texts(self, start: int, width: int) -> Seq<Seq<char>> {
        let rows = self.active().visible();
        Seq::new(rows.len(), |i: int| row_text(Seq::empty(), rows[i], start, width, false))
    }

    /// The text from one position to another, with a line break behind each row
    /// that does not wrap.
    pub open spec fn text_between(
        self,
        start_row: int,
        start_col: int,
        end_row: int,
        end_col: int,
    ) -> Seq<char> {
        if start_row < end_row {
            let rows = self.active().visible();
            text_of_rows(
                rows,
                start_row,
                start_col,
                end_row,
                end_col,
                self.size().cols as int,
                min_int(end_row + 1, rows.len() as int),
            )
        } else if start_row == end_row && start_col < end_col && start_row
            < self.active().visible().len() {
            self.row_texts(start_col, end_col - start_col)[start_row]
        } else {
            Seq::empty()
        }
    }

    /// The bytes for a span of each visible row on a cleared screen.
    pub open spec fn row_bytes(self, start: int, width: int) -> Seq<Seq<u8>> {
        let rows = self.active().visible();
        let whole = start == 0 && width == self.grid.size.cols;
        Seq::new(
            rows.len(),
            |i: int|
                row_formatted(
                    Seq::empty(),
                    rows[i].cells,
                    start,
                    width,
                    i as u16,
                    whole && i > 0 && rows[i - 1].wrapped,
                    None,
                    None,
                ).out,
        )
    }

    /// The bytes that turn a span of each visible row of `prev` into that of
    /// this screen.
    pub open spec fn row_diffs(self, prev: ScreenModel, start: int, width: int) -> Seq<Seq<u8>> {
        let rows = self.active().visible();
        let prev_rows = prev.active().visible();
        Seq::new(
            min_int(rows.len() as int, prev_rows.len() as int) as nat,
            |i: int|
                row_diff(
                    Seq::empty(),
                    rows[i],
                    prev_rows[i],
                    start,
                    width,
                    i as u16,
                    false,
                    false,
                    Pos { row: i as u16, col: start as u16 },
                    AttrsModel::plain(),
                ).out,
        )
    }

    pub open spec fn cursor_visibility(self) -> Seq<u8> {
        term::switch(self.modes.hide_cursor, "\x1b[?25l", "\x1b[?25h")
    }

    /// The bytes that draw the screen.
    pub open spec fn contents_bytes(self, out: Seq<u8>) -> Seq<u8> {
        let written = self.active().formatted(out + self.cursor_visibility());
        written.out + attrs_diff(self.attrs, written.attrs)
    }

    /// The bytes that turn the screen `prev` into this one.
    pub open spec fn diff_bytes(self, out: Seq<u8>, prev: ScreenModel) -> Seq<u8> {
        let start = if self.modes.hide_cursor == prev.modes.hide_cursor {
            out
        } else {
            out + self.cursor_visibility()
        };
        let written = self.active().diff(start, prev.active(), prev.attrs);
        written.out + attrs_diff(self.attrs, written.attrs)
    }

    /// The bytes that set the input modes.
    pub open spec fn input_mode_bytes(self, out: Seq<u8>) -> Seq<u8> {
        out + term::switch(self.modes.application_keypad, "\x1b=", "\x1b>") + term::switch(
            self.modes.application_cursor,
            "\x1b[?1h",
            "\x1b[?1l",
        ) + term::switch(self.modes.bracketed_paste, "\x1b[?2004h", "\x1b[?2004l") + term::mouse_mode(
            self.mouse_mode,
            MouseProtocolMode::Off,
        ) + term::mouse_encoding(self.mouse_encoding, MouseProtocolEncoding::Default)
    }

    /// The bytes that turn the input modes of `prev` into these.
    pub open spec fn input_mode_diff_bytes(self, out: Seq<u8>, prev: ScreenModel) -> Seq<u8> {
        out + changed(
            self.modes.application_keypad,
            prev.modes.application_keypad,
            "\x1b=",
            "\x1b>",
        ) + changed(
            self.modes.application_cursor,
            prev.modes.application_cursor,
            "\x1b[?1h",
            "\x1b[?1l",
        ) + changed(
            self.modes.bracketed_paste,
            prev.modes.bracketed_paste,
            "\x1b[?2004h",
            "\x1b[?2004l",
        ) + term::mouse_mode(self.mouse_mode, prev.mouse_mode) + term::mouse_encoding(
            self.mouse_encoding,
            prev.mouse_encoding,
        )
    }

    /// The bytes that set the drawing attributes.
    pub open spec fn attributes_bytes(self) -> Seq<u8> {
        term::ascii("\x1b[m") + attrs_diff(self.attrs, AttrsModel::plain())
    }

    // What control functions do.

    /// A character that an application prints.
    pub open spec fn text(self, c: char) -> Self {
        if char_columns(c) is None && (c as u32) < 256 {
            self
        } else {
            self.typed(c, columns_of(char_columns(c)))
        }
    }

    pub open spec fn typed(self, c: char, width: int) -> Self {
        ScreenModel {
            joins: self.joins || width <= self.active().size.cols,
            ..self.with_active(self.active().typed(c, width, self.attrs, self.joins))
        }
    }

    /// With the text that was typed last left behind.
    pub open spec fn parted(self) -> Self {
        ScreenModel { joins: false, ..self }
    }

    /// The alternate grid in use; the view of the grid that is left is no
    /// longer scrolled back.
    pub open spec fn alternate_entered(self) -> Self {
        let left = self.with_active(self.active().scrolled_back(0));
        let entered = left.with_mode(MODE_ALTERNATE_SCREEN, true);
        ScreenModel { alternate_grid: entered.alternate_grid.with_rows_allocated(), ..entered }
    }

    /// The cursor saved and a cleared alternate grid in use.
    pub open spec fn alternate_opened(self) -> Self {
        let saved = self.cursor_saved();
        (ScreenModel {
            alternate_grid: saved.alternate_grid.cleared(),
            ..saved
        }).alternate_entered()
    }

    pub open spec fn alternate_left(self) -> Self {
        self.with_mode(MODE_ALTERNATE_SCREEN, false)
    }

    pub open spec fn cursor_saved(self) -> Self {
        ScreenModel {
            saved_attrs: self.attrs,
            ..self.with_active(self.active().cursor_saved())
        }
    }

    pub open spec fn cursor_restored(self) -> Self {
        ScreenModel {
            attrs: self.saved_attrs,
            ..self.with_active(self.active().cursor_restored())
        }
    }

    pub open spec fn without_mouse_mode(self, mode: MouseProtocolMode) -> Self {
        if self.mouse_mode == mode {
            ScreenModel { mouse_mode: MouseProtocolMode::Off, ..self }
        } else {
            self
        }
    }

    pub open spec fn without_mouse_encoding(self, encoding: MouseProtocolEncoding) -> Self {
        if self.mouse_encoding == encoding {
            ScreenModel { mouse_encoding: MouseProtocolEncoding::Default, ..self }
        } else {
            self
        }
    }

    /// A private mode set; `None` for one that the screen does not model.
    #[verifier::opaque]
    pub open spec fn private_mode_set(self, param: Seq<u16>) -> Option<Self> {
        if param.len() != 1 {
            None
        } else {
            let n = param[0];
            if n == 1 {
                Some(self.with_mode(MODE_APPLICATION_CURSOR, true))
            } else if n == 6 {
                Some(self.with_active(self.active().with_origin_mode(true)))
            } else if n == 9 {
                Some(ScreenModel { mouse_mode: MouseProtocolMode::Press, ..self })
            } else if n == 25 {
                Some(self.with_mode(MODE_HIDE_CURSOR, false))
            } else if n == 47 {
                Some(self.alternate_entered())
            } else if n == 1000 {
                Some(ScreenModel { mouse_mode: MouseProtocolMode::PressRelease, ..self })
            } else if n == 1002 {
                Some(ScreenModel { mouse_mode: MouseProtocolMode::ButtonMotion, ..self })
            } else if n == 1003 {
                Some(ScreenModel { mouse_mode: MouseProtocolMode::AnyMotion, ..self })
            } else if n == 1005 {
                Some(ScreenModel { mouse_encoding: MouseProtocolEncoding::Utf8, ..self })
            } else if n == 1006 {
                Some(ScreenModel { mouse_encoding: MouseProtocolEncoding::Sgr, ..self })
            } else if n == 1049 {
                Some(self.alternate_opened())
            } else if n == 2004 {
                Some(self.with_mode(MODE_BRACKETED_PASTE, true))
            } else {
                None
            }
        }
    }

    /// A private mode reset; `None` for one that the screen does not model.
    #[verifier::opaque]
    pub open spec fn private_mode_reset(self, param: Seq<u16>) -> Option<Self> {
        if param.len() != 1 {
            None
        } else {
            let n = param[0];
            if n == 1 {
                Some(self.with_mode(MODE_APPLICATION_CURSOR, false))
            } else if n == 6 {
                Some(self.with_active(self.active().with_origin_mode(false)))
            } else if n == 9 {
                Some(self.without_mouse_mode(MouseProtocolMode::Press))
            } else if n == 25 {
                Some(self.with_mode(MODE_HIDE_CURSOR, true))
            } else if n == 47 {
                Some(self.alternate_left())
            } else if n == 1000 {
                Some(self.without_mouse_mode(MouseProtocolMode::PressRelease))
            } else if n == 1002 {
                Some(self.without_mouse_mode(MouseProtocolMode::ButtonMotion))
            } else if n == 1003 {
                Some(self.without_mouse_mode(MouseProtocolMode::AnyMotion))
            } else if n == 1005 {
                Some(self.without_mouse_encoding(MouseProtocolEncoding::Utf8))
            } else if n == 1006 {
                Some(self.without_mouse_encoding(MouseProtocolEncoding::Sgr))
            } else if n == 1049 {
                Some(self.alternate_left().cursor_restored())
            } else if n == 2004 {
                Some(self.with_mode(MODE_BRACKETED_PASTE, false))
            } else {
                None
            }
        }
    }

    /// Erasing on the screen; `None` for a mode that does not exist.
    #[verifier::opaque]
    pub open spec fn display_erased(self, mode: u16) -> Option<Self> {
        let grid = self.active();
        if mode == 0 {
            Some(self.with_active(grid.erased_all_forward(self.attrs)))
        } else if mode == 1 {
            Some(self.with_active(grid.erased_all_backward(self.attrs)))
        } else if mode == 2 {
            Some(self.with_active(grid.erased_all(self.attrs)))
        } else {
            None
        }
    }

    /// Erasing on the cursor's row; `None` for a mode that does not exist.
    #[verifier::opaque]
    pub open spec fn line_erased(self, mode: u16) -> Option<Self> {
        let grid = self.active();
        if mode == 0 {
            Some(self.with_active(grid.erased_row_forward(self.attrs)))
        } else if mode == 1 {
            Some(self.with_active(grid.erased_row_backward(self.attrs)))
        } else if mode == 2 {
            Some(self.with_active(grid.erased_row(self.attrs)))
        } else {
            None
        }
    }

    // The keyboard protocol.

    /// The flag stack of the screen in use: main and alternate have their own.
    pub open spec fn keyboard_stack(self) -> Seq<u8> {
        if self.modes.alternate_screen {
            self.alternate_keyboard
        } else {
            self.keyboard
        }
    }

    pub open spec fn with_keyboard_stack(self, stack: Seq<u8>) -> Self {
        if self.modes.alternate_screen {
            ScreenModel { alternate_keyboard: stack, ..self }
        } else {
            ScreenModel { keyboard: stack, ..self }
        }
    }

    pub open spec fn keyboard_flags(self) -> u8 {
        if self.keyboard_stack().len() == 0 {
            0
        } else {
            self.keyboard_stack().last()
        }
    }

    pub open spec fn keyboard_pushed(self, flags: u16) -> Self {
        let stack = self.keyboard_stack();
        let room = if stack.len() >= KITTY_KEYBOARD_STACK_LIMIT { stack.remove(0) } else { stack };
        self.with_keyboard_stack(room.push(flag_byte(flags)))
    }

    pub open spec fn keyboard_popped(self, count: u16) -> Self {
        let stack = self.keyboard_stack();
        let n = if count == 0 { 1 } else { count as int };
        self.with_keyboard_stack(stack.take(max_int(stack.len() - n, 0)))
    }

    pub open spec fn keyboard_set(self, flags: u16, mode: u16) -> Self {
        let stack = self.keyboard_stack();
        let stack = if stack.len() == 0 { seq![0u8] } else { stack };
        let current = stack.last();
        let flags = flag_byte(flags);
        let next = if mode == 2 {
            current | flags
        } else if mode == 3 {
            current & !flags
        } else {
            flags
        };
        self.with_keyboard_stack(stack.update(stack.len() - 1, next))
    }

    pub open spec fn modify_other_keys_set(self, level: Option<u16>) -> Self {
        ScreenModel {
            modify_other_keys: match level {
                None => None,
                Some(level) => if level == 0 { None } else { Some(flag_byte(level)) },
            },
            ..self
        }
    }
}

/// A mode that differs, switched.
pub open spec fn changed(now: bool, before: bool, on: &str, off: &str) -> Seq<u8> {
    if now == before {
        Seq::empty()
    } else {
        term::switch(now, on, off)
    }
}

/// The text of the rows from `start_row` up to row `n`.
pub open spec fn text_of_rows(
    rows: Seq<RowModel>,
    start_row: int,
    start_col: int,
    end_row: int,
    end_col: int,
    cols: int,
    n: int,
) -> Seq<char>
    decreases n,
{
    if n <= start_row || n <= 0 {
        Seq::empty()
    } else {
        let out = text_of_rows(rows, start_row, start_col, end_row, end_col, cols, n - 1);
        let row = rows[n - 1];
        if n - 1 == end_row {
            row_text(out, row, 0, end_col, false)
        } else {
            let text = if n - 1 == start_row {
                row_text(out, row, start_col, cols - start_col, false)
            } else {
                row_text(out, row, 0, cols, false)
            };
            if row.wrapped {
                text
            } else {
                text.push('\n')
            }
        }
    }
}

// Select graphic rendition.

/// What one step through SGR parameters comes to.
pub enum SgrModel {
    /// The next parameter to look at.
    Next(int),
    /// The rest is ignored.
    Stop,
    /// A parameter that means nothing here, and the next one to look at.
    Unknown(int),
    /// A color selector that means nothing here; the rest is ignored.
    UnknownStop,
}

/// The color component at a parameter: a single value below 256.
pub open spec fn component(params: Seq<Seq<u16>>, i: int) -> Option<u8> {
    if 0 <= i < params.len() && params[i].len() == 1 && params[i][0] <= 255 {
        Some(params[i][0] as u8)
    } else {
        None
    }
}

/// Whether a parameter selects a color: foreground, background or underline.
pub open spec fn selects_color(n: u16) -> bool {
    n == 38 || n == 48 || n == 58
}

pub open spec fn with_color(attrs: AttrsModel, selector: u16, color: Color) -> AttrsModel {
    if selector == 38 {
        AttrsModel { fgcolor: color, ..attrs }
    } else if selector == 48 {
        AttrsModel { bgcolor: color, ..attrs }
    } else {
        AttrsModel { underline_color: color, ..attrs }
    }
}

/// A parameter that stands for itself; `None` where it means nothing.
pub open spec fn sgr_simple(attrs: AttrsModel, n: u16) -> Option<AttrsModel> {
    if n == 0 {
        Some(AttrsModel::plain())
    } else if n == 1 {
        Some(AttrsModel { intensity: Intensity::Bold, ..attrs })
    } else if n == 2 {
        Some(AttrsModel { intensity: Intensity::Dim, ..attrs })
    } else if n == 3 {
        Some(AttrsModel { italic: true, ..attrs })
    } else if n == 4 {
        Some(AttrsModel { underline: true, ..attrs })
    } else if n == 5 {
        Some(AttrsModel { blink: Blink::Slow, ..attrs })
    } else if n == 6 {
        Some(AttrsModel { blink: Blink::Rapid, ..attrs })
    } else if n == 7 {
        Some(AttrsModel { inverse: true, ..attrs })
    } else if n == 8 {
        Some(AttrsModel { hidden: true, ..attrs })
    } else if n == 9 {
        Some(AttrsModel { strikeout: true, ..attrs })
    } else if n == 22 {
        Some(AttrsModel { intensity: Intensity::Normal, ..attrs })
    } else if n == 23 {
        Some(AttrsModel { italic: false, ..attrs })
    } else if n == 24 {
        Some(AttrsModel { underline: false, ..attrs })
    } else if n == 25 {
        Some(AttrsModel { blink: Blink::Steady, ..attrs })
    } else if n == 27 {
        Some(AttrsModel { inverse: false, ..attrs })
    } else if n == 28 {
        Some(AttrsModel { hidden: false, ..attrs })
    } else if n == 29 {
        Some(AttrsModel { strikeout: false, ..attrs })
    } else if 30 <= n <= 37 {
        Some(AttrsModel { fgcolor: Color::Idx((n - 30) as u8), ..attrs })
    } else if n == 39 {
        Some(AttrsModel { fgcolor: Color::Default, ..attrs })
    } else if 40 <= n <= 47 {
        Some(AttrsModel { bgcolor: Color::Idx((n - 40) as u8), ..attrs })
    } else if n == 49 {
        Some(AttrsModel { bgcolor: Color::Default, ..attrs })
    } else if n == 59 {
        Some(AttrsModel { underline_color: Color::Default, ..attrs })
    } else if 90 <= n <= 97 {
        Some(AttrsModel { fgcolor: Color::Idx((n - 82) as u8), ..attrs })
    } else if 100 <= n <= 107 {
        Some(AttrsModel { bgcolor: Color::Idx((n - 92) as u8), ..attrs })
    } else {
        None
    }
}

/// A color selector whose color is in the parameters after it.
pub open spec fn sgr_selector(attrs: AttrsModel, params: Seq<Seq<u16>>, i: int) -> (AttrsModel, SgrModel) {
    let selector = params[i][0];
    if i + 1 >= params.len() {
        (attrs, SgrModel::Stop)
    } else if params[i + 1] == seq![2u16] {
        match (component(params, i + 2), component(params, i + 3), component(params, i + 4)) {
            (Some(r), Some(g), Some(b)) => (
                with_color(attrs, selector, Color::Rgb(r, g, b)),
                SgrModel::Next(i + 5),
            ),
            _ => (attrs, SgrModel::Stop),
        }
    } else if params[i + 1] == seq![5u16] {
        match component(params, i + 2) {
            Some(index) => (with_color(attrs, selector, Color::Idx(index)), SgrModel::Next(i + 3)),
            None => (attrs, SgrModel::Stop),
        }
    } else {
        (attrs, SgrModel::UnknownStop)
    }
}

/// A parameter with parts of its own, which can select a color.
pub open spec fn sgr_compound(attrs: AttrsModel, param: Seq<u16>, i: int) -> (AttrsModel, SgrModel) {
    if param.len() == 5 && selects_color(param[0]) && param[1] == 2 {
        if param[2] <= 255 && param[3] <= 255 && param[4] <= 255 {
            (
                with_color(
                    attrs,
                    param[0],
                    Color::Rgb(param[2] as u8, param[3] as u8, param[4] as u8),
                ),
                SgrModel::Next(i + 1),
            )
        } else {
            (attrs, SgrModel::Stop)
        }
    } else if param.len() == 3 && selects_color(param[0]) && param[1] == 5 {
        if param[2] <= 255 {
            (with_color(attrs, param[0], Color::Idx(param[2] as u8)), SgrModel::Next(i + 1))
        } else {
            (attrs, SgrModel::Stop)
        }
    } else {
        (attrs, SgrModel::Unknown(i + 1))
    }
}

/// One step through SGR parameters.
pub open spec fn sgr_step(attrs: AttrsModel, params: Seq<Seq<u16>>, i: int) -> (AttrsModel, SgrModel) {
    let param = params[i];
    if param.len() != 1 {
        sgr_compound(attrs, param, i)
    } else if selects_color(param[0]) {
        sgr_selector(attrs, params, i)
    } else {
        match sgr_simple(attrs, param[0]) {
            Some(attrs) => (attrs, SgrModel::Next(i + 1)),
            None => (attrs, SgrModel::Unknown(i + 1)),
        }
    }
}

/// SGR parameters from one on, up to the end or up to one that means nothing
/// here.
pub open spec fn sgr_run(attrs: AttrsModel, params: Seq<Seq<u16>>, i: int) -> (AttrsModel, SgrModel)
    decreases params.len() - i,
{
    if i < 0 || i >= params.len() {
        (attrs, SgrModel::Stop)
    } else {
        let (next_attrs, outcome) = sgr_step(attrs, params, i);
        match outcome {
            SgrModel::Next(next) => if next > i {
                sgr_run(next_attrs, params, next)
            } else {
                (next_attrs, outcome)
            },
            _ => (next_attrs, outcome),
        }
    }
}

/// A cell that becomes wide has a column after it.
pub proof fn lemma_joined_widens_within(row: RowModel, col: int, c: char, wide: bool, attrs: AttrsModel)
    requires
        0 <= col < row.cells.len(),
    ensures
        row_joined(row, col, c, wide, attrs).cells.len() == row.cells.len(),
        row_joined(row, col, c, wide, attrs).cells[col].wide && !row.cells[col].wide ==> col + 1
            < row.cells.len(),
{
}

} // verus!
