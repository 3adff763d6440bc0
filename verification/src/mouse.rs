//! Mouse and touch input, and the selection of text.

use crate::camera::{
    no_interaction, TerminalCameraInteraction, TerminalCameraPose, MAX_PERSPECTIVE_FOV,
    MIN_ORTHOGRAPHIC_SCALE, MIN_PERSPECTIVE_FOV,
};
use crate::number::{Number, Point};
use crate::ratty_vt::cell::CellModel;
use crate::ratty_vt::screen_model::ScreenModel;
use crate::ratty_vt::term::{decimal, extend_itoa, push_str};
use crate::ratty_vt::{MouseProtocolEncoding, MouseProtocolMode, Screen};
use crate::scene::TerminalPresentationMode;
use vstd::prelude::*;
use vstd::utf8::encode_utf8;

verus! {

/// The bits of 4, the largest orthographic scale that the wheel reaches by itself.
pub const MAX_WHEEL_ORTHOGRAPHIC_SCALE: u32 = 0x4080_0000;

/// A cell of the terminal: its column and its row.
#[derive(Clone, Copy, Debug, PartialEq, Eq, Structural)]
pub struct CellPosition {
    pub x: u32,
    pub y: u32,
}

/// Normalized selection bounds.
#[derive(Clone, Copy, Debug, PartialEq, Eq, Structural)]
pub struct SelectionBounds {
    /// First selected row.
    pub start_row: u32,
    /// Last selected row.
    pub end_row: u32,
    /// First selected column.
    pub start_col: u32,
    /// Last selected column.
    pub end_col: u32,
}

impl SelectionBounds {
    /// Whether a cell lies between the first and the last cell in reading order.
    pub open spec fn covers(self, row: int, col: int) -> bool {
        &&& self.start_row <= row <= self.end_row
        &&& row == self.start_row ==> self.start_col <= col
        &&& row == self.end_row ==> col <= self.end_col
    }

    /// Returns whether a cell is inside the bounds.
    pub fn contains(&self, row: u16, col: u16) -> (r: bool)
        ensures
            r == self.covers(row as int, col as int),
    {
        let row: u32 = row as u32;
        let col: u32 = col as u32;
        if row < self.start_row || row > self.end_row {
            return false;
        }
        if self.start_row == self.end_row {
            return col >= self.start_col && col <= self.end_col;
        }
        if row == self.start_row {
            return col >= self.start_col;
        }
        if row == self.end_row {
            return col <= self.end_col;
        }
        true
    }
}

/// Active terminal text selection.
#[derive(Clone, Copy, Debug)]
pub struct TerminalSelection {
    pub start: Option<CellPosition>,
    pub end: Option<CellPosition>,
    pub pending_start: Option<CellPosition>,
    pub pending_position: Option<Point>,
    pub dragging: bool,
    pub cursor_position: Option<Point>,
}

pub open spec fn no_selection() -> TerminalSelection {
    TerminalSelection {
        start: None,
        end: None,
        pending_start: None,
        pending_position: None,
        dragging: false,
        cursor_position: None,
    }
}

impl Default for TerminalSelection {
    fn default() -> (r: Self)
        ensures
            r == no_selection(),
    {
        TerminalSelection {
            start: None,
            end: None,
            pending_start: None,
            pending_position: None,
            dragging: false,
            cursor_position: None,
        }
    }
}

pub open spec fn smaller(a: u32, b: u32) -> u32 {
    if a < b {
        a
    } else {
        b
    }
}

pub open spec fn larger(a: u32, b: u32) -> u32 {
    if a < b {
        b
    } else {
        a
    }
}

fn min_of(a: u32, b: u32) -> (r: u32)
    ensures
        r == smaller(a, b),
{
    if a < b {
        a
    } else {
        b
    }
}

fn max_of(a: u32, b: u32) -> (r: u32)
    ensures
        r == larger(a, b),
{
    if a < b {
        b
    } else {
        a
    }
}

impl TerminalSelection {
    pub open spec fn bounds(self) -> Option<SelectionBounds> {
        match self.start {
            None => None,
            Some(start) => {
                let end = match self.end {
                    Some(end) => end,
                    None => start,
                };
                Some(
                    SelectionBounds {
                        start_row: smaller(start.y, end.y),
                        end_row: larger(start.y, end.y),
                        start_col: smaller(start.x, end.x),
                        end_col: larger(start.x, end.x),
                    },
                )
            },
        }
    }

    /// Returns normalized selection bounds.
    pub fn normalized_bounds(&self) -> (r: Option<SelectionBounds>)
        ensures
            r == self.bounds(),
    {
        match self.start {
            None => None,
            Some(start) => {
                let end = match self.end {
                    Some(end) => end,
                    None => start,
                };
                Some(
                    SelectionBounds {
                        start_row: min_of(start.y, end.y),
                        end_row: max_of(start.y, end.y),
                        start_col: min_of(start.x, end.x),
                        end_col: max_of(start.x, end.x),
                    },
                )
            },
        }
    }

    pub open spec fn begun(self, cell: CellPosition) -> TerminalSelection {
        TerminalSelection {
            start: Some(cell),
            end: Some(cell),
            pending_start: None,
            pending_position: None,
            dragging: true,
            ..self
        }
    }

    /// Starts a selection at a cell, and says whether anything changed.
    pub fn begin(&mut self, cell: CellPosition) -> (changed: bool)
        ensures
            changed == (old(self).start != Some(cell) || old(self).end != Some(cell)
                || !old(self).dragging),
            *final(self) == old(self).begun(cell),
    {
        let changed = !is_at(self.start, cell) || !is_at(self.end, cell) || !self.dragging;
        self.start = Some(cell);
        self.end = Some(cell);
        self.pending_start = None;
        self.pending_position = None;
        self.dragging = true;
        changed
    }

    pub open spec fn armed(self, cell: CellPosition, position: Point) -> TerminalSelection {
        TerminalSelection {
            start: None,
            end: None,
            pending_start: Some(cell),
            pending_position: Some(position),
            dragging: false,
            ..self
        }
    }

    /// Arms a selection at a cell without making it visible until the pointer is
    /// dragged, and says whether a selection went away.
    pub fn begin_pending(&mut self, cell: CellPosition, position: Point) -> (changed: bool)
        ensures
            changed == (old(self).start is Some || old(self).end is Some || old(self).dragging),
            *final(self) == old(self).armed(cell, position),
    {
        let changed = self.start.is_some() || self.end.is_some() || self.dragging;
        self.start = None;
        self.end = None;
        self.pending_start = Some(cell);
        self.pending_position = Some(position);
        self.dragging = false;
        changed
    }

    /// Whether a drag moves the end to another cell.
    pub open spec fn moves(self, cell: CellPosition) -> bool {
        self.dragging && self.end != Some(cell)
    }

    /// Updates the selection end cell, and says whether it moved.
    pub fn update(&mut self, cell: CellPosition) -> (changed: bool)
        ensures
            changed == old(self).moves(cell),
            *final(self) == (if old(self).moves(cell) {
                TerminalSelection { end: Some(cell), ..*old(self) }
            } else {
                *old(self)
            }),
    {
        if self.dragging && !is_at(self.end, cell) {
            self.end = Some(cell);
            return true;
        }
        false
    }

    /// Whether an armed selection starts: the pointer went far enough.
    pub open spec fn starts(self, far: bool) -> bool {
        !self.dragging && self.pending_start is Some && self.pending_position is Some && far
    }

    pub open spec fn dragged(self, cell: CellPosition, far: bool) -> TerminalSelection {
        if self.moves(cell) {
            TerminalSelection { end: Some(cell), ..self }
        } else if self.starts(far) {
            TerminalSelection {
                start: self.pending_start,
                end: Some(cell),
                pending_start: None,
                pending_position: None,
                dragging: true,
                ..self
            }
        } else {
            self
        }
    }

    /// Updates the selection from a pointer over a cell, and says whether anything
    /// changed. `far` says that the pointer is at least four pixels from where the
    /// selection was armed.
    pub fn update_from_cursor(&mut self, cell: CellPosition, far: bool) -> (changed: bool)
        ensures
            changed == (old(self).moves(cell) || old(self).starts(far)),
            *final(self) == old(self).dragged(cell, far),
    {
        if self.dragging {
            return self.update(cell);
        }
        if self.pending_start.is_none() || self.pending_position.is_none() || !far {
            return false;
        }
        self.start = self.pending_start;
        self.end = Some(cell);
        self.pending_start = None;
        self.pending_position = None;
        self.dragging = true;
        true
    }

    pub open spec fn ended(self) -> TerminalSelection {
        TerminalSelection {
            pending_start: None,
            pending_position: None,
            dragging: false,
            ..self
        }
    }

    /// Ends an in-progress selection, and says whether there was one.
    pub fn end(&mut self) -> (changed: bool)
        ensures
            changed == old(self).dragging,
            *final(self) == old(self).ended(),
    {
        let changed = self.dragging;
        self.pending_start = None;
        self.pending_position = None;
        self.dragging = false;
        changed
    }

    /// Whether there is anything to clear.
    pub open spec fn holds_something(&self) -> bool {
        self.start is Some || self.end is Some || self.pending_start is Some
            || self.pending_position is Some || self.dragging
    }

    /// Clears the selection, and says whether there was anything to clear.
    pub fn clear(&mut self) -> (changed: bool)
        ensures
            changed == old(self).holds_something(),
            *final(self) == no_selection(),
    {
        let changed = self.start.is_some() || self.end.is_some() || self.pending_start.is_some()
            || self.pending_position.is_some() || self.dragging;
        self.start = None;
        self.end = None;
        self.pending_start = None;
        self.pending_position = None;
        self.dragging = false;
        self.cursor_position = None;
        changed
    }

    /// Stores the current pointer position.
    pub fn set_cursor_position(&mut self, position: Point)
        ensures
            *final(self) == (TerminalSelection {
                cursor_position: Some(position),
                ..*old(self)
            }),
    {
        self.cursor_position = Some(position);
    }

    /// Returns the current pointer position.
    pub fn cursor_position(&self) -> (r: Option<Point>)
        ensures
            r == self.cursor_position,
    {
        self.cursor_position
    }

    /// Returns the selected screen text.
    pub fn selected_text(&self, screen: &Screen) -> (r: Option<String>)
        requires
            screen@.wf(),
        ensures
            match self.bounds() {
                None => r is None,
                Some(bounds) => r matches Some(text) && text@ == selected(screen@, bounds),
            },
    {
        let bounds = match self.normalized_bounds() {
            Some(bounds) => bounds,
            None => {
                return None;
            },
        };
        let (_, cols) = screen.size();
        let start_row: u16 = (bounds.start_row % 65536) as u16;
        let end_row: u16 = (bounds.end_row % 65536) as u16;
        let start_col: u16 = (bounds.start_col % 65536) as u16;
        let end_col: u16 = (bounds.end_col % 65536) as u16;
        let mut out = String::new();
        let mut row: u32 = start_row as u32;
        while row <= end_row as u32
            invariant
                screen@.wf(),
                cols == screen@.size().cols,
                cols > 0,
                start_row == bounds.start_row % 65536,
                end_row == bounds.end_row % 65536,
                start_col == bounds.start_col % 65536,
                end_col == bounds.end_col % 65536,
                start_row <= row,
                row <= end_row + 1 || row == start_row,
                out@ == selected_rows(screen@, bounds, row as int),
            decreases end_row + 1 - row,
        {
            let from: u16 = if row == start_row as u32 {
                start_col
            } else {
                0
            };
            let last: u16 = if row == end_row as u32 && end_col < cols {
                end_col
            } else {
                cols - 1
            };
            push_row(&mut out, screen, row as u16, from, last);
            if row != end_row as u32 {
                drop_trailing_spaces(&mut out);
                out.push('\n');
            }
            row = row + 1;
        }
        Some(out)
    }
}

fn is_at(place: Option<CellPosition>, cell: CellPosition) -> (r: bool)
    ensures
        r == (place == Some(cell)),
{
    match place {
        Some(other) => other == cell,
        None => false,
    }
}

/// What a cell is selected as: its text, a space where there is none, nothing for
/// the second half of a wide glyph.
pub open spec fn cell_selection(cell: CellModel) -> Seq<char> {
    if cell.continuation {
        Seq::empty()
    } else if cell.text.len() == 0 {
        seq![' ']
    } else {
        cell.text
    }
}

/// The text of the cells from one column up to another, exclusively.
pub open spec fn cells_selection(cells: Seq<CellModel>, from: int, to: int) -> Seq<char>
    decreases to - from,
{
    if to <= from {
        Seq::empty()
    } else {
        cells_selection(cells, from, to - 1) + cell_selection(cells[to - 1])
    }
}

/// The text of a row from one column to another, inclusively, as far as the row
/// goes.
pub open spec fn row_selection(screen: ScreenModel, row: int, from: int, last: int) -> Seq<char> {
    if 0 <= row < screen.size().rows {
        let cells = screen.active().visible()[row].cells;
        cells_selection(
            cells,
            from,
            if last < cells.len() {
                last + 1
            } else {
                cells.len() as int
            },
        )
    } else {
        Seq::empty()
    }
}

/// Text without the spaces at its end.
pub open spec fn without_trailing_spaces(text: Seq<char>) -> Seq<char>
    decreases text.len(),
{
    if text.len() > 0 && text.last() == ' ' {
        without_trailing_spaces(text.drop_last())
    } else {
        text
    }
}

/// The text selected in the rows before a row. The lines that others follow lose
/// the spaces at their end.
pub open spec fn selected_rows(screen: ScreenModel, bounds: SelectionBounds, before: int) -> Seq<
    char,
>
    decreases before - bounds.start_row % 65536,
{
    let first = bounds.start_row as int % 65536;
    let end = bounds.end_row as int % 65536;
    let row = before - 1;
    if before <= first {
        Seq::empty()
    } else {
        let from = if row == first {
            bounds.start_col as int % 65536
        } else {
            0
        };
        let last = if row == end && bounds.end_col as int % 65536 < screen.size().cols {
            bounds.end_col as int % 65536
        } else {
            screen.size().cols - 1
        };
        let text = selected_rows(screen, bounds, row) + row_selection(screen, row, from, last);
        if row == end {
            text
        } else {
            without_trailing_spaces(text).push('\n')
        }
    }
}

/// The text that bounds select. Rows and columns are counted in sixteen bits.
pub open spec fn selected(screen: ScreenModel, bounds: SelectionBounds) -> Seq<char> {
    let first = bounds.start_row as int % 65536;
    let end = bounds.end_row as int % 65536;
    selected_rows(
        screen,
        bounds,
        if first <= end {
            end + 1
        } else {
            first
        },
    )
}

fn push_row(out: &mut String, screen: &Screen, row: u16, from: u16, last: u16)
    requires
        screen@.wf(),
    ensures
        final(out)@ == old(out)@ + row_selection(screen@, row as int, from as int, last as int),
{
    let (rows, _) = screen.size();
    if row >= rows {
        assert(out@ =~= old(out)@ + Seq::<char>::empty());
        return ;
    }
    let ghost cells = screen@.active().visible()[row as int].cells;
    let ghost end = if last < cells.len() {
        last + 1
    } else {
        cells.len() as int
    };
    let mut col: u32 = from as u32;
    assert(out@ =~= old(out)@ + cells_selection(cells, from as int, col as int));
    while col <= last as u32
        invariant_except_break
            from <= col,
            col == from || col <= end,
            out@ == old(out)@ + cells_selection(cells, from as int, col as int),
        invariant
            screen@.wf(),
            row < screen@.size().rows,
            cells == screen@.active().visible()[row as int].cells,
            end == (if last < cells.len() {
                last + 1
            } else {
                cells.len() as int
            }),
        ensures
            out@ == old(out)@ + cells_selection(cells, from as int, end),
        decreases last + 1 - col,
    {
        match screen.cell(row, col as u16) {
            Some(cell) => {
                if !cell.is_wide_continuation() {
                    if cell.has_contents() {
                        out.append(cell.contents());
                    } else {
                        out.push(' ');
                    }
                }
                assert(out@ =~= old(out)@ + cells_selection(cells, from as int, col + 1));
            },
            None => {
                break;
            },
        }
        col = col + 1;
    }
}

fn drop_trailing_spaces(text: &mut String)
    ensures
        final(text)@ == without_trailing_spaces(old(text)@),
{
    loop
        invariant_except_break
            without_trailing_spaces(text@) == without_trailing_spaces(old(text)@),
        ensures
            text@ == without_trailing_spaces(old(text)@),
        decreases text@.len(),
    {
        let ghost before = text@;
        match text.pop() {
            None => {
                break;
            },
            Some(c) => {
                if c != ' ' {
                    text.push(c);
                    assert(text@ =~= before);
                    break;
                }
                assert(text@ =~= before.drop_last());
            },
        }
    }
}

/// A coordinate as it is reported: counted from one.
pub open spec fn reported(coordinate: u32) -> nat {
    if coordinate < u32::MAX {
        (coordinate + 1) as nat
    } else {
        coordinate as nat
    }
}

/// A coordinate in the single-byte encoding, at most the largest byte.
pub open spec fn coordinate_byte(coordinate: u32) -> u8 {
    if reported(coordinate) + 32 < 255 {
        (reported(coordinate) + 32) as u8
    } else {
        255
    }
}

/// What an application is sent for a mouse event.
pub open spec fn mouse_report(
    cell: CellPosition,
    button_code: u16,
    release: bool,
    encoding: MouseProtocolEncoding,
) -> Seq<u8> {
    match encoding {
        MouseProtocolEncoding::Sgr => encode_utf8("\x1b[<"@) + decimal(button_code as nat)
            + encode_utf8(";"@) + decimal(reported(cell.x)) + encode_utf8(";"@) + decimal(
            reported(cell.y),
        ) + encode_utf8(
            if release {
                "m"@
            } else {
                "M"@
            },
        ),
        _ => encode_utf8("\x1b[M"@) + seq![
            button_byte(button_code, release),
            coordinate_byte(cell.x),
            coordinate_byte(cell.y),
        ],
    }
}

/// A button in the single-byte encoding. A release does not say of which button.
pub open spec fn button_byte(button_code: u16, release: bool) -> u8 {
    if release {
        35
    } else if button_code <= 65503 {
        ((button_code + 32) % 256) as u8
    } else {
        255
    }
}

/// Encodes a mouse event for an application.
pub fn encode_mouse_event(
    cell: CellPosition,
    button_code: u16,
    release: bool,
    encoding: MouseProtocolEncoding,
) -> (bytes: Vec<u8>)
    ensures
        bytes@ == mouse_report(cell, button_code, release, encoding),
{
    let col: u32 = cell.x.saturating_add(1);
    let row: u32 = cell.y.saturating_add(1);
    let mut bytes: Vec<u8> = Vec::new();
    match encoding {
        MouseProtocolEncoding::Sgr => {
            push_str(&mut bytes, "\x1b[<");
            extend_itoa(&mut bytes, button_code as u32);
            push_str(&mut bytes, ";");
            extend_itoa(&mut bytes, col);
            push_str(&mut bytes, ";");
            extend_itoa(&mut bytes, row);
            push_str(
                &mut bytes,
                if release {
                    "m"
                } else {
                    "M"
                },
            );
            assert(bytes@ =~= mouse_report(cell, button_code, release, encoding));
        },
        _ => {
            push_str(&mut bytes, "\x1b[M");
            let code: u16 = if release {
                3
            } else {
                button_code
            };
            bytes.push((code.saturating_add(32) % 256) as u8);
            bytes.push(
                if col < 223 {
                    (col + 32) as u8
                } else {
                    255
                },
            );
            bytes.push(
                if row < 223 {
                    (row + 32) as u8
                } else {
                    255
                },
            );
            assert(bytes@ =~= mouse_report(cell, button_code, release, encoding));
        },
    }
    bytes
}

/// Encodes a step of the wheel for an application.
pub fn encode_mouse_wheel(cell: CellPosition, up: bool, encoding: MouseProtocolEncoding) -> (bytes:
    Vec<u8>)
    ensures
        bytes@ == mouse_report(
            cell,
            if up {
                64
            } else {
                65
            },
            false,
            encoding,
        ),
{
    encode_mouse_event(
        cell,
        if up {
            64
        } else {
            65
        },
        false,
        encoding,
    )
}

/// Which buttons an application was told are down.
#[derive(Clone, Copy, Debug, PartialEq, Eq, Structural)]
pub struct ForwardedMouseState {
    pub left_pressed: bool,
    pub middle_pressed: bool,
    pub right_pressed: bool,
    pub last_cell: Option<CellPosition>,
}

pub open spec fn nothing_forwarded() -> ForwardedMouseState {
    ForwardedMouseState {
        left_pressed: false,
        middle_pressed: false,
        right_pressed: false,
        last_cell: None,
    }
}

impl Default for ForwardedMouseState {
    fn default() -> (r: Self)
        ensures
            r == nothing_forwarded(),
    {
        ForwardedMouseState {
            left_pressed: false,
            middle_pressed: false,
            right_pressed: false,
            last_cell: None,
        }
    }
}

/// A button of the mouse.
#[derive(Clone, Copy, Debug, PartialEq, Eq, Structural)]
pub enum MouseButton {
    Left,
    Middle,
    Right,
    Other,
}

impl ForwardedMouseState {
    pub open spec fn any_pressed(self) -> bool {
        self.left_pressed || self.middle_pressed || self.right_pressed
    }

    /// The code of a movement: that of the first button that is down.
    pub open spec fn motion_code(self) -> u16 {
        if self.left_pressed {
            32
        } else if self.middle_pressed {
            33
        } else if self.right_pressed {
            34
        } else {
            35
        }
    }

    pub open spec fn with_button(self, button: MouseButton, pressed: bool) -> ForwardedMouseState {
        match button {
            MouseButton::Left => ForwardedMouseState { left_pressed: pressed, ..self },
            MouseButton::Middle => ForwardedMouseState { middle_pressed: pressed, ..self },
            MouseButton::Right => ForwardedMouseState { right_pressed: pressed, ..self },
            MouseButton::Other => self,
        }
    }

    fn set_button(&mut self, button: MouseButton, pressed: bool)
        ensures
            *final(self) == old(self).with_button(button, pressed),
    {
        match button {
            MouseButton::Left => {
                self.left_pressed = pressed;
            },
            MouseButton::Middle => {
                self.middle_pressed = pressed;
            },
            MouseButton::Right => {
                self.right_pressed = pressed;
            },
            MouseButton::Other => {},
        }
    }

    /// Whether a movement to a cell is reported.
    pub open spec fn reports_motion(self, cell: CellPosition, protocol: MouseProtocolMode) -> bool {
        self.last_cell != Some(cell) && match protocol {
            MouseProtocolMode::ButtonMotion => self.any_pressed(),
            MouseProtocolMode::AnyMotion => true,
            _ => false,
        }
    }

    /// The releases that an application is owed for the buttons that are down.
    pub open spec fn owed(
        self,
        protocol: MouseProtocolMode,
        encoding: MouseProtocolEncoding,
    ) -> Seq<u8> {
        match self.last_cell {
            Some(cell) if protocol != MouseProtocolMode::Off => {
                release_report(self.left_pressed, cell, 0, encoding) + release_report(
                    self.middle_pressed,
                    cell,
                    1,
                    encoding,
                ) + release_report(self.right_pressed, cell, 2, encoding)
            },
            _ => Seq::empty(),
        }
    }

    /// The releases that an application is owed for the buttons that are down.
    pub fn owed_releases(&self, protocol: MouseProtocolMode, encoding: MouseProtocolEncoding) -> (r:
        Vec<u8>)
        ensures
            r@ == self.owed(protocol, encoding),
    {
        let mut bytes: Vec<u8> = Vec::new();
        if protocol == MouseProtocolMode::Off {
            return bytes;
        }
        if let Some(cell) = self.last_cell {
            if self.left_pressed {
                bytes.append(&mut encode_mouse_event(cell, 0, true, encoding));
            }
            if self.middle_pressed {
                bytes.append(&mut encode_mouse_event(cell, 1, true, encoding));
            }
            if self.right_pressed {
                bytes.append(&mut encode_mouse_event(cell, 2, true, encoding));
            }
            assert(bytes@ =~= self.owed(protocol, encoding));
        }
        bytes
    }
}

pub open spec fn release_report(
    pressed: bool,
    cell: CellPosition,
    button_code: u16,
    encoding: MouseProtocolEncoding,
) -> Seq<u8> {
    if pressed {
        mouse_report(cell, button_code, true, encoding)
    } else {
        Seq::empty()
    }
}

/// What a finger does.
#[derive(Clone, Copy, Debug, PartialEq, Eq, Structural)]
pub enum TouchPhase {
    Started,
    Moved,
    Ended,
    Canceled,
}

/// What was measured of a touch.
#[derive(Clone, Copy, Debug, PartialEq, Eq, Structural)]
pub struct TouchMeasure {
    /// Whether it lies in the corner where a swipe into the Mobius strip starts.
    pub in_corner: bool,
    /// Whether it went far enough, up and to the right, from where the swipe began.
    pub swiped: bool,
    /// Whether it may still become such a swipe.
    pub reserved: bool,
}

/// Camera movement produced by a touch event.
#[derive(Clone, Copy, Debug)]
pub enum TouchGesture {
    /// One finger moved.
    Rotate { from: Point, to: Point },
    /// One of two fingers moved.
    PanAndZoom { before: (Point, Point), after: (Point, Point) },
    /// A finger went from the corner into the window.
    EnterMobius,
}

/// Tracks up to two fingers used for camera gestures.
#[derive(Clone, Copy, Debug)]
pub struct TouchGestureState {
    pub primary: Option<(u64, Point)>,
    pub secondary: Option<(u64, Point)>,
    pub mobius_swipe_start: Option<Point>,
}

pub open spec fn no_touch() -> TouchGestureState {
    TouchGestureState { primary: None, secondary: None, mobius_swipe_start: None }
}

impl Default for TouchGestureState {
    fn default() -> (r: Self)
        ensures
            r == no_touch(),
    {
        TouchGestureState { primary: None, secondary: None, mobius_swipe_start: None }
    }
}

pub open spec fn finger_is(finger: Option<(u64, Point)>, id: u64) -> bool {
    finger matches Some((other, _)) && other == id
}

fn is_finger(finger: Option<(u64, Point)>, id: u64) -> (r: bool)
    ensures
        r == finger_is(finger, id),
{
    match finger {
        Some((other, _)) => other == id,
        None => false,
    }
}

impl TouchGestureState {
    /// Whether a second finger comes after a first, and they differ.
    pub open spec fn wf(self) -> bool {
        self.secondary matches Some((id, _)) ==> self.primary is Some && !finger_is(
            self.primary,
            id,
        )
    }

    /// The fingers after one touched the window.
    pub open spec fn touched(self, id: u64, position: Point, in_corner: bool) -> TouchGestureState {
        if self.primary is None {
            TouchGestureState {
                primary: Some((id, position)),
                mobius_swipe_start: if in_corner {
                    Some(position)
                } else {
                    self.mobius_swipe_start
                },
                ..self
            }
        } else if self.secondary is None && !finger_is(self.primary, id) {
            TouchGestureState {
                secondary: Some((id, position)),
                mobius_swipe_start: None,
                ..self
            }
        } else {
            self
        }
    }

    /// The fingers after one left the window. The second takes the place of the
    /// first.
    pub open spec fn lifted(self, id: u64) -> TouchGestureState {
        if finger_is(self.secondary, id) {
            TouchGestureState { secondary: None, ..self }
        } else if finger_is(self.primary, id) {
            TouchGestureState {
                primary: self.secondary,
                secondary: None,
                mobius_swipe_start: None,
            }
        } else {
            self
        }
    }

    /// The fingers with one of them at another place.
    pub open spec fn placed(self, id: u64, position: Point) -> TouchGestureState {
        if finger_is(self.primary, id) {
            TouchGestureState { primary: Some((id, position)), ..self }
        } else {
            TouchGestureState { secondary: Some((id, position)), ..self }
        }
    }

    pub open spec fn swiping(self) -> bool {
        self.secondary is None && self.mobius_swipe_start is Some
    }

    /// The fingers and the gesture after a finger moved.
    pub open spec fn slid(self, id: u64, position: Point, measure: TouchMeasure) -> (
        TouchGestureState,
        Option<TouchGesture>,
    ) {
        if !finger_is(self.primary, id) && !finger_is(self.secondary, id) {
            (self, None)
        } else {
            let placed = self.placed(id, position);
            if placed.swiping() && measure.swiped {
                (no_touch(), Some(TouchGesture::EnterMobius))
            } else if placed.swiping() && measure.reserved {
                (placed, None)
            } else {
                let next = TouchGestureState {
                    mobius_swipe_start: if placed.swiping() {
                        None
                    } else {
                        placed.mobius_swipe_start
                    },
                    ..placed
                };
                (
                    next,
                    match (self.primary, self.secondary, next.primary, next.secondary) {
                        (Some(a), Some(b), Some(c), Some(d)) => Some(
                            TouchGesture::PanAndZoom { before: (a.1, b.1), after: (c.1, d.1) },
                        ),
                        (Some(a), _, _, _) => Some(
                            TouchGesture::Rotate { from: a.1, to: position },
                        ),
                        _ => None,
                    },
                )
            }
        }
    }

    pub open spec fn updated(
        self,
        id: u64,
        phase: TouchPhase,
        position: Point,
        measure: TouchMeasure,
    ) -> (TouchGestureState, Option<TouchGesture>) {
        match phase {
            TouchPhase::Started => (self.touched(id, position, measure.in_corner), None),
            TouchPhase::Moved => self.slid(id, position, measure),
            TouchPhase::Ended | TouchPhase::Canceled => (self.lifted(id), None),
        }
    }

    /// Forgets every finger.
    pub fn reset(&mut self)
        ensures
            *final(self) == no_touch(),
    {
        self.primary = None;
        self.secondary = None;
        self.mobius_swipe_start = None;
    }

    /// Updates the fingers and returns the gesture that they make.
    pub fn update(
        &mut self,
        id: u64,
        phase: TouchPhase,
        position: Point,
        measure: TouchMeasure,
    ) -> (r: Option<TouchGesture>)
        requires
            old(self).wf(),
        ensures
            (*final(self), r) == old(self).updated(id, phase, position, measure),
            final(self).wf(),
    {
        match phase {
            TouchPhase::Started => {
                if self.primary.is_none() {
                    self.primary = Some((id, position));
                    if measure.in_corner {
                        self.mobius_swipe_start = Some(position);
                    }
                } else if self.secondary.is_none() && !is_finger(self.primary, id) {
                    self.secondary = Some((id, position));
                    self.mobius_swipe_start = None;
                }
                None
            },
            TouchPhase::Moved => {
                let before = *self;
                if is_finger(self.primary, id) {
                    self.primary = Some((id, position));
                } else if is_finger(self.secondary, id) {
                    self.secondary = Some((id, position));
                } else {
                    return None;
                }
                if self.secondary.is_none() && self.mobius_swipe_start.is_some() {
                    if measure.swiped {
                        self.reset();
                        return Some(TouchGesture::EnterMobius);
                    }
                    if measure.reserved {
                        return None;
                    }
                    self.mobius_swipe_start = None;
                }
                match (before.primary, before.secondary, self.primary, self.secondary) {
                    (Some(a), Some(b), Some(c), Some(d)) => Some(
                        TouchGesture::PanAndZoom { before: (a.1, b.1), after: (c.1, d.1) },
                    ),
                    (Some(a), _, _, _) => Some(TouchGesture::Rotate { from: a.1, to: position }),
                    _ => None,
                }
            },
            TouchPhase::Ended | TouchPhase::Canceled => {
                if is_finger(self.secondary, id) {
                    self.secondary = None;
                } else if is_finger(self.primary, id) {
                    self.primary = self.secondary;
                    self.secondary = None;
                    self.mobius_swipe_start = None;
                }
                None
            },
        }
    }
}

/// How a wheel counts.
#[derive(Clone, Copy, Debug, PartialEq, Eq, Structural)]
pub enum MouseScrollUnit {
    Line,
    Pixel,
}

/// Something that happened to the mouse, to a finger or to the window. Cells are
/// those under the pointer, where it is over the terminal.
#[derive(Clone, Copy, Debug)]
pub enum MouseEvent {
    /// The window lost the focus.
    FocusLost,
    /// The pointer moved. `far` says that it is at least four pixels from where a
    /// selection was armed.
    Moved { position: Point, cell: Option<CellPosition>, far: bool },
    /// A button went down or up; `remembered` is the cell at the last position that
    /// the pointer was seen at.
    Button {
        button: MouseButton,
        pressed: bool,
        cell: Option<CellPosition>,
        remembered: Option<CellPosition>,
    },
    /// The wheel turned.
    Wheel { unit: MouseScrollUnit, delta: Number, cell: Option<CellPosition> },
    /// A finger did something.
    Touch { id: u64, phase: TouchPhase, position: Point, measure: TouchMeasure },
}

/// What mouse events are seen against.
#[derive(Clone, Copy, Debug, PartialEq, Eq, Structural)]
pub struct MouseContext {
    /// How the terminal is shown.
    pub mode: TerminalPresentationMode,
    /// Whether the transition of the Mobius strip is active.
    pub transition_active: bool,
    /// Which events the application wants.
    pub protocol: MouseProtocolMode,
    /// How it wants them.
    pub encoding: MouseProtocolEncoding,
    /// Whether it uses the alternate screen.
    pub alternate_screen: bool,
    /// How many lines a step of the wheel scrolls.
    pub scroll_lines: u16,
    /// How far the view is scrolled back.
    pub scrollback: usize,
}

impl MouseContext {
    /// Whether the strip moves, and takes no input.
    pub open spec fn animating(self) -> bool {
        self.mode == TerminalPresentationMode::Mobius3d && self.transition_active
    }

    /// Whether the application gets the mouse.
    pub open spec fn forwards(self) -> bool {
        self.mode == TerminalPresentationMode::Flat2d && self.protocol != MouseProtocolMode::Off
    }

    /// Whether the wheel scrolls the view.
    pub open spec fn scrolls(self) -> bool {
        self.mode == TerminalPresentationMode::Flat2d && !self.alternate_screen
    }

    pub fn is_animating(&self) -> (r: bool)
        ensures
            r == self.animating(),
    {
        self.mode == TerminalPresentationMode::Mobius3d && self.transition_active
    }

    pub fn forwards_mouse(&self) -> (r: bool)
        ensures
            r == self.forwards(),
    {
        self.mode == TerminalPresentationMode::Flat2d && self.protocol != MouseProtocolMode::Off
    }
}

/// What is to be done about an event.
#[derive(Debug)]
pub enum MouseAction {
    /// Nothing.
    Ignore,
    /// Send bytes to the application.
    Send(Vec<u8>),
    /// Draw the terminal again.
    Redraw,
    /// Turn the camera by a movement.
    Rotate { from: Point, to: Point },
    /// Shift the camera by a movement.
    Pan { from: Point, to: Point },
    /// Shift the camera and zoom by the movement of two fingers.
    PanAndZoom { before: (Point, Point), after: (Point, Point) },
    /// Zoom by the turn of the wheel.
    Zoom,
    /// Scroll the view back to a row, and draw the terminal again.
    ScrollTo(usize),
    /// Count the pixels that the wheel turned, and scroll by the lines they make.
    ScrollPixels,
    /// Enter the Mobius strip.
    EnterMobius,
}

/// An action with the bytes that it sends.
pub enum ActionModel {
    Ignore,
    Send(Seq<u8>),
    Redraw,
    Rotate { from: Point, to: Point },
    Pan { from: Point, to: Point },
    PanAndZoom { before: (Point, Point), after: (Point, Point) },
    Zoom,
    ScrollTo(usize),
    ScrollPixels,
    EnterMobius,
}

impl View for MouseAction {
    type V = ActionModel;

    open spec fn view(&self) -> ActionModel {
        match *self {
            MouseAction::Ignore => ActionModel::Ignore,
            MouseAction::Send(bytes) => ActionModel::Send(bytes@),
            MouseAction::Redraw => ActionModel::Redraw,
            MouseAction::Rotate { from, to } => ActionModel::Rotate { from, to },
            MouseAction::Pan { from, to } => ActionModel::Pan { from, to },
            MouseAction::PanAndZoom { before, after } => ActionModel::PanAndZoom { before, after },
            MouseAction::Zoom => ActionModel::Zoom,
            MouseAction::ScrollTo(rows) => ActionModel::ScrollTo(rows),
            MouseAction::ScrollPixels => ActionModel::ScrollPixels,
            MouseAction::EnterMobius => ActionModel::EnterMobius,
        }
    }
}

/// What is remembered between mouse events.
#[derive(Clone, Copy, Debug)]
pub struct MouseSession {
    pub selection: TerminalSelection,
    pub interaction: TerminalCameraInteraction,
    pub forwarded: ForwardedMouseState,
    pub touch: TouchGestureState,
}

impl Default for MouseSession {
    fn default() -> (r: Self)
        ensures
            r == (MouseSession {
                selection: no_selection(),
                interaction: no_interaction(),
                forwarded: nothing_forwarded(),
                touch: no_touch(),
            }),
            r.wf(),
    {
        MouseSession {
            selection: TerminalSelection::default(),
            interaction: TerminalCameraInteraction::default(),
            forwarded: ForwardedMouseState::default(),
            touch: TouchGestureState::default(),
        }
    }
}

/// How far the view is scrolled back after some lines more.
pub open spec fn scrolled(current: usize, amount: isize) -> usize {
    if current + amount < 0 {
        0
    } else if current + amount > usize::MAX {
        usize::MAX
    } else {
        (current + amount) as usize
    }
}

impl MouseSession {
    pub open spec fn wf(self) -> bool {
        self.touch.wf()
    }

    /// The session without anything that waits for a button to be released. A
    /// selection that was made stays.
    pub open spec fn released(self) -> MouseSession {
        MouseSession {
            selection: self.selection.ended(),
            interaction: no_interaction(),
            forwarded: nothing_forwarded(),
            touch: self.touch,
        }
    }

    /// Drops every drag-like state that waits on a button release. Releases that
    /// are delivered while the window is unfocused go elsewhere, so what is held
    /// down must be forgotten with the focus. The selection itself is kept.
    pub fn release_pointer_drags(&mut self)
        ensures
            *final(self) == old(self).released(),
    {
        self.interaction.reset();
        let _ = self.selection.end();
        self.forwarded.left_pressed = false;
        self.forwarded.middle_pressed = false;
        self.forwarded.right_pressed = false;
        self.forwarded.last_cell = None;
    }

    pub open spec fn focus_lost(self, context: MouseContext) -> (MouseSession, ActionModel) {
        let owed = self.forwarded.owed(context.protocol, context.encoding);
        (
            MouseSession { touch: no_touch(), ..self.released() },
            if owed.len() == 0 {
                ActionModel::Ignore
            } else {
                ActionModel::Send(owed)
            },
        )
    }

    fn lose_focus(&mut self, context: &MouseContext) -> (r: MouseAction)
        ensures
            (*final(self), r@) == old(self).focus_lost(*context),
    {
        let owed = self.forwarded.owed_releases(context.protocol, context.encoding);
        self.release_pointer_drags();
        self.touch.reset();
        if owed.len() == 0 {
            MouseAction::Ignore
        } else {
            MouseAction::Send(owed)
        }
    }

    /// A drag of the camera after the pointer moved.
    pub open spec fn camera_dragged(self, position: Point) -> (MouseSession, ActionModel) {
        if self.interaction.rotating {
            (
                MouseSession {
                    interaction: TerminalCameraInteraction {
                        last_rotate_cursor: Some(position),
                        ..self.interaction
                    },
                    ..self
                },
                match self.interaction.last_rotate_cursor {
                    Some(from) => ActionModel::Rotate { from, to: position },
                    None => ActionModel::Ignore,
                },
            )
        } else if self.interaction.panning {
            (
                MouseSession {
                    interaction: TerminalCameraInteraction {
                        last_pan_cursor: Some(position),
                        ..self.interaction
                    },
                    ..self
                },
                match self.interaction.last_pan_cursor {
                    Some(from) => ActionModel::Pan { from, to: position },
                    None => ActionModel::Ignore,
                },
            )
        } else {
            (self, ActionModel::Ignore)
        }
    }

    pub open spec fn seen_at(self, position: Point) -> MouseSession {
        MouseSession {
            selection: TerminalSelection {
                cursor_position: Some(position),
                ..self.selection
            },
            ..self
        }
    }

    pub open spec fn moved(
        self,
        position: Point,
        cell: Option<CellPosition>,
        far: bool,
        context: MouseContext,
    ) -> (MouseSession, ActionModel) {
        let seen = self.seen_at(position);
        if context.animating() {
            (seen, ActionModel::Ignore)
        } else if context.mode.spatial() {
            seen.camera_dragged(position)
        } else {
            match cell {
                None => (seen, ActionModel::Ignore),
                Some(cell) => if context.forwards() {
                    if seen.forwarded.reports_motion(cell, context.protocol) {
                        (
                            MouseSession {
                                forwarded: ForwardedMouseState {
                                    last_cell: Some(cell),
                                    ..seen.forwarded
                                },
                                ..seen
                            },
                            ActionModel::Send(
                                mouse_report(
                                    cell,
                                    seen.forwarded.motion_code(),
                                    false,
                                    context.encoding,
                                ),
                            ),
                        )
                    } else {
                        (seen, ActionModel::Ignore)
                    }
                } else {
                    (
                        MouseSession { selection: seen.selection.dragged(cell, far), ..seen },
                        if seen.selection.moves(cell) || seen.selection.starts(far) {
                            ActionModel::Redraw
                        } else {
                            ActionModel::Ignore
                        },
                    )
                },
            }
        }
    }

    fn drag_camera(&mut self, position: Point) -> (r: MouseAction)
        ensures
            (*final(self), r@) == old(self).camera_dragged(position),
    {
        if self.interaction.rotating {
            let last = self.interaction.last_rotate_cursor;
            self.interaction.last_rotate_cursor = Some(position);
            match last {
                Some(from) => MouseAction::Rotate { from, to: position },
                None => MouseAction::Ignore,
            }
        } else if self.interaction.panning {
            let last = self.interaction.last_pan_cursor;
            self.interaction.last_pan_cursor = Some(position);
            match last {
                Some(from) => MouseAction::Pan { from, to: position },
                None => MouseAction::Ignore,
            }
        } else {
            MouseAction::Ignore
        }
    }

    fn forward_motion(&mut self, cell: CellPosition, context: &MouseContext) -> (r: MouseAction)
        ensures
            r@ == (if old(self).forwarded.reports_motion(cell, context.protocol) {
                ActionModel::Send(
                    mouse_report(
                        cell,
                        old(self).forwarded.motion_code(),
                        false,
                        context.encoding,
                    ),
                )
            } else {
                ActionModel::Ignore
            }),
            *final(self) == (if old(self).forwarded.reports_motion(cell, context.protocol) {
                MouseSession {
                    forwarded: ForwardedMouseState {
                        last_cell: Some(cell),
                        ..old(self).forwarded
                    },
                    ..*old(self)
                }
            } else {
                *old(self)
            }),
    {
        let pressed = self.forwarded.left_pressed || self.forwarded.middle_pressed
            || self.forwarded.right_pressed;
        let wanted = match context.protocol {
            MouseProtocolMode::ButtonMotion => pressed,
            MouseProtocolMode::AnyMotion => true,
            _ => false,
        };
        if is_at(self.forwarded.last_cell, cell) || !wanted {
            return MouseAction::Ignore;
        }
        let code: u16 = if self.forwarded.left_pressed {
            32
        } else if self.forwarded.middle_pressed {
            33
        } else if self.forwarded.right_pressed {
            34
        } else {
            35
        };
        self.forwarded.last_cell = Some(cell);
        MouseAction::Send(encode_mouse_event(cell, code, false, context.encoding))
    }

    fn move_pointer(
        &mut self,
        position: Point,
        cell: Option<CellPosition>,
        far: bool,
        context: &MouseContext,
    ) -> (r: MouseAction)
        ensures
            (*final(self), r@) == old(self).moved(position, cell, far, *context),
    {
        self.selection.set_cursor_position(position);
        if context.is_animating() {
            return MouseAction::Ignore;
        }
        if context.mode.is_3d() {
            return self.drag_camera(position);
        }
        match cell {
            None => MouseAction::Ignore,
            Some(cell) => {
                if context.forwards_mouse() {
                    self.forward_motion(cell, context)
                } else if self.selection.update_from_cursor(cell, far) {
                    MouseAction::Redraw
                } else {
                    MouseAction::Ignore
                }
            },
        }
    }

    /// The code of a button, where it has one.
    pub open spec fn button_code(button: MouseButton) -> Option<u16> {
        match button {
            MouseButton::Left => Some(0u16),
            MouseButton::Middle => Some(1u16),
            MouseButton::Right => Some(2u16),
            MouseButton::Other => None,
        }
    }

    /// A button that the application gets.
    pub open spec fn button_forwarded(
        self,
        button: MouseButton,
        pressed: bool,
        cell: Option<CellPosition>,
        encoding: MouseProtocolEncoding,
    ) -> (MouseSession, ActionModel) {
        let held = self.forwarded.with_button(button, pressed);
        match (MouseSession::button_code(button), cell) {
            (Some(code), Some(cell)) => (
                MouseSession {
                    forwarded: ForwardedMouseState { last_cell: Some(cell), ..held },
                    ..self
                },
                ActionModel::Send(mouse_report(cell, code, !pressed, encoding)),
            ),
            _ => (MouseSession { forwarded: held, ..self }, ActionModel::Ignore),
        }
    }

    /// A button that turns or shifts the camera.
    pub open spec fn button_on_camera(self, button: MouseButton, pressed: bool) -> MouseSession {
        match button {
            MouseButton::Left => MouseSession {
                interaction: TerminalCameraInteraction {
                    rotating: pressed,
                    last_rotate_cursor: self.selection.cursor_position,
                    ..self.interaction
                },
                ..self
            },
            MouseButton::Right => MouseSession {
                interaction: TerminalCameraInteraction {
                    panning: pressed,
                    last_pan_cursor: self.selection.cursor_position,
                    ..self.interaction
                },
                ..self
            },
            _ => self,
        }
    }

    /// A button that selects text: the left one alone.
    pub open spec fn button_on_text(
        self,
        button: MouseButton,
        pressed: bool,
        remembered: Option<CellPosition>,
    ) -> (MouseSession, ActionModel) {
        if button != MouseButton::Left {
            (self, ActionModel::Ignore)
        } else if !pressed {
            (MouseSession { selection: self.selection.ended(), ..self }, ActionModel::Ignore)
        } else {
            match (self.selection.cursor_position, remembered) {
                (Some(position), Some(cell)) => (
                    MouseSession { selection: self.selection.armed(cell, position), ..self },
                    if self.selection.start is Some || self.selection.end is Some
                        || self.selection.dragging {
                        ActionModel::Redraw
                    } else {
                        ActionModel::Ignore
                    },
                ),
                _ => (self, ActionModel::Ignore),
            }
        }
    }

    pub open spec fn button_changed(
        self,
        button: MouseButton,
        pressed: bool,
        cell: Option<CellPosition>,
        remembered: Option<CellPosition>,
        context: MouseContext,
    ) -> (MouseSession, ActionModel) {
        if context.animating() {
            (self, ActionModel::Ignore)
        } else if context.forwards() {
            self.button_forwarded(button, pressed, cell, context.encoding)
        } else if context.mode.spatial() {
            (self.button_on_camera(button, pressed), ActionModel::Ignore)
        } else {
            self.button_on_text(button, pressed, remembered)
        }
    }

    fn forward_button(
        &mut self,
        button: MouseButton,
        pressed: bool,
        cell: Option<CellPosition>,
        encoding: MouseProtocolEncoding,
    ) -> (r: MouseAction)
        ensures
            (*final(self), r@) == old(self).button_forwarded(button, pressed, cell, encoding),
    {
        self.forwarded.set_button(button, pressed);
        let code: u16 = match button {
            MouseButton::Left => 0,
            MouseButton::Middle => 1,
            MouseButton::Right => 2,
            MouseButton::Other => {
                return MouseAction::Ignore;
            },
        };
        match cell {
            Some(cell) => {
                self.forwarded.last_cell = Some(cell);
                MouseAction::Send(encode_mouse_event(cell, code, !pressed, encoding))
            },
            None => MouseAction::Ignore,
        }
    }

    fn change_button(
        &mut self,
        button: MouseButton,
        pressed: bool,
        cell: Option<CellPosition>,
        remembered: Option<CellPosition>,
        context: &MouseContext,
    ) -> (r: MouseAction)
        ensures
            (*final(self), r@) == old(self).button_changed(
                button,
                pressed,
                cell,
                remembered,
                *context,
            ),
    {
        if context.is_animating() {
            return MouseAction::Ignore;
        }
        if context.forwards_mouse() {
            return self.forward_button(button, pressed, cell, context.encoding);
        }
        let cursor = self.selection.cursor_position();
        if context.mode.is_3d() {
            if button == MouseButton::Left {
                self.interaction.rotating = pressed;
                self.interaction.last_rotate_cursor = cursor;
            } else if button == MouseButton::Right {
                self.interaction.panning = pressed;
                self.interaction.last_pan_cursor = cursor;
            }
            return MouseAction::Ignore;
        }
        if button != MouseButton::Left {
            return MouseAction::Ignore;
        }
        if !pressed {
            let _ = self.selection.end();
            return MouseAction::Ignore;
        }
        match (cursor, remembered) {
            (Some(position), Some(cell)) => {
                if self.selection.begin_pending(cell, position) {
                    MouseAction::Redraw
                } else {
                    MouseAction::Ignore
                }
            },
            _ => MouseAction::Ignore,
        }
    }

    /// The view scrolled by some lines. The selection goes with what it selected.
    pub open spec fn lines_scrolled(self, amount: isize, scrollback: usize) -> (
        MouseSession,
        ActionModel,
    ) {
        if amount == 0 {
            (self, ActionModel::Ignore)
        } else {
            (
                MouseSession { selection: no_selection(), ..self },
                ActionModel::ScrollTo(scrolled(scrollback, amount)),
            )
        }
    }

    /// Scrolls the view by some lines, back in history for a positive number.
    pub fn scroll_lines(&mut self, amount: isize, scrollback: usize) -> (r: MouseAction)
        ensures
            (*final(self), r@) == old(self).lines_scrolled(amount, scrollback),
    {
        if amount == 0 {
            return MouseAction::Ignore;
        }
        let _ = self.selection.clear();
        let next: i128 = scrollback as i128 + amount as i128;
        MouseAction::ScrollTo(
            if next < 0 {
                0
            } else if next > usize::MAX as i128 {
                usize::MAX
            } else {
                next as usize
            },
        )
    }

    pub open spec fn wheel_turned(
        self,
        unit: MouseScrollUnit,
        delta: Number,
        cell: Option<CellPosition>,
        context: MouseContext,
    ) -> (MouseSession, ActionModel) {
        let turned = !delta.equals(Number { bits: 0 });
        if context.forwards() && turned {
            (
                self,
                match cell {
                    Some(cell) => ActionModel::Send(
                        mouse_report(
                            cell,
                            if delta.positive() {
                                64
                            } else {
                                65
                            },
                            false,
                            context.encoding,
                        ),
                    ),
                    None => ActionModel::Ignore,
                },
            )
        } else if context.scrolls() {
            match unit {
                MouseScrollUnit::Line => self.lines_scrolled(
                    if delta.negative() {
                        (-context.scroll_lines) as isize
                    } else {
                        context.scroll_lines as isize
                    },
                    context.scrollback,
                ),
                MouseScrollUnit::Pixel => (self, ActionModel::ScrollPixels),
            }
        } else if context.mode.spatial() && turned {
            (self, ActionModel::Zoom)
        } else {
            (self, ActionModel::Ignore)
        }
    }

    fn turn_wheel(
        &mut self,
        unit: MouseScrollUnit,
        delta: Number,
        cell: Option<CellPosition>,
        context: &MouseContext,
    ) -> (r: MouseAction)
        ensures
            (*final(self), r@) == old(self).wheel_turned(unit, delta, cell, *context),
    {
        let turned = !delta.same(Number { bits: 0 });
        if context.forwards_mouse() && turned {
            return match cell {
                Some(cell) => MouseAction::Send(
                    encode_mouse_wheel(cell, delta.is_positive(), context.encoding),
                ),
                None => MouseAction::Ignore,
            };
        }
        if context.mode == TerminalPresentationMode::Flat2d && !context.alternate_screen {
            return match unit {
                MouseScrollUnit::Line => {
                    let lines: isize = context.scroll_lines as isize;
                    let amount: isize = if delta.is_negative() {
                        -lines
                    } else {
                        lines
                    };
                    self.scroll_lines(amount, context.scrollback)
                },
                MouseScrollUnit::Pixel => MouseAction::ScrollPixels,
            };
        }
        if context.mode.is_3d() && turned {
            MouseAction::Zoom
        } else {
            MouseAction::Ignore
        }
    }

    pub open spec fn touched(
        self,
        id: u64,
        phase: TouchPhase,
        position: Point,
        measure: TouchMeasure,
        context: MouseContext,
    ) -> (MouseSession, ActionModel) {
        let (touch, gesture) = self.touch.updated(id, phase, position, measure);
        let next = MouseSession { touch, ..self };
        let moves = context.mode.spatial() && !context.animating();
        match gesture {
            Some(TouchGesture::Rotate { from, to }) if moves => (
                next,
                ActionModel::Rotate { from, to },
            ),
            Some(TouchGesture::PanAndZoom { before, after }) if moves => (
                next,
                ActionModel::PanAndZoom { before, after },
            ),
            Some(TouchGesture::EnterMobius) => (
                MouseSession { selection: no_selection(), ..next },
                ActionModel::EnterMobius,
            ),
            _ => (next, ActionModel::Ignore),
        }
    }

    fn touch(
        &mut self,
        id: u64,
        phase: TouchPhase,
        position: Point,
        measure: TouchMeasure,
        context: &MouseContext,
    ) -> (r: MouseAction)
        requires
            old(self).wf(),
        ensures
            (*final(self), r@) == old(self).touched(id, phase, position, measure, *context),
            final(self).wf(),
    {
        let moves = context.mode.is_3d() && !context.is_animating();
        match self.touch.update(id, phase, position, measure) {
            Some(TouchGesture::Rotate { from, to }) if moves => MouseAction::Rotate { from, to },
            Some(TouchGesture::PanAndZoom { before, after }) if moves => MouseAction::PanAndZoom {
                before,
                after,
            },
            Some(TouchGesture::EnterMobius) => {
                let _ = self.selection.clear();
                MouseAction::EnterMobius
            },
            _ => MouseAction::Ignore,
        }
    }

    pub open spec fn handled(self, event: MouseEvent, context: MouseContext) -> (
        MouseSession,
        ActionModel,
    ) {
        match event {
            MouseEvent::FocusLost => self.focus_lost(context),
            MouseEvent::Moved { position, cell, far } => self.moved(position, cell, far, context),
            MouseEvent::Button { button, pressed, cell, remembered } => self.button_changed(
                button,
                pressed,
                cell,
                remembered,
                context,
            ),
            MouseEvent::Wheel { unit, delta, cell } => self.wheel_turned(
                unit,
                delta,
                cell,
                context,
            ),
            MouseEvent::Touch { id, phase, position, measure } => self.touched(
                id,
                phase,
                position,
                measure,
                context,
            ),
        }
    }

    /// Handles a mouse event, and says what is to be done about it.
    pub fn handle_mouse_input(&mut self, event: MouseEvent, context: &MouseContext) -> (r:
        MouseAction)
        requires
            old(self).wf(),
        ensures
            (*final(self), r@) == old(self).handled(event, *context),
            final(self).wf(),
    {
        match event {
            MouseEvent::FocusLost => self.lose_focus(context),
            MouseEvent::Moved { position, cell, far } => self.move_pointer(
                position,
                cell,
                far,
                context,
            ),
            MouseEvent::Button { button, pressed, cell, remembered } => self.change_button(
                button,
                pressed,
                cell,
                remembered,
                context,
            ),
            MouseEvent::Wheel { unit, delta, cell } => self.turn_wheel(unit, delta, cell, context),
            MouseEvent::Touch { id, phase, position, measure } => self.touch(
                id,
                phase,
                position,
                measure,
                context,
            ),
        }
    }
}

/// The largest scale that the wheel reaches from a scale.
pub open spec fn widest_scale(current: Number) -> Number {
    let limit = Number { bits: MAX_WHEEL_ORTHOGRAPHIC_SCALE };
    if current.reaches(limit) {
        current
    } else {
        limit
    }
}

/// An orthographic scale after a step of the wheel, which would take it from
/// `current` to `moved`. The protocol accepts any scale that is large enough, so
/// one above the limit of the wheel is not pulled down to it.
pub fn wheel_zoomed_orthographic_scale(current: Number, moved: Number) -> (r: Number)
    ensures
        r == (moved.clamped(Number { bits: MIN_ORTHOGRAPHIC_SCALE }, widest_scale(current))),
{
    let limit = Number { bits: MAX_WHEEL_ORTHOGRAPHIC_SCALE };
    let widest = if current.at_least(limit) {
        current
    } else {
        limit
    };
    moved.clamp(Number { bits: MIN_ORTHOGRAPHIC_SCALE }, widest)
}

/// The projection value that a presentation mode displays.
pub open spec fn displayed(pose: TerminalCameraPose, mode: TerminalPresentationMode) -> Number {
    if mode == TerminalPresentationMode::Perspective3d {
        pose.perspective_fov
    } else {
        pose.orthographic_scale
    }
}

/// The projection value that a presentation mode displays, by which movements of
/// the camera are scaled too.
pub fn displayed_projection(pose: &TerminalCameraPose, mode: TerminalPresentationMode) -> (r: Number)
    ensures
        r == displayed(*pose, mode),
{
    if mode == TerminalPresentationMode::Perspective3d {
        pose.perspective_fov
    } else {
        pose.orthographic_scale
    }
}

/// A pose after a step of the wheel.
pub open spec fn zoomed(
    pose: TerminalCameraPose,
    mode: TerminalPresentationMode,
    animating: bool,
    delta: Number,
    moved: Number,
) -> TerminalCameraPose {
    if !mode.spatial() || animating || delta.equals(Number { bits: 0 }) {
        pose
    } else if mode == TerminalPresentationMode::Perspective3d {
        TerminalCameraPose {
            perspective_fov: moved.clamped(
                Number { bits: MIN_PERSPECTIVE_FOV },
                Number { bits: MAX_PERSPECTIVE_FOV },
            ),
            ..pose
        }
    } else {
        TerminalCameraPose {
            orthographic_scale: moved.clamped(
                Number { bits: MIN_ORTHOGRAPHIC_SCALE },
                widest_scale(pose.orthographic_scale),
            ),
            ..pose
        }
    }
}

/// Routes one step of the wheel to the projection value that the mode displays,
/// which it would take to `moved`. Nothing happens while the Mobius strip moves.
pub fn apply_wheel_zoom(
    pose: &mut TerminalCameraPose,
    mode: TerminalPresentationMode,
    animating: bool,
    delta: Number,
    moved: Number,
)
    ensures
        *final(pose) == zoomed(*old(pose), mode, animating, delta, moved),
{
    if !mode.is_3d() || animating || delta.same(Number { bits: 0 }) {
        return ;
    }
    if mode == TerminalPresentationMode::Perspective3d {
        pose.perspective_fov =
        moved.clamp(Number { bits: MIN_PERSPECTIVE_FOV }, Number { bits: MAX_PERSPECTIVE_FOV });
    } else {
        pose.orthographic_scale = wheel_zoomed_orthographic_scale(pose.orthographic_scale, moved);
    }
}

/// An application that saw a button go down sees it come up before the mouse is
/// taken from it: after a loss of focus no button is held, no drag goes on, and
/// the first movement after it is not dropped as a repetition.
pub proof fn law_focus_loss_releases_everything(session: MouseSession, context: MouseContext)
    ensures
        ({
            let (next, action) = session.handled(MouseEvent::FocusLost, context);
            &&& !next.forwarded.any_pressed()
            &&& next.forwarded.last_cell is None
            &&& next.interaction == no_interaction()
            &&& !next.selection.dragging
            &&& next.selection.pending_start is None
            &&& next.selection.bounds() == session.selection.bounds()
            &&& next.touch == no_touch()
            &&& session.forwarded.last_cell is Some && session.forwarded.any_pressed()
                && context.protocol != MouseProtocolMode::Off ==> action == ActionModel::Send(
                session.forwarded.owed(context.protocol, context.encoding),
            )
        }),
{
    if let Some(cell) = session.forwarded.last_cell {
        lemma_report_is_not_empty(cell, 0, context.encoding);
        lemma_report_is_not_empty(cell, 1, context.encoding);
        lemma_report_is_not_empty(cell, 2, context.encoding);
    }
}

proof fn lemma_report_is_not_empty(
    cell: CellPosition,
    button_code: u16,
    encoding: MouseProtocolEncoding,
)
    ensures
        mouse_report(cell, button_code, true, encoding).len() > 0,
{
    let code = decimal(button_code as nat);
    assert(code.len() > 0);
}

/// Nothing is selected, forwarded or turned while the Mobius strip moves.
pub proof fn law_a_moving_strip_takes_no_buttons(
    session: MouseSession,
    context: MouseContext,
    button: MouseButton,
    pressed: bool,
    cell: Option<CellPosition>,
    remembered: Option<CellPosition>,
)
    requires
        context.animating(),
    ensures
        session.handled(MouseEvent::Button { button, pressed, cell, remembered }, context) == (
            session,
            ActionModel::Ignore,
        ),
{
}

/// A drag over a selection that was armed ends with bounds that hold both its
/// ends.
pub proof fn law_selections_span_the_drag(
    selection: TerminalSelection,
    from: CellPosition,
    position: Point,
    to: CellPosition,
)
    ensures
        ({
            let bounds = selection.armed(from, position).dragged(to, true).ended().bounds();
            &&& bounds is Some
            &&& bounds->0.start_row <= from.y <= bounds->0.end_row
            &&& bounds->0.start_row <= to.y <= bounds->0.end_row
            &&& bounds->0.start_col <= from.x <= bounds->0.end_col
            &&& bounds->0.start_col <= to.x <= bounds->0.end_col
        }),
{
}

} // verus!
